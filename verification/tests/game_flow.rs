use backgammon::board::Board;
use backgammon::color::Color;
use backgammon::game::Game;

fn game_with(entries: &[(usize, i32)], player: Color) -> Game {
    let mut points = vec![0i32; 24];
    for &(i, v) in entries {
        points[i] = v;
    }
    let board = Board::from_layout(points, vec![0, 0], None).expect("layout must be valid");
    Game::from_board(board, player)
}

#[test]
fn opening_roll_offers_the_expected_moves() {
    let mut g = Game::new();
    g.apply_roll(3, 1);
    let moves = g.get_possible_moves(Color::White, vec![3, 1]);
    assert!(moves.contains(&(0, 3)));
    assert!(moves.contains(&(0, 1)));
    // Indices 5 and 12 are Black-blocked: no offered move lands there.
    for &(_, to) in moves.iter() {
        assert_ne!(to, 5);
        assert_ne!(to, 12);
    }
}

#[test]
fn every_offered_move_passes_revalidation() {
    let mut g = Game::new();
    g.apply_roll(6, 2);
    let moves = g.get_possible_moves(Color::White, g.dice_rolls.clone());
    assert!(!moves.is_empty());
    for &(from, to) in moves.iter() {
        assert!(g.board.can_move_piece(Color::White, from, to));
    }
}

#[test]
fn moves_for_piece_are_sorted_for_display() {
    let mut g = Game::new();
    g.apply_roll(3, 1);
    assert_eq!(g.get_possible_moves_for_piece(Color::White, 0), vec![1, 3]);
    let mut b = game_with(&[(23, -2), (0, 2)], Color::Black);
    b.apply_roll(3, 1);
    assert_eq!(b.get_possible_moves_for_piece(Color::Black, 23), vec![22, 20]);
}

#[test]
fn moves_for_piece_collapse_doubles() {
    let mut g = Game::new();
    g.apply_roll(2, 2);
    assert_eq!(g.get_possible_moves_for_piece(Color::White, 0), vec![2]);
}

#[test]
fn choosable_pieces_carry_display_position_and_height() {
    let mut g = Game::new();
    g.apply_roll(3, 1);
    let (on_board, bar) = g.get_choosable_pieces();
    assert_eq!(bar, [0, 0]);
    assert_eq!(on_board, vec![[1, 2], [12, 5], [17, 3], [19, 5]]);
}

#[test]
fn can_move_reflects_the_dice_queue() {
    let mut g = Game::new();
    assert!(!g.can_move(Color::White));
    g.apply_roll(3, 1);
    assert!(g.can_move(Color::White));
}

#[test]
fn blocked_player_has_no_moves() {
    // Black's only checker sits on the bar-side corner and every reachable
    // point is held by two White checkers.
    let mut g = game_with(&[(23, -1), (22, 2), (21, 2), (20, 2), (19, 2), (18, 2), (17, 2)],
        Color::Black);
    g.apply_roll(1, 5);
    assert!(!g.can_move(Color::Black));
    assert!(g.can_move(Color::White));
}

#[test]
fn applying_a_move_updates_the_board() {
    let mut g = Game::new();
    g.apply_roll(3, 1);
    let r = g.apply_move(0, 3);
    assert_eq!(r, Ok(()));
    assert_eq!(g.board.points[0], 1);
    assert_eq!(g.board.points[3], 1);
    assert_eq!(g.player, Color::White);
}

#[test]
fn rejected_move_changes_nothing() {
    let mut g = Game::new();
    g.apply_roll(3, 1);
    let before_points = g.board.points.clone();
    let r = g.apply_move(0, 5);
    assert!(r.is_err());
    assert_eq!(g.board.points, before_points);
    assert_eq!(g.dice_rolls, vec![3, 1]);
}

#[test]
fn bear_off_via_apply_move_consumes_minimum_sufficient_pip() {
    // One White checker two pips from the edge; dice offer a five and a two.
    let mut g = game_with(&[(22, 1), (0, -2)], Color::White);
    g.apply_roll(5, 2);
    let r = g.apply_move(22, 24);
    assert_eq!(r, Ok(()));
    assert_eq!(g.dice_rolls, vec![5]);
    assert_eq!(g.board.checkers_remaining(Color::White), 0);
}

#[test]
fn bear_off_via_apply_move_accepts_overshoot_pip() {
    // For a distance of two, the three is the smallest pip that suffices.
    let mut g = game_with(&[(22, 1), (0, -2)], Color::White);
    g.apply_roll(5, 3);
    let r = g.apply_move(22, 24);
    assert_eq!(r, Ok(()));
    assert_eq!(g.dice_rolls, vec![5]);
    assert_eq!(g.board.checkers_remaining(Color::White), 0);
}

#[test]
fn bear_off_piece_exact_roll() {
    let mut g = game_with(&[(20, 1), (0, -2)], Color::White);
    g.apply_roll(4, 2);
    let r = g.bear_off_piece(20, 4);
    assert_eq!(r, Ok(()));
    assert_eq!(g.board.points[20], 0);
    assert_eq!(g.dice_rolls, vec![2]);
}

#[test]
fn bear_off_piece_rejected_before_home_complete() {
    let mut g = Game::new();
    g.apply_roll(6, 6);
    let r = g.bear_off_piece(18, 6);
    assert!(r.is_err());
    assert_eq!(g.board.points[18], 5);
    assert_eq!(g.dice_rolls, vec![6, 6, 6, 6]);
}

#[test]
fn bear_off_piece_overshoot_from_farthest_back_point() {
    // The single White checker sits two pips from the edge; a five may take
    // it off because no on-board move can use the five.
    let mut g = game_with(&[(22, 1), (0, -2)], Color::White);
    g.apply_roll(5, 3);
    let r = g.bear_off_piece(22, 5);
    assert_eq!(r, Ok(()));
    assert_eq!(g.board.checkers_remaining(Color::White), 0);
    assert_eq!(g.dice_rolls, vec![3]);
}

#[test]
fn bear_off_piece_overshoot_rejected_when_on_board_move_exists() {
    // A White checker on index 18 could still use the four on the board, so
    // the four may not overshoot off the checker on index 22.
    let mut g = game_with(&[(18, 1), (22, 1), (0, -2)], Color::White);
    g.apply_roll(4, 1);
    let r = g.bear_off_piece(22, 4);
    assert!(r.is_err());
    assert_eq!(g.board.points[22], 1);
    assert_eq!(g.dice_rolls, vec![4, 1]);
}

#[test]
fn bear_off_piece_overshoot_rejected_from_nearer_point() {
    // Two White checkers: the six must not take off the nearer one while the
    // farther one stands behind it, even though no on-board move uses it.
    let mut g = game_with(&[(20, 1), (22, 1), (0, -2)], Color::Black);
    g.switch_turn();
    assert_eq!(g.player, Color::White);
    g.apply_roll(6, 6);
    let r = g.bear_off_piece(22, 6);
    assert!(r.is_err());
    let r2 = g.bear_off_piece(20, 6);
    assert_eq!(r2, Ok(()));
}

#[test]
fn game_ends_when_one_side_has_no_checkers_left() {
    let mut g = game_with(&[(23, 2), (0, -3)], Color::White);
    assert!(!g.is_over());
    assert_eq!(g.winner(), None);
    g.apply_roll(1, 1);
    assert_eq!(g.apply_move(23, 24), Ok(()));
    assert!(!g.is_over());
    assert_eq!(g.apply_move(23, 24), Ok(()));
    assert!(g.is_over());
    assert_eq!(g.winner(), Some(Color::White));
}

#[test]
fn bar_checkers_keep_the_game_going() {
    // White has borne off every track checker but one sits on the bar.
    let mut points = vec![0i32; 24];
    points[0] = -3;
    let board = Board::from_layout(points, vec![1, 0], None).expect("layout must be valid");
    let g = Game::from_board(board, Color::White);
    assert!(!g.is_over());
    assert_eq!(g.winner(), None);
}

#[test]
fn highest_point_is_the_farthest_back_occupied_home_point() {
    let g = game_with(&[(19, 2), (22, 3)], Color::White);
    assert_eq!(g.highest_point_in_home_zone(), (19, 2));
    let gb = game_with(&[(1, -2), (4, -1)], Color::Black);
    assert_eq!(gb.highest_point_in_home_zone(), (4, -1));
}
