use backgammon::board::Board;
use backgammon::color::Color;
use backgammon::game::Game;

fn layout(entries: &[(usize, i32)], bar: [i32; 2], cap: Option<usize>) -> Board {
    let mut points = vec![0i32; 24];
    for &(i, v) in entries {
        points[i] = v;
    }
    Board::from_layout(points, vec![bar[0], bar[1]], cap).expect("layout must be valid")
}

#[test]
fn opposite_maps_each_color_to_the_other() {
    assert_eq!(Color::White.opposite(), Color::Black);
    assert_eq!(Color::Black.opposite(), Color::White);
}

#[test]
fn direction_and_bar_slots() {
    let g = Game::new();
    assert_eq!(g.board.direction(Color::White), 1);
    assert_eq!(g.board.direction(Color::Black), -1);
    assert_eq!(g.board.opposite_bar_index(Color::White), 1);
    assert_eq!(g.board.opposite_bar_index(Color::Black), 0);
}

#[test]
fn home_zones() {
    let g = Game::new();
    assert_eq!(g.board.home(Color::White), (18, 24));
    assert_eq!(g.board.home(Color::Black), (0, 6));
}

#[test]
fn candidate_destination_moves_with_the_player() {
    let g = Game::new();
    assert_eq!(g.board.get_index(Color::White, 10, 4), 14);
    assert_eq!(g.board.get_index(Color::Black, 10, 4), 6);
    assert_eq!(g.board.get_index(Color::White, 22, 5), 27);
    assert_eq!(g.board.get_index(Color::Black, 2, 5), -3);
}

#[test]
fn opening_layout() {
    let g = Game::new();
    let expected: [i32; 24] = [
        2, 0, 0, 0, 0, -5, 0, -3, 0, 0, 0, 5, -5, 0, 0, 0, 3, 0, 5, 0, 0, 0, 0, -2,
    ];
    assert_eq!(g.board.points.as_slice(), &expected);
    assert_eq!(g.board.bar, vec![0, 0]);
    assert_eq!(g.board.stack_cap, None);
    assert_eq!(g.player, Color::White);
    assert!(!g.dice_rolled);
    assert!(g.dice_rolls.is_empty());
    assert!(g.game_log.is_empty());
    assert_eq!(g.board.checkers_remaining(Color::White), 15);
    assert_eq!(g.board.checkers_remaining(Color::Black), 15);
}

#[test]
fn point_queries() {
    let g = Game::new();
    assert_eq!(g.board.get_point_color(0), Some(Color::White));
    assert_eq!(g.board.get_point_color(5), Some(Color::Black));
    assert_eq!(g.board.get_point_color(1), None);
    assert_eq!(g.board.get_point_count(0), 2);
    assert_eq!(g.board.get_point_count(5), 5);
    assert_eq!(g.board.get_point_count(1), 0);
    assert_eq!(g.board.get_next_free_row(5), 6);
    assert_eq!(g.board.get_next_free_row(1), 1);
}

#[test]
fn points_for_color_lists_owned_points_in_order() {
    let g = Game::new();
    assert_eq!(g.board.get_points_for_color(Color::White), vec![0, 11, 16, 18]);
    assert_eq!(g.board.get_points_for_color(Color::Black), vec![5, 7, 12, 23]);
}

#[test]
fn cannot_move_from_empty_point() {
    let g = Game::new();
    assert!(!g.board.can_move_piece(Color::White, 1, 2));
    assert!(!g.board.can_move_piece(Color::Black, 2, 1));
}

#[test]
fn cannot_move_opponent_checker() {
    let g = Game::new();
    assert!(!g.board.can_move_piece(Color::White, 5, 8));
    assert!(!g.board.can_move_piece(Color::Black, 0, 1));
}

#[test]
fn cannot_land_on_blocked_point() {
    let g = Game::new();
    // Index 5 and 12 hold five Black checkers each.
    assert!(!g.board.can_move_piece(Color::White, 0, 5));
    assert!(!g.board.can_move_piece(Color::White, 11, 12));
    // Index 11 holds five White checkers.
    assert!(!g.board.can_move_piece(Color::Black, 12, 11));
}

#[test]
fn can_move_to_empty_or_own_point() {
    let g = Game::new();
    assert!(g.board.can_move_piece(Color::White, 0, 2));
    assert!(g.board.can_move_piece(Color::White, 11, 16));
    assert!(g.board.can_move_piece(Color::Black, 23, 20));
}

#[test]
fn hit_must_travel_in_the_movers_direction() {
    // A lone Black checker behind a White checker cannot be hit backward,
    // though a backward move onto an empty point is not a legality concern.
    let b = layout(&[(10, 1), (8, -1)], [0, 0], None);
    assert!(!b.can_move_piece(Color::White, 10, 8));
    let b2 = layout(&[(10, 1)], [0, 0], None);
    assert!(b2.can_move_piece(Color::White, 10, 8));
    let b3 = layout(&[(4, -1), (6, 1)], [0, 0], None);
    assert!(!b3.can_move_piece(Color::Black, 4, 6));
}

#[test]
fn stacking_cap_blocks_full_points_when_enabled() {
    let b = layout(&[(16, 1), (18, 5)], [0, 0], Some(5));
    assert!(!b.can_move_piece(Color::White, 16, 18));
    let b2 = layout(&[(16, 1), (18, 5)], [0, 0], None);
    assert!(b2.can_move_piece(Color::White, 16, 18));
    let b3 = layout(&[(16, 1), (18, 4)], [0, 0], Some(5));
    assert!(b3.can_move_piece(Color::White, 16, 18));
}

#[test]
fn home_complete_requires_all_track_checkers_home() {
    let g = Game::new();
    assert!(!g.board.is_player_home_complete(Color::White));
    assert!(!g.board.is_player_home_complete(Color::Black));
    let b = layout(&[(18, 3), (20, 2), (0, -2)], [0, 0], None);
    assert!(b.is_player_home_complete(Color::White));
    assert!(b.is_player_home_complete(Color::Black));
    let b2 = layout(&[(17, 1), (20, 2)], [0, 0], None);
    assert!(!b2.is_player_home_complete(Color::White));
    // Checkers on the bar do not block home completeness.
    let b3 = layout(&[(19, 2)], [3, 0], None);
    assert!(b3.is_player_home_complete(Color::White));
}

#[test]
fn make_move_moves_one_checker() {
    let mut g = Game::new();
    let r = g.board.make_move(Color::White, 0, 2);
    assert_eq!(r, Ok(()));
    assert_eq!(g.board.points[0], 1);
    assert_eq!(g.board.points[2], 1);
    assert_eq!(g.board.checkers_remaining(Color::White), 15);
    assert_eq!(g.board.checkers_remaining(Color::Black), 15);
}

#[test]
fn make_move_rejects_and_leaves_board_untouched() {
    let mut g = Game::new();
    let before = g.board.points.clone();
    let r = g.board.make_move(Color::White, 1, 2);
    assert!(r.is_err());
    assert_eq!(g.board.points, before);
    assert_eq!(g.board.bar, vec![0, 0]);
    let r2 = g.board.make_move(Color::White, 0, 5);
    assert!(r2.is_err());
    assert_eq!(g.board.points, before);
}

#[test]
fn hit_sends_lone_checker_to_the_bar() {
    // A White checker on index 22 and a lone Black checker on index 23.
    let mut b = layout(&[(22, 1), (23, -1)], [0, 0], None);
    let r = b.make_move(Color::White, 22, 23);
    assert_eq!(r, Ok(()));
    assert_eq!(b.points[23], 1);
    assert_eq!(b.points[22], 0);
    assert_eq!(b.bar[1], 1);
    assert_eq!(b.bar[0], 0);
}

#[test]
fn bear_off_rejected_before_home_complete() {
    let mut g = Game::new();
    let r = g.board.make_move(Color::White, 18, 24);
    assert!(r.is_err());
    let r2 = g.board.make_move(Color::Black, 5, -1);
    assert!(r2.is_err());
}

#[test]
fn bear_off_removes_the_checker_from_play() {
    let mut b = layout(&[(23, 2), (0, -2)], [0, 0], None);
    let r = b.make_move(Color::White, 23, 24);
    assert_eq!(r, Ok(()));
    assert_eq!(b.points[23], 1);
    assert_eq!(b.checkers_remaining(Color::White), 1);
    let mut b2 = layout(&[(0, -2)], [0, 0], None);
    let r2 = b2.make_move(Color::Black, 0, -1);
    assert_eq!(r2, Ok(()));
    assert_eq!(b2.points[0], -1);
    assert_eq!(b2.checkers_remaining(Color::Black), 1);
}

#[test]
fn from_layout_rejects_impossible_snapshots() {
    assert!(Board::from_layout(vec![0; 23], vec![0, 0], None).is_none());
    assert!(Board::from_layout(vec![0; 24], vec![0], None).is_none());
    assert!(Board::from_layout(vec![0; 24], vec![-1, 0], None).is_none());
    let mut too_many = vec![0i32; 24];
    too_many[0] = 14;
    too_many[1] = 2;
    assert!(Board::from_layout(too_many, vec![0, 0], None).is_none());
    let mut full = vec![0i32; 24];
    full[0] = 15;
    full[23] = -15;
    assert!(Board::from_layout(full, vec![0, 0], None).is_some());
    let mut with_bar = vec![0i32; 24];
    with_bar[0] = 14;
    assert!(Board::from_layout(with_bar.clone(), vec![1, 0], None).is_some());
    assert!(Board::from_layout(with_bar, vec![2, 0], None).is_none());
}
