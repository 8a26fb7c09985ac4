use backgammon::color::Color;
use backgammon::game::Game;

#[test]
fn doubles_grant_four_pips() {
    let mut g = Game::new();
    g.apply_roll(4, 4);
    assert_eq!(g.dice_rolls, vec![4, 4, 4, 4]);
    assert!(g.dice_rolled);
}

#[test]
fn plain_roll_grants_two_pips() {
    let mut g = Game::new();
    g.apply_roll(3, 5);
    assert_eq!(g.dice_rolls, vec![3, 5]);
    assert!(g.dice_rolled);
}

#[test]
fn roll_log_grows_by_one_entry_per_roll() {
    let mut g = Game::new();
    g.apply_roll(3, 5);
    assert_eq!(g.game_log.len(), 1);
    assert_eq!(g.game_log[0].player, Color::White);
    assert_eq!(g.game_log[0].dice_rolls, vec![3, 5]);
    g.switch_turn();
    g.apply_roll(6, 6);
    assert_eq!(g.game_log.len(), 2);
    assert_eq!(g.game_log[0].dice_rolls, vec![3, 5]);
    assert_eq!(g.game_log[1].player, Color::Black);
    assert_eq!(g.game_log[1].dice_rolls, vec![6, 6]);
}

#[test]
fn consume_pip_removes_exactly_one_occurrence() {
    let mut g = Game::new();
    g.apply_roll(4, 4);
    g.consume_pip(4);
    assert_eq!(g.dice_rolls, vec![4, 4, 4]);
    g.consume_pip(4);
    assert_eq!(g.dice_rolls, vec![4, 4]);
}

#[test]
fn consume_pip_keeps_order_of_remaining_pips() {
    let mut g = Game::new();
    g.apply_roll(3, 5);
    g.consume_pip(3);
    assert_eq!(g.dice_rolls, vec![5]);
    let mut g2 = Game::new();
    g2.apply_roll(3, 5);
    g2.consume_pip(5);
    assert_eq!(g2.dice_rolls, vec![3]);
}

#[test]
fn switch_turn_flips_player_and_clears_dice() {
    let mut g = Game::new();
    g.apply_roll(2, 6);
    g.switch_turn();
    assert_eq!(g.player, Color::Black);
    assert!(!g.dice_rolled);
    assert!(g.dice_rolls.is_empty());
    g.switch_turn();
    assert_eq!(g.player, Color::White);
}

#[test]
fn default_game_matches_new() {
    let d = Game::default();
    let n = Game::new();
    assert_eq!(d.board.points, n.board.points);
    assert_eq!(d.board.bar, n.board.bar);
    assert_eq!(d.player, n.player);
    assert_eq!(d.dice_rolls, n.dice_rolls);
    assert_eq!(d.dice_rolled, n.dice_rolled);
    assert_eq!(d.game_log.len(), n.game_log.len());
}

#[test]
fn applied_move_consumes_the_travelled_distance() {
    let mut g = Game::new();
    g.apply_roll(3, 1);
    let r = g.apply_move(0, 3);
    assert_eq!(r, Ok(()));
    assert_eq!(g.dice_rolls, vec![1]);
    let r2 = g.apply_move(0, 1);
    assert_eq!(r2, Ok(()));
    assert!(g.dice_rolls.is_empty());
}

#[test]
fn applied_move_consumes_first_occurrence_only() {
    let mut g = Game::new();
    g.apply_roll(1, 3);
    let r = g.apply_move(0, 3);
    assert_eq!(r, Ok(()));
    assert_eq!(g.dice_rolls, vec![1]);
}

#[test]
fn move_without_matching_pip_is_rejected() {
    let mut g = Game::new();
    g.apply_roll(3, 1);
    let before = g.board.points.clone();
    // Moving two pips is legal on the board, but no pip of two is queued.
    let r = g.apply_move(0, 2);
    assert!(r.is_err());
    assert_eq!(g.board.points, before);
    assert_eq!(g.dice_rolls, vec![3, 1]);
}
