use tictactoe::minimax;
use tictactoe::Grid;
use tictactoe::Player;

#[test]
fn immediate_win() {
    let grid = Grid::from([
        [Player::Empty, Player::O, Player::Empty],
        [Player::X, Player::O, Player::X],
        [Player::Empty, Player::Empty, Player::X],
    ]);

    assert_eq!(grid.best_play(), Some((1, 2)));
}

#[test]
fn immediate_lose() {
    let grid = Grid::from([
        [Player::O, Player::Empty, Player::X],
        [Player::Empty, Player::Empty, Player::X],
        [Player::Empty, Player::Empty, Player::Empty],
    ]);

    assert_eq!(grid.best_play(), Some((2, 2)));
}

#[test]
fn empty_board_engine_moves_and_draws() {
    // A move always comes back on an open board; under perfect play the
    // empty board is worth zero, and since every opening move keeps that
    // value, the tie-break keeps the earliest cell scanned.
    let grid = Grid::new();
    assert_eq!(minimax(grid), 0);
    assert_eq!(grid.best_play(), Some((0, 0)));
}

#[test]
fn full_board_no_engine_move() {
    let grid = Grid::from([
        [Player::X, Player::X, Player::O],
        [Player::O, Player::O, Player::X],
        [Player::X, Player::O, Player::X],
    ]);

    assert_eq!(grid.best_play(), None);
}

#[test]
fn minimax_scores_won_board() {
    // Five marks are down and O, the side that is not to move, holds a row:
    // the value is turns_played - 10 = -5.
    let grid = Grid::from([
        [Player::X, Player::X, Player::X],
        [Player::O, Player::O, Player::Empty],
        [Player::Empty, Player::Empty, Player::Empty],
    ]);

    assert_eq!(minimax(grid), -5);
}

#[test]
fn minimax_full_draw_is_zero() {
    let grid = Grid::from([
        [Player::X, Player::X, Player::O],
        [Player::O, Player::O, Player::X],
        [Player::X, Player::O, Player::X],
    ]);

    assert!(!grid.has_winner());
    assert!(grid.is_full());
    assert_eq!(minimax(grid), 0);
}
