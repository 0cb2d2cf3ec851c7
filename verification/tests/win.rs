use tictactoe::Grid;
use tictactoe::Player;

#[test]
fn check_diag() {
    let grid = Grid::from([
        [Player::X, Player::Empty, Player::Empty],
        [Player::O, Player::X, Player::Empty],
        [Player::O, Player::Empty, Player::X],
    ]);

    assert_eq!(grid.has_winner(), true);
}

#[test]
fn check_antidiag() {
    let grid = Grid::from([
        [Player::O, Player::Empty, Player::X],
        [Player::X, Player::X, Player::Empty],
        [Player::X, Player::O, Player::O],
    ]);

    assert_eq!(grid.has_winner(), true);
}

#[test]
fn check_col() {
    let grid = Grid::from([
        [Player::O, Player::X, Player::Empty],
        [Player::O, Player::X, Player::X],
        [Player::O, Player::Empty, Player::X],
    ]);

    assert_eq!(grid.has_winner(), true);
}

#[test]
fn check_row() {
    let grid = Grid::from([
        [Player::X, Player::X, Player::X],
        [Player::O, Player::X, Player::Empty],
        [Player::O, Player::Empty, Player::O],
    ]);

    assert_eq!(grid.has_winner(), true);
}

#[test]
fn no_winner() {
    let grid = Grid::from([
        [Player::X, Player::Empty, Player::Empty],
        [Player::O, Player::O, Player::X],
        [Player::O, Player::X, Player::X],
    ]);

    assert_eq!(grid.has_winner(), false);
}

#[test]
fn empty_no_winner() {
    let grid = Grid::from([
        [Player::Empty, Player::Empty, Player::Empty],
        [Player::Empty, Player::Empty, Player::Empty],
        [Player::Empty, Player::Empty, Player::Empty],
    ]);

    assert_eq!(grid.has_winner(), false);
}

#[test]
fn is_full() {
    let grid = Grid::from([
        [Player::X, Player::X, Player::O],
        [Player::O, Player::O, Player::X],
        [Player::O, Player::X, Player::X],
    ]);

    assert_eq!(grid.is_full(), true);
}

#[test]
fn is_not_full() {
    let grid = Grid::from([
        [Player::Empty, Player::X, Player::O],
        [Player::O, Player::Empty, Player::X],
        [Player::O, Player::X, Player::X],
    ]);

    assert_eq!(grid.is_full(), false);
}
