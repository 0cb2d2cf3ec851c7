use tictactoe::Grid;
use tictactoe::Player;

#[test]
fn from_recounts_turns_and_player() {
    // The turn counter and the side to move are recomputed from the cells.
    let even = Grid::from([
        [Player::X, Player::O, Player::Empty],
        [Player::Empty, Player::X, Player::Empty],
        [Player::O, Player::Empty, Player::Empty],
    ]);
    assert_eq!(even.number_of_turns, 4);
    assert_eq!(even.player_turn, Player::X);

    let odd = Grid::from([
        [Player::X, Player::O, Player::X],
        [Player::Empty, Player::X, Player::Empty],
        [Player::O, Player::Empty, Player::Empty],
    ]);
    assert_eq!(odd.number_of_turns, 5);
    assert_eq!(odd.player_turn, Player::O);
}

#[test]
fn set_on_occupied_cell_rejects_and_keeps_grid() {
    let mut grid = Grid::from([
        [Player::X, Player::O, Player::Empty],
        [Player::Empty, Player::Empty, Player::Empty],
        [Player::Empty, Player::Empty, Player::Empty],
    ]);
    let before_matrix = grid.matrix;
    let before_turns = grid.number_of_turns;
    let before_player = grid.player_turn;

    assert_eq!(grid.set(0, 0), Err(Player::X));
    assert_eq!(grid.set(1, 0), Err(Player::O));

    assert_eq!(grid.matrix, before_matrix);
    assert_eq!(grid.number_of_turns, before_turns);
    assert_eq!(grid.player_turn, before_player);
}

#[test]
fn set_on_empty_cell_advances_turn() {
    let mut grid = Grid::new();

    assert_eq!(grid.set(1, 2), Ok(()));
    assert_eq!(grid.matrix[2][1], Player::X);
    assert_eq!(grid.number_of_turns, 1);
    assert_eq!(grid.player_turn, Player::O);

    assert_eq!(grid.set(0, 0), Ok(()));
    assert_eq!(grid.matrix[0][0], Player::O);
    assert_eq!(grid.number_of_turns, 2);
    assert_eq!(grid.player_turn, Player::X);
}

#[test]
fn queries_idempotent_without_set() {
    let grid = Grid::from([
        [Player::X, Player::X, Player::X],
        [Player::O, Player::O, Player::Empty],
        [Player::Empty, Player::Empty, Player::Empty],
    ]);

    assert_eq!(grid.has_winner(), grid.has_winner());
    assert_eq!(grid.is_full(), grid.is_full());
    assert_eq!(grid.has_winner(), true);
    assert_eq!(grid.is_full(), false);
}

#[test]
fn symbols_for_rendering() {
    assert_eq!(Player::X.symbol(), 'X');
    assert_eq!(Player::O.symbol(), 'O');
    assert_eq!(Player::Empty.symbol(), ' ');
}
