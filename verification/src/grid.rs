//! The 3x3 board: cell marks, the turn counter derived from the cells, and
//! the single mutation that advances the game.

use vstd::prelude::*;

verus! {

/// A cell's occupant: one of the two marks, or nothing.
#[derive(Clone, Copy, Debug, PartialEq, Eq, Structural)]
pub enum Player {
    X,
    O,
    Empty,
}

/// A board snapshot. `number_of_turns` always equals the count of non-empty
/// cells and `player_turn` follows from its parity (`X` moves on even turns);
/// `wf` states both, every constructor establishes them and `set` keeps them.
#[derive(Clone, Copy, Debug)]
pub struct Grid {
    pub matrix: [[Player; 3]; 3],
    pub number_of_turns: i32,
    pub player_turn: Player,
}

/// The board read row by row, top to bottom: cell (x, y) is at index 3 * y + x.
pub open spec fn flatten(m: [[Player; 3]; 3]) -> Seq<Player> {
    Seq::new(9, |i: int| m[i / 3][i % 3])
}

impl View for Grid {
    type V = Seq<Player>;

    open spec fn view(&self) -> Seq<Player> {
        flatten(self.matrix)
    }
}

/// How much a cell adds to the turn count.
pub open spec fn cell_weight(p: Player) -> int {
    if p is Empty {
        0
    } else {
        1
    }
}

/// The number of occupied cells among the first `i` of the board.
pub open spec fn filled_upto(s: Seq<Player>, i: int) -> int
    decreases i,
{
    if i <= 0 {
        0
    } else {
        filled_upto(s, i - 1) + cell_weight(s[i - 1])
    }
}

/// The number of occupied cells of the whole board.
pub open spec fn filled_count(s: Seq<Player>) -> int {
    filled_upto(s, 9)
}

/// Whose turn it is after `turns` marks were placed: `X` went first.
pub open spec fn player_of(turns: int) -> Player {
    if turns % 2 == 0 {
        Player::X
    } else {
        Player::O
    }
}

/// The mark of the other side.
pub open spec fn opposite(p: Player) -> Player {
    if p is X {
        Player::O
    } else {
        Player::X
    }
}

/// All cells of the board empty.
pub open spec fn empty_board() -> Seq<Player> {
    Seq::new(9, |i: int| Player::Empty)
}

/// Three given cells uniformly `X` or uniformly `O`.
pub open spec fn line_won(s: Seq<Player>, a: int, b: int, c: int) -> bool {
    (s[a] is X && s[b] is X && s[c] is X) || (s[a] is O && s[b] is O && s[c] is O)
}

/// Row `r` (cells (0, r), (1, r), (2, r)) uniformly marked.
pub open spec fn row_won(s: Seq<Player>, r: int) -> bool {
    line_won(s, 3 * r, 3 * r + 1, 3 * r + 2)
}

/// Column `c` (cells (c, 0), (c, 1), (c, 2)) uniformly marked.
pub open spec fn col_won(s: Seq<Player>, c: int) -> bool {
    line_won(s, c, c + 3, c + 6)
}

/// One of the two diagonals uniformly marked.
pub open spec fn diag_won(s: Seq<Player>) -> bool {
    line_won(s, 0, 4, 8) || line_won(s, 2, 4, 6)
}

/// Some row, column, or diagonal is uniformly `X` or uniformly `O`.
pub open spec fn winner_exists(s: Seq<Player>) -> bool {
    ||| row_won(s, 0)
    ||| row_won(s, 1)
    ||| row_won(s, 2)
    ||| col_won(s, 0)
    ||| col_won(s, 1)
    ||| col_won(s, 2)
    ||| diag_won(s)
}

pub proof fn lemma_filled_bounds(s: Seq<Player>, i: int)
    requires
        0 <= i,
    ensures
        0 <= filled_upto(s, i) <= i,
    decreases i,
{
    if i > 0 {
        lemma_filled_bounds(s, i - 1);
    }
}

pub proof fn lemma_filled_update(s: Seq<Player>, j: int, p: Player, i: int)
    requires
        0 <= j < s.len(),
        i <= s.len(),
    ensures
        filled_upto(s.update(j, p), i) == filled_upto(s, i) + if j < i {
            cell_weight(p) - cell_weight(s[j])
        } else {
            0
        },
    decreases i,
{
    if i > 0 {
        lemma_filled_update(s, j, p, i - 1);
    }
}

/// A run of empty cells adds nothing to the count.
pub proof fn lemma_filled_empty(s: Seq<Player>, i: int)
    requires
        0 <= i,
        forall|k: int| 0 <= k < i ==> s[k] is Empty,
    ensures
        filled_upto(s, i) == 0,
    decreases i,
{
    if i > 0 {
        lemma_filled_empty(s, i - 1);
    }
}

/// The first `i` cells are all occupied exactly when they number `i`.
pub proof fn lemma_filled_full(s: Seq<Player>, i: int)
    requires
        0 <= i,
    ensures
        (filled_upto(s, i) == i) <==> (forall|k: int| 0 <= k < i ==> !(s[k] is Empty)),
    decreases i,
{
    if i > 0 {
        lemma_filled_full(s, i - 1);
        lemma_filled_bounds(s, i - 1);
    }
}

/// Cell (x, y) of the matrix and its place in the flattened board.
pub proof fn lemma_flatten_index(m: [[Player; 3]; 3], x: int, y: int)
    requires
        0 <= x < 3,
        0 <= y < 3,
    ensures
        flatten(m)[3 * y + x] == m[y][x],
{
    assert((3 * y + x) / 3 == y && (3 * y + x) % 3 == x) by (nonlinear_arith)
        requires
            0 <= x < 3,
            0 <= y < 3,
    ;
}

impl Grid {
    /// The derived fields agree with the cells: the turn counter counts the
    /// occupied cells and the side to move follows from its parity.
    pub open spec fn wf(self) -> bool {
        &&& self.number_of_turns == filled_count(self@)
        &&& self.player_turn == player_of(self.number_of_turns as int)
    }

    /// An empty board: no turns played, `X` to move.
    pub fn new() -> (g: Grid)
        ensures
            g.wf(),
            g@ == empty_board(),
            g.number_of_turns == 0,
            g.player_turn == Player::X,
    {
        let g = Grid::from(
            [
                [Player::Empty, Player::Empty, Player::Empty],
                [Player::Empty, Player::Empty, Player::Empty],
                [Player::Empty, Player::Empty, Player::Empty],
            ],
        );
        proof {
            assert(g@ =~= empty_board());
            assert(filled_upto(g@, 9) == 0) by {
                lemma_filled_empty(g@, 9);
            }
        }
        g
    }

    /// A board built from arbitrary cells; the turn counter and the side to
    /// move are recomputed from the cells, not supplied by the caller.
    pub fn from(matrix: [[Player; 3]; 3]) -> (g: Grid)
        ensures
            g.matrix == matrix,
            g.number_of_turns == filled_count(flatten(matrix)),
            g.player_turn == player_of(filled_count(flatten(matrix))),
            g.wf(),
    {
        let number_of_turn = Grid::count_number_of_turns(matrix);
        let player_turn = if number_of_turn % 2 == 0 {
            Player::X
        } else {
            Player::O
        };
        Grid { matrix, number_of_turns: number_of_turn, player_turn }
    }

    /// Counts the occupied cells of the matrix.
    fn count_number_of_turns(matrix: [[Player; 3]; 3]) -> (n: i32)
        ensures
            n == filled_count(flatten(matrix)),
            0 <= n <= 9,
    {
        let ghost s = flatten(matrix);
        let mut number_of_turn: i32 = 0;
        let mut y: usize = 0;
        while y < 3
            invariant
                y <= 3,
                s == flatten(matrix),
                number_of_turn == filled_upto(s, 3 * y),
                0 <= number_of_turn <= 3 * y,
            decreases 3 - y,
        {
            let mut x: usize = 0;
            while x < 3
                invariant
                    x <= 3,
                    y < 3,
                    s == flatten(matrix),
                    number_of_turn == filled_upto(s, 3 * y + x),
                    0 <= number_of_turn <= 3 * y + x,
                decreases 3 - x,
            {
                proof {
                    lemma_flatten_index(matrix, x as int, y as int);
                }
                match matrix[y][x] {
                    Player::Empty => (),
                    Player::O => number_of_turn += 1,
                    Player::X => number_of_turn += 1,
                }
                x += 1;
            }
            y += 1;
        }
        number_of_turn
    }

    /// Places the current side's mark at column `x`, row `y`. On an occupied
    /// cell nothing changes and the occupant comes back as the error;
    /// otherwise the mark is placed, the turn counter grows by one and the
    /// side to move flips.
    pub fn set(&mut self, x: usize, y: usize) -> (r: Result<(), Player>)
        requires
            old(self).wf(),
            x < 3,
            y < 3,
        ensures
            final(self).wf(),
            ({
                let idx = 3 * (y as int) + (x as int);
                if old(self)@[idx] is Empty {
                    &&& r == Ok::<(), Player>(())
                    &&& final(self)@ == old(self)@.update(idx, old(self).player_turn)
                    &&& final(self).number_of_turns == old(self).number_of_turns + 1
                    &&& final(self).player_turn == opposite(old(self).player_turn)
                } else {
                    &&& r == Err::<(), Player>(old(self)@[idx])
                    &&& *final(self) == *old(self)
                }
            }),
    {
        let ghost s = self@;
        let ghost idx = 3 * (y as int) + (x as int);
        proof {
            lemma_flatten_index(self.matrix, x as int, y as int);
        }
        if !matches!(self.matrix[y][x], Player::Empty) {
            return Err(self.matrix[y][x]);
        }
        let mut row: [Player; 3] = self.matrix[y];
        row[x] = self.player_turn;
        self.matrix[y] = row;
        proof {
            assert(self@ =~= s.update(idx, old(self).player_turn)) by {
                assert forall|k: int| 0 <= k < 9 implies self@[k] == s.update(
                    idx,
                    old(self).player_turn,
                )[k] by {
                    assert(0 <= k % 3 < 3 && k == 3 * (k / 3) + (k % 3) && 0 <= k / 3
                        < 3) by (nonlinear_arith)
                        requires
                            0 <= k < 9,
                    ;
                }
            }
            lemma_filled_bounds(s, 9);
            lemma_filled_update(s, idx, old(self).player_turn, 9);
        }
        self.number_of_turns += 1;
        self.player_turn = if matches!(self.player_turn, Player::X) {
            Player::O
        } else {
            Player::X
        };
        Ok(())
    }

    /// Whether all nine cells are occupied. A full board and a won board are
    /// independent: both must be checked to detect the end of a game.
    pub fn is_full(&self) -> (r: bool)
        ensures
            r == (self.number_of_turns == 9),
            self.wf() ==> r == (filled_count(self@) == 9),
            self.wf() ==> r == (forall|k: int| 0 <= k < 9 ==> !(self@[k] is Empty)),
    {
        proof {
            lemma_filled_full(self@, 9);
        }
        self.number_of_turns == 9
    }

    /// Whether some row, column, or diagonal holds three identical marks.
    pub fn has_winner(&self) -> (r: bool)
        ensures
            r == winner_exists(self@),
    {
        if self.check_diag() {
            return true;
        }
        let mut i: usize = 0;
        while i < 3
            invariant
                i <= 3,
                !diag_won(self@),
                forall|j: int| 0 <= j < i ==> !col_won(self@, j) && !row_won(self@, j),
            decreases 3 - i,
        {
            if self.check_col(i) {
                return true;
            }
            if self.check_row(i) {
                return true;
            }
            i += 1;
        }
        false
    }

    /// Whether column `col` holds three identical marks.
    fn check_col(&self, col: usize) -> (r: bool)
        requires
            col < 3,
        ensures
            r == col_won(self@, col as int),
    {
        proof {
            lemma_flatten_index(self.matrix, col as int, 0);
            lemma_flatten_index(self.matrix, col as int, 1);
            lemma_flatten_index(self.matrix, col as int, 2);
        }
        if matches!(self.matrix[0][col], Player::Empty) {
            return false;
        }
        self.matrix[0][col] == self.matrix[1][col] && self.matrix[1][col] == self.matrix[2][col]
    }

    /// Whether row `row` holds three identical marks.
    fn check_row(&self, row: usize) -> (r: bool)
        requires
            row < 3,
        ensures
            r == row_won(self@, row as int),
    {
        proof {
            lemma_flatten_index(self.matrix, 0, row as int);
            lemma_flatten_index(self.matrix, 1, row as int);
            lemma_flatten_index(self.matrix, 2, row as int);
        }
        if matches!(self.matrix[row][0], Player::Empty) {
            return false;
        }
        self.matrix[row][0] == self.matrix[row][1] && self.matrix[row][1] == self.matrix[row][2]
    }

    /// Whether one of the two diagonals holds three identical marks.
    fn check_diag(&self) -> (r: bool)
        ensures
            r == diag_won(self@),
    {
        if self.matrix[0][0] == self.matrix[1][1] && self.matrix[1][1] == self.matrix[2][2]
            && !matches!(self.matrix[0][0], Player::Empty) {
            return true;
        }
        if self.matrix[2][0] == self.matrix[1][1] && self.matrix[1][1] == self.matrix[0][2]
            && !matches!(self.matrix[0][2], Player::Empty) {
            return true;
        }
        false
    }
}

impl Player {
    /// The character an external renderer prints for this mark.
    pub fn symbol(&self) -> (c: char)
        ensures
            c == symbol_of(*self),
    {
        match self {
            Player::X => 'X',
            Player::O => 'O',
            Player::Empty => ' ',
        }
    }
}

/// Without an intervening `set`, repeated `has_winner` and `is_full` calls
/// agree: both contracts pin the result by the grid's state alone.
pub proof fn lemma_queries_deterministic(g: Grid, w1: bool, w2: bool, f1: bool, f2: bool)
    requires
        w1 == winner_exists(g@),
        w2 == winner_exists(g@),
        f1 == (g.number_of_turns == 9),
        f2 == (g.number_of_turns == 9),
    ensures
        w1 == w2,
        f1 == f2,
{
}

/// The display character of a mark: its letter, or a blank for an empty cell.
pub open spec fn symbol_of(p: Player) -> char {
    match p {
        Player::X => 'X',
        Player::O => 'O',
        Player::Empty => ' ',
    }
}

} // verus!
