//! Exhaustive game-tree search: the minimax value of a position and the
//! engine's choice of move.

use crate::grid::filled_count;
use crate::grid::lemma_filled_bounds;
use crate::grid::lemma_filled_full;
use crate::grid::lemma_filled_update;
use crate::grid::lemma_flatten_index;
use crate::grid::player_of;
use crate::grid::winner_exists;
use crate::grid::Grid;
use crate::grid::Player;
use vstd::prelude::*;

verus! {

/// The value of a position that already holds a winning line. `set` flips the
/// turn after placing, so at a won position `player_turn` names the side that
/// did not just win; the polarity below reads that side on purpose, and
/// faster wins score higher in magnitude.
pub open spec fn score_of(s: Seq<Player>) -> int {
    if player_of(filled_count(s)) is X {
        10 - filled_count(s)
    } else {
        filled_count(s) - 10
    }
}

/// Folds one more child value into the best seen so far: the side to move
/// plays optimally, so `X` keeps the minimum and `O` the maximum, and only a
/// strictly better value replaces the held one.
pub open spec fn combine(p: Player, best: int, cand: int) -> int {
    if p is X {
        if best > cand {
            cand
        } else {
            best
        }
    } else {
        if best < cand {
            cand
        } else {
            best
        }
    }
}

/// The board after the side to move marks cell `i`.
pub open spec fn play_at(s: Seq<Player>, i: int) -> Seq<Player> {
    s.update(i, player_of(filled_count(s)))
}

/// The folded value of the children reached by marking one of the first `i`
/// cells, scanned left to right; `None` when none of them is empty.
pub open spec fn search_upto(s: Seq<Player>, i: int) -> Option<int>
    decreases 9 - filled_count(s), i,
    when s.len() == 9 && i <= 9
{
    if i <= 0 {
        None
    } else {
        let prev = search_upto(s, i - 1);
        if s[i - 1] is Empty {
            proof {
                lemma_filled_bounds(s, 9);
                lemma_filled_full(s, 9);
                lemma_filled_update(s, i - 1, player_of(filled_count(s)), 9);
            }
            let child = minimax_spec(play_at(s, i - 1));
            match prev {
                None => Some(child),
                Some(b) => Some(combine(player_of(filled_count(s)), b, child)),
            }
        } else {
            prev
        }
    }
}

/// The game-theoretic value of a position: the score of a won position, zero
/// for a full board without a winner, and otherwise the folded value of all
/// positions one move away.
pub open spec fn minimax_spec(s: Seq<Player>) -> int
    decreases 9 - filled_count(s), 10int,
    when s.len() == 9
{
    if winner_exists(s) {
        score_of(s)
    } else if filled_count(s) == 9 {
        0
    } else {
        proof {
            lemma_filled_bounds(s, 9);
        }
        match search_upto(s, 9) {
            Some(v) => v,
            None => 0,
        }
    }
}

/// Scores a position by exploring every continuation to its end.
pub fn minimax(grid: Grid) -> (score: i32)
    requires
        grid.wf(),
    ensures
        score == minimax_spec(grid@),
    decreases 9 - grid.number_of_turns,
{
    let ghost s = grid@;
    proof {
        lemma_filled_bounds(s, 9);
    }
    if grid.has_winner() {
        if matches!(grid.player_turn, Player::X) {
            return 10 - grid.number_of_turns;
        } else {
            return grid.number_of_turns - 10;
        }
    }
    if grid.is_full() {
        return 0;
    }
    let mut score: Option<i32> = None;
    let mut y: usize = 0;
    while y < 3
        invariant
            y <= 3,
            grid.wf(),
            s == grid@,
            !winner_exists(s),
            filled_count(s) < 9,
            match score {
                None => search_upto(s, 3 * y as int) is None,
                Some(v) => search_upto(s, 3 * y as int) == Some(v as int),
            },
        decreases 3 - y,
    {
        let mut x: usize = 0;
        while x < 3
            invariant
                x <= 3,
                y < 3,
                grid.wf(),
                s == grid@,
                !winner_exists(s),
                filled_count(s) < 9,
                match score {
                    None => search_upto(s, 3 * y as int + x as int) is None,
                    Some(v) => search_upto(s, 3 * y as int + x as int) == Some(v as int),
                },
            decreases 3 - x,
        {
            let ghost idx = 3 * (y as int) + (x as int);
            proof {
                lemma_flatten_index(grid.matrix, x as int, y as int);
            }
            if matches!(grid.matrix[y][x], Player::Empty) {
                let mut ng = grid.clone();
                let _ = ng.set(x, y);
                proof {
                    lemma_filled_bounds(play_at(s, idx), 9);
                }
                let v2 = minimax(ng);
                score = match score {
                    None => Some(v2),
                    Some(v) => {
                        if matches!(grid.player_turn, Player::X) && v > v2 {
                            Some(v2)
                        } else if matches!(grid.player_turn, Player::O) && v < v2 {
                            Some(v2)
                        } else {
                            Some(v)
                        }
                    },
                };
            }
            x += 1;
        }
        y += 1;
    }
    match score {
        Some(v) => v,
        None => 0,
    }
}

/// A full board without a winning line is a draw: its minimax value is zero.
pub proof fn lemma_minimax_full_draw(s: Seq<Player>)
    requires
        s.len() == 9,
        filled_count(s) == 9,
        !winner_exists(s),
    ensures
        minimax_spec(s) == 0,
{
}

/// `score_of` with the two marks exchanged: the side read off the turn
/// parity scores with the opposite sign.
pub open spec fn dual_score_of(s: Seq<Player>) -> int {
    if player_of(filled_count(s)) is O {
        10 - filled_count(s)
    } else {
        filled_count(s) - 10
    }
}

/// `combine` with the two marks exchanged: `O` keeps the minimum and `X` the
/// maximum.
pub open spec fn dual_combine(p: Player, best: int, cand: int) -> int {
    if p is O {
        if best > cand {
            cand
        } else {
            best
        }
    } else {
        if best < cand {
            cand
        } else {
            best
        }
    }
}

/// `search_upto` with the two marks exchanged in the scoring and in the
/// minimizing and maximizing roles.
pub open spec fn dual_search_upto(s: Seq<Player>, i: int) -> Option<int>
    decreases 9 - filled_count(s), i,
    when s.len() == 9 && i <= 9
{
    if i <= 0 {
        None
    } else {
        let prev = dual_search_upto(s, i - 1);
        if s[i - 1] is Empty {
            proof {
                lemma_filled_bounds(s, 9);
                lemma_filled_full(s, 9);
                lemma_filled_update(s, i - 1, player_of(filled_count(s)), 9);
            }
            let child = dual_minimax(play_at(s, i - 1));
            match prev {
                None => Some(child),
                Some(b) => Some(dual_combine(player_of(filled_count(s)), b, child)),
            }
        } else {
            prev
        }
    }
}

/// `minimax_spec` with the two marks exchanged in the scoring and in the
/// minimizing and maximizing roles.
pub open spec fn dual_minimax(s: Seq<Player>) -> int
    decreases 9 - filled_count(s), 10int,
    when s.len() == 9
{
    if winner_exists(s) {
        dual_score_of(s)
    } else if filled_count(s) == 9 {
        0
    } else {
        proof {
            lemma_filled_bounds(s, 9);
        }
        match dual_search_upto(s, 9) {
            Some(v) => v,
            None => 0,
        }
    }
}

/// The fold of the relabeled search negates the fold of the plain one.
pub proof fn lemma_dual_search_negates(s: Seq<Player>, i: int)
    requires
        s.len() == 9,
        0 <= i <= 9,
    ensures
        match (dual_search_upto(s, i), search_upto(s, i)) {
            (None, None) => true,
            (Some(a), Some(b)) => a == -b,
            _ => false,
        },
    decreases 9 - filled_count(s), i,
{
    if i > 0 {
        lemma_dual_search_negates(s, i - 1);
        if s[i - 1] is Empty {
            lemma_filled_bounds(s, 9);
            lemma_filled_full(s, 9);
            lemma_filled_update(s, i - 1, player_of(filled_count(s)), 9);
            lemma_minimax_dual_negation(play_at(s, i - 1));
        }
    }
}

/// Relabeling `X` and `O` throughout the scoring rule while also exchanging
/// the minimizing and maximizing roles negates the value of every position:
/// perfect play favors neither mark beyond the move order.
pub proof fn lemma_minimax_dual_negation(s: Seq<Player>)
    requires
        s.len() == 9,
    ensures
        dual_minimax(s) == -minimax_spec(s),
    decreases 9 - filled_count(s), 10int,
{
    lemma_filled_bounds(s, 9);
    if !winner_exists(s) && filled_count(s) != 9 {
        lemma_dual_search_negates(s, 9);
    }
}

/// The engine's pick among the moves into the first `i` cells, scanned left
/// to right: the flat cell index and the minimax value of the board after
/// that move. Only a strictly greater value replaces the held pick, so among
/// equally good moves the earliest cell stays.
pub open spec fn best_choice_upto(s: Seq<Player>, i: int) -> Option<(int, int)>
    decreases i,
    when s.len() == 9 && i <= 9
{
    if i <= 0 {
        None
    } else {
        let prev = best_choice_upto(s, i - 1);
        if s[i - 1] is Empty {
            let sc = minimax_spec(play_at(s, i - 1));
            match prev {
                None => Some((i - 1, sc)),
                Some(pr) => if pr.1 < sc {
                    Some((i - 1, sc))
                } else {
                    Some(pr)
                },
            }
        } else {
            prev
        }
    }
}

/// The engine picks no move exactly when no cell among the first `i` is
/// empty; a picked cell is one of the first `i` and empty.
pub proof fn lemma_best_choice(s: Seq<Player>, i: int)
    requires
        s.len() == 9,
        0 <= i <= 9,
    ensures
        match best_choice_upto(s, i) {
            None => forall|k: int| 0 <= k < i ==> !(s[k] is Empty),
            Some(pr) => 0 <= pr.0 < i && s[pr.0] is Empty,
        },
    decreases i,
{
    if i > 0 {
        lemma_best_choice(s, i - 1);
    }
}

/// The folded search value is an optimum, not merely a fold: it is the value
/// of some move into the first `i` cells, no such move beats it for the side
/// to move (`X` keeps the least child value, `O` the greatest), and it is
/// `None` exactly when no such move exists.
pub proof fn lemma_search_is_optimum(s: Seq<Player>, i: int)
    requires
        s.len() == 9,
        0 <= i <= 9,
    ensures
        match search_upto(s, i) {
            None => forall|k: int| 0 <= k < i ==> !(s[k] is Empty),
            Some(v) => {
                &&& exists|k: int|
                    0 <= k < i && s[k] is Empty && minimax_spec(play_at(s, k)) == v
                &&& forall|k: int|
                    0 <= k < i && s[k] is Empty ==> if player_of(filled_count(s)) is X {
                        v <= minimax_spec(play_at(s, k))
                    } else {
                        minimax_spec(play_at(s, k)) <= v
                    }
            },
        },
    decreases i,
{
    if i > 0 {
        lemma_search_is_optimum(s, i - 1);
    }
}

/// The engine's pick is the earliest best move: it scores its own cell, no
/// move into the first `i` cells scores more, and every earlier open cell
/// scores strictly less.
pub proof fn lemma_best_choice_is_first_max(s: Seq<Player>, i: int)
    requires
        s.len() == 9,
        0 <= i <= 9,
    ensures
        match best_choice_upto(s, i) {
            None => true,
            Some(pr) => {
                &&& pr.1 == minimax_spec(play_at(s, pr.0))
                &&& forall|k: int|
                    0 <= k < i && s[k] is Empty ==> minimax_spec(play_at(s, k)) <= pr.1
                &&& forall|k: int|
                    0 <= k < pr.0 && s[k] is Empty ==> minimax_spec(play_at(s, k)) < pr.1
            },
        },
    decreases i,
{
    if i > 0 {
        lemma_best_choice_is_first_max(s, i - 1);
        lemma_best_choice(s, i - 1);
    }
}

impl Grid {
    /// The engine's move: the empty cell whose continuation scores greatest
    /// under `minimax`, the earliest such cell on ties; nothing on a full
    /// board. Returns the (column, row) pair of the chosen cell.
    pub fn best_play(&self) -> (r: Option<(usize, usize)>)
        requires
            self.wf(),
        ensures
            match best_choice_upto(self@, 9) {
                None => r is None,
                Some(pr) => r == Some(((pr.0 % 3) as usize, (pr.0 / 3) as usize)),
            },
            r is None <==> filled_count(self@) == 9,
            match r {
                Some(c) => c.0 < 3 && c.1 < 3 && self@[3 * (c.1 as int) + (c.0 as int)] is Empty,
                None => true,
            },
    {
        let ghost s = self@;
        proof {
            lemma_filled_bounds(s, 9);
            lemma_filled_full(s, 9);
            lemma_best_choice(s, 9);
        }
        let mut best_play: Option<i32> = None;
        let mut best_x: usize = 0;
        let mut best_y: usize = 0;
        let mut y: usize = 0;
        while y < 3
            invariant
                y <= 3,
                self.wf(),
                s == self@,
                match best_play {
                    None => best_choice_upto(s, 3 * y as int) is None,
                    Some(v) => {
                        &&& best_x < 3
                        &&& best_y < 3
                        &&& best_choice_upto(s, 3 * y as int) == Some(
                            (3 * best_y as int + best_x as int, v as int),
                        )
                    },
                },
            decreases 3 - y,
        {
            let mut x: usize = 0;
            while x < 3
                invariant
                    x <= 3,
                    y < 3,
                    self.wf(),
                    s == self@,
                    match best_play {
                        None => best_choice_upto(s, 3 * y as int + x as int) is None,
                        Some(v) => {
                            &&& best_x < 3
                            &&& best_y < 3
                            &&& best_choice_upto(s, 3 * y as int + x as int) == Some(
                                (3 * best_y as int + best_x as int, v as int),
                            )
                        },
                    },
                decreases 3 - x,
            {
                let ghost idx = 3 * (y as int) + (x as int);
                proof {
                    lemma_flatten_index(self.matrix, x as int, y as int);
                }
                let mut g = self.clone();
                match g.set(x, y) {
                    Ok(_) => {
                        let score = minimax(g);
                        let replace = match best_play {
                            Some(best_score) => best_score < score,
                            None => true,
                        };
                        if replace {
                            best_play = Some(score);
                            best_x = x;
                            best_y = y;
                        }
                    },
                    Err(_) => (),
                }
                x += 1;
            }
            y += 1;
        }
        let res = match best_play {
            Some(_) => Some((best_x, best_y)),
            None => None,
        };
        proof {
            if best_play is Some {
                let pr = best_choice_upto(s, 9).unwrap();
                assert(pr.0 == 3 * best_y as int + best_x as int);
                assert(pr.0 % 3 == best_x as int && pr.0 / 3 == best_y as int) by (nonlinear_arith)
                    requires
                        pr.0 == 3 * best_y as int + best_x as int,
                        best_x < 3,
                        best_y < 3,
                ;
            }
        }
        res
    }
}

} // verus!
