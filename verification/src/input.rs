//! Parsing of a player's two-character move, such as `1a` or `b3`: one
//! digit names the column, one letter names the row, in either order.

use vstd::prelude::*;

verus! {

/// Whether the character is an ASCII digit, the only shape the column token
/// may take.
pub open spec fn is_digit(c: char) -> bool {
    48 <= c as u32 <= 57
}

/// The zero-based column a digit names: only `1`, `2` and `3` are on the
/// board.
pub open spec fn col_of(c: char) -> Option<int> {
    if c == '1' {
        Some(0)
    } else if c == '2' {
        Some(1)
    } else if c == '3' {
        Some(2)
    } else {
        None
    }
}

/// The zero-based row a letter names: only `a`, `b` and `c` are on the
/// board.
pub open spec fn row_of(c: char) -> Option<int> {
    if c == 'a' {
        Some(0)
    } else if c == 'b' {
        Some(1)
    } else if c == 'c' {
        Some(2)
    } else {
        None
    }
}

/// The move a trimmed input names: exactly two characters, one a digit for
/// the column and one a row letter, in either order. A digit out of range, a
/// letter off the board, two digits or two letters name no move.
pub open spec fn parse_spec(s: Seq<char>) -> Option<(int, int)> {
    if s.len() != 2 {
        None
    } else if is_digit(s[0]) {
        match col_of(s[0]) {
            None => None,
            Some(x) => if is_digit(s[1]) {
                None
            } else {
                match row_of(s[1]) {
                    None => None,
                    Some(y) => Some((x, y)),
                }
            },
        }
    } else {
        match row_of(s[0]) {
            None => None,
            Some(y) => if is_digit(s[1]) {
                match col_of(s[1]) {
                    None => None,
                    Some(x) => Some((x, y)),
                }
            } else {
                None
            },
        }
    }
}

/// Reads a move from the characters of a trimmed input line: the (column,
/// row) pair it names, or nothing when it names none.
pub fn parse_move(chars: &Vec<char>) -> (r: Option<(usize, usize)>)
    ensures
        match (r, parse_spec(chars@)) {
            (None, None) => true,
            (Some(rc), Some(sc)) => rc.0 == sc.0 && rc.1 == sc.1 && rc.0 < 3 && rc.1 < 3,
            _ => false,
        },
{
    if chars.len() != 2 {
        return None;
    }
    let c0 = chars[0];
    let c1 = chars[1];
    let d0 = c0 as u32 >= 48 && c0 as u32 <= 57;
    let d1 = c1 as u32 >= 48 && c1 as u32 <= 57;
    if d0 {
        let x = match c0 {
            '1' => 0usize,
            '2' => 1usize,
            '3' => 2usize,
            _ => {
                return None;
            },
        };
        if d1 {
            return None;
        }
        let y = match c1 {
            'a' => 0usize,
            'b' => 1usize,
            'c' => 2usize,
            _ => {
                return None;
            },
        };
        Some((x, y))
    } else {
        let y = match c0 {
            'a' => 0usize,
            'b' => 1usize,
            'c' => 2usize,
            _ => {
                return None;
            },
        };
        if !d1 {
            return None;
        }
        let x = match c1 {
            '1' => 0usize,
            '2' => 1usize,
            '3' => 2usize,
            _ => {
                return None;
            },
        };
        Some((x, y))
    }
}

} // verus!
