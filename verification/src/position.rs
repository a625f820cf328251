//! The coordinate type: a zero-indexed (row, column) pair, ordered by row and
//! then by column.

use crate::lines::{
    breaks_before, char_is_line_ending, content_end, ends_line, is_line_ending,
    lemma_breaks_monotone, lemma_content_reaches, lemma_line_start_after_break,
    lemma_line_start_bounds, line_count, line_start,
};
use std::cmp::Ordering;
use vstd::prelude::*;
use vstd::std_specs::cmp::{PartialOrdSpec, PartialOrdSpecImpl};
use vstd::std_specs::convert::FromSpecImpl;

verus! {

/// A single point in a text buffer. Both fields are zero indexed; `col` is a
/// visual column, not a character or byte offset.
#[derive(Debug, Clone, Copy, PartialEq, Eq, Structural, Ord)]
pub struct Position {
    pub row: usize,
    pub col: usize,
}

impl Position {
    /// Whether `self` comes strictly before `other`: on an earlier row, or on
    /// the same row at a smaller column.
    pub open spec fn precedes(self, other: Position) -> bool {
        self.row < other.row || (self.row == other.row && self.col < other.col)
    }

    /// The position at the given row and column.
    pub fn new(row: usize, col: usize) -> (pos: Position)
        ensures
            pos.row == row,
            pos.col == col,
    {
        Position { row, col }
    }

    /// Whether this is the origin: row 0, column 0.
    pub fn is_zero(self) -> (zero: bool)
        ensures
            zero <==> (self.row == 0 && self.col == 0),
    {
        self.row == 0 && self.col == 0
    }

    /// The column reached after the first `upto` characters of `s`, counted
    /// from column `self.col`: one column for each character since the last
    /// line break, or since the start where there was no break yet.
    pub open spec fn col_after(self, s: Seq<char>, upto: int) -> int {
        if breaks_before(s, upto) == 0 {
            self.col + upto
        } else {
            upto - line_start(s, breaks_before(s, upto))
        }
    }

    /// The position reached from `self` by going over `text` character by
    /// character: every line break (`\n`, a `\r` that no `\n` follows, or
    /// `\r\n` as one) starts a new row at column 0, and every other character
    /// is one more column. Columns count characters here, not display widths.
    pub fn traverse(self, text: &str) -> (end: Position)
        requires
            text@.len() <= usize::MAX,
            self.row + line_count(text@) - 1 <= usize::MAX,
            self.col + content_end(text@, 0) <= usize::MAX,
        ensures
            end.row == self.row + line_count(text@) - 1,
            end.col == self.col_after(text@, text@.len() as int),
    {
        let ghost s = text@;
        let mut row = self.row;
        let mut col = self.col;
        // A `\r` has been read and it is not yet known whether a `\n` follows.
        let mut after_cr = false;
        for ch in chars: text.chars()
            invariant
                s == text@,
                chars.seq() == s,
                s.len() <= usize::MAX,
                self.row + line_count(s) - 1 <= usize::MAX,
                self.col + content_end(s, 0) <= usize::MAX,
                after_cr ==> chars.index() >= 1 && s[chars.index() - 1] == '\r',
                !after_cr && chars.index() >= 1 ==> s[chars.index() - 1] != '\r',
                ({
                    let done = if after_cr {
                        chars.index() - 1
                    } else {
                        chars.index()
                    };
                    &&& row == self.row + breaks_before(s, done)
                    &&& col == self.col_after(s, done)
                    &&& breaks_before(s, done) == 0 ==> forall|k: int|
                        0 <= k < done ==> !is_line_ending(#[trigger] s[k])
                }),
        {
            let ghost at = chars.index();
            proof {
                lemma_breaks_monotone(s, at + 1, s.len() as int);
                lemma_line_start_bounds(s, breaks_before(s, at));
                lemma_line_start_bounds(s, breaks_before(s, at - 1));
            }
            if after_cr && ch != '\n' {
                proof {
                    assert(ends_line(s, at - 1));
                    lemma_line_start_after_break(s, at);
                }
                row += 1;
                col = 0;
            }
            if !char_is_line_ending(ch) {
                proof {
                    assert(!ends_line(s, at));
                    if breaks_before(s, at) == 0 {
                        lemma_content_reaches(s, at + 1);
                    }
                }
                col += 1;
                after_cr = false;
            } else if ch == '\r' {
                after_cr = true;
            } else {
                proof {
                    assert(ends_line(s, at));
                    lemma_line_start_after_break(s, at + 1);
                }
                row += 1;
                col = 0;
                after_cr = false;
            }
        }
        if after_cr {
            proof {
                assert(ends_line(s, s.len() - 1));
                lemma_line_start_after_break(s, s.len() as int);
            }
            row += 1;
            col = 0;
        }
        Position { row, col }
    }
}

impl Default for Position {
    /// The origin.
    fn default() -> (pos: Position)
        ensures
            pos.row == 0,
            pos.col == 0,
    {
        Position { row: 0, col: 0 }
    }
}

impl From<(usize, usize)> for Position {
    fn from(tuple: (usize, usize)) -> (pos: Position) {
        Position { row: tuple.0, col: tuple.1 }
    }
}

impl FromSpecImpl<(usize, usize)> for Position {
    open spec fn obeys_from_spec() -> bool {
        true
    }

    open spec fn from_spec(tuple: (usize, usize)) -> Position {
        Position { row: tuple.0, col: tuple.1 }
    }
}

impl PartialOrd for Position {
    fn partial_cmp(&self, other: &Position) -> (order: Option<Ordering>) {
        if self.row < other.row {
            Some(Ordering::Less)
        } else if self.row > other.row {
            Some(Ordering::Greater)
        } else if self.col < other.col {
            Some(Ordering::Less)
        } else if self.col > other.col {
            Some(Ordering::Greater)
        } else {
            Some(Ordering::Equal)
        }
    }
}

impl PartialOrdSpecImpl for Position {
    open spec fn obeys_partial_cmp_spec() -> bool {
        true
    }

    open spec fn partial_cmp_spec(&self, other: &Position) -> Option<Ordering> {
        if self.precedes(*other) {
            Some(Ordering::Less)
        } else if other.precedes(*self) {
            Some(Ordering::Greater)
        } else {
            Some(Ordering::Equal)
        }
    }
}

/// `<` on positions is `precedes`: the comparison that `partial_cmp` makes
/// puts `a` before `b` exactly when `a.precedes(b)`, and finds them equal
/// exactly when they are the same position.
pub proof fn lemma_order_is_precedes(a: Position, b: Position)
    ensures
        PartialOrdSpec::partial_cmp_spec(&a, &b) == Some(Ordering::Less) <==> a.precedes(b),
        PartialOrdSpec::partial_cmp_spec(&a, &b) == Some(Ordering::Greater) <==> b.precedes(a),
        PartialOrdSpec::partial_cmp_spec(&a, &b) == Some(Ordering::Equal) <==> a == b,
{
}

/// Within one row, positions are ordered by their columns.
pub proof fn lemma_order_within_row(row: usize, a: usize, b: usize)
    ensures
        (Position { row, col: a }).precedes(Position { row, col: b }) <==> a < b,
{
}

/// Every position of a row comes before every position of the next row.
pub proof fn lemma_order_across_rows(row: usize, next: usize, a: usize, b: usize)
    requires
        next == row + 1,
    ensures
        (Position { row, col: a }).precedes(Position { row: next, col: b }),
{
}

/// `precedes` is a strict total order: no position precedes itself, the
/// relation is transitive, and of two different positions one precedes the
/// other.
pub proof fn lemma_order_is_total(a: Position, b: Position, c: Position)
    ensures
        !a.precedes(a),
        a.precedes(b) && b.precedes(c) ==> a.precedes(c),
        a.precedes(b) || b.precedes(a) || a == b,
        !(a.precedes(b) && b.precedes(a)),
{
}

} // verus!
