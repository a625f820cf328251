//! The line structure of a text: which characters end a line, how many lines
//! a text has, on which line an index falls and where each line starts.
//!
//! A line break is `\n`, a `\r` that no `\n` follows, or the pair `\r\n`
//! taken as one unit. A break belongs to the line that it ends, so a text
//! that ends in a break has one last, empty line.

use vstd::prelude::*;

verus! {

/// The characters that take part in a line break.
pub open spec fn is_line_ending(c: char) -> bool {
    c == '\n' || c == '\r'
}

/// Whether a line break is complete at index `i`, so that `i + 1` starts a
/// new line. A `\r` directly before a `\n` does not complete a break: the
/// `\n` behind it does.
pub open spec fn ends_line(s: Seq<char>, i: int) -> bool {
    &&& 0 <= i < s.len()
    &&& (s[i] == '\n' || (s[i] == '\r' && !(i + 1 < s.len() && s[i + 1] == '\n')))
}

/// The number of line breaks that are complete before index `pos`.
pub open spec fn breaks_before(s: Seq<char>, pos: int) -> nat
    decreases pos,
{
    if pos <= 0 {
        0
    } else {
        breaks_before(s, pos - 1) + if ends_line(s, pos - 1) {
            1nat
        } else {
            0nat
        }
    }
}

/// The number of lines of a text: one more than its line breaks.
pub open spec fn line_count(s: Seq<char>) -> nat {
    breaks_before(s, s.len() as int) + 1
}

/// The line on which index `pos` falls.
pub open spec fn line_of(s: Seq<char>, pos: int) -> nat {
    breaks_before(s, pos)
}

/// The first index at or after `from` that holds a line-ending character, or
/// the length of the text where there is none.
pub open spec fn content_end(s: Seq<char>, from: int) -> int
    decreases s.len() - from,
{
    if from >= s.len() {
        s.len() as int
    } else if from >= 0 && is_line_ending(s[from]) {
        from
    } else {
        content_end(s, from + 1)
    }
}

/// The index just behind the first line break at or after `from`, or the
/// length of the text where no break follows.
pub open spec fn next_line_start(s: Seq<char>, from: int) -> int {
    let e = content_end(s, from);
    if e >= s.len() {
        s.len() as int
    } else if s[e] == '\r' && e + 1 < s.len() && s[e + 1] == '\n' {
        e + 2
    } else {
        e + 1
    }
}

/// The index at which line `row` starts. For a row past the last line this
/// is the length of the text.
pub open spec fn line_start(s: Seq<char>, row: nat) -> int
    decreases row,
{
    if row == 0 {
        0
    } else {
        next_line_start(s, line_start(s, (row - 1) as nat))
    }
}

/// Whether `ch` is a line-ending character.
pub fn char_is_line_ending(ch: char) -> (ending: bool)
    ensures
        ending == is_line_ending(ch),
{
    ch == '\n' || ch == '\r'
}

/// The number of breaks before an index does not decrease with the index.
pub proof fn lemma_breaks_monotone(s: Seq<char>, a: int, b: int)
    requires
        a <= b,
    ensures
        breaks_before(s, a) <= breaks_before(s, b),
    decreases b - a,
{
    if a < b {
        lemma_breaks_monotone(s, a, b - 1);
    }
}

/// Where no break is complete between two indices, both have the same
/// number of breaks before them.
pub proof fn lemma_no_breaks_between(s: Seq<char>, a: int, b: int)
    requires
        0 <= a <= b,
        forall|k: int| a <= k < b ==> !ends_line(s, k),
    ensures
        breaks_before(s, b) == breaks_before(s, a),
    decreases b - a,
{
    if a < b {
        lemma_no_breaks_between(s, a, b - 1);
    }
}

/// Between `from` and `content_end(s, from)` no character ends a line, and
/// the character at `content_end(s, from)`, if there is one, does.
pub proof fn lemma_content_end(s: Seq<char>, from: int)
    requires
        0 <= from <= s.len(),
    ensures
        from <= content_end(s, from) <= s.len(),
        forall|k: int| from <= k < content_end(s, from) ==> !is_line_ending(#[trigger] s[k]),
        content_end(s, from) < s.len() ==> is_line_ending(s[content_end(s, from)]),
    decreases s.len() - from,
{
    if from < s.len() && !is_line_ending(s[from]) {
        lemma_content_end(s, from + 1);
    }
}

/// The next line start lies behind `from`, at most at the end of the text,
/// and exactly one break is complete in between unless the text ends first.
pub proof fn lemma_next_line_start(s: Seq<char>, from: int)
    requires
        0 <= from <= s.len(),
    ensures
        from <= content_end(s, from) <= next_line_start(s, from) <= s.len(),
        from < s.len() ==> from < next_line_start(s, from),
        content_end(s, from) < s.len() ==> {
            &&& ends_line(s, next_line_start(s, from) - 1)
            &&& breaks_before(s, next_line_start(s, from)) == breaks_before(s, from) + 1
        },
        content_end(s, from) == s.len() ==> {
            &&& next_line_start(s, from) == s.len()
            &&& breaks_before(s, s.len() as int) == breaks_before(s, from)
        },
{
    let e = content_end(s, from);
    let n = next_line_start(s, from);
    lemma_content_end(s, from);
    if e < s.len() {
        assert forall|k: int| from <= k < n - 1 implies !ends_line(s, k) by {
            if k < e {
                assert(!is_line_ending(s[k]));
            }
        }
        lemma_no_breaks_between(s, from, n - 1);
    } else {
        assert forall|k: int| from <= k < s.len() implies !ends_line(s, k) by {
            assert(!is_line_ending(s[k]));
        }
        lemma_no_breaks_between(s, from, s.len() as int);
    }
}

/// Line starts lie within the text and do not decrease with the row.
pub proof fn lemma_line_start_bounds(s: Seq<char>, row: nat)
    ensures
        0 <= line_start(s, row) <= s.len(),
        line_start(s, row) <= line_start(s, row + 1),
    decreases row,
{
    if row > 0 {
        lemma_line_start_bounds(s, (row - 1) as nat);
        lemma_next_line_start(s, line_start(s, (row - 1) as nat));
    }
    lemma_next_line_start(s, line_start(s, row));
}

/// Line `row` of a text starts right behind its `row`-th break; a row that
/// the text does not have starts at the end of the text.
pub proof fn lemma_line_start_breaks(s: Seq<char>, row: nat)
    ensures
        row < line_count(s) ==> breaks_before(s, line_start(s, row)) == row,
        0 < row < line_count(s) ==> ends_line(s, line_start(s, row) - 1),
        row >= line_count(s) ==> line_start(s, row) == s.len(),
    decreases row,
{
    if row > 0 {
        let prev = line_start(s, (row - 1) as nat);
        let next = next_line_start(s, prev);
        assert(line_start(s, row) == next);
        lemma_line_start_breaks(s, (row - 1) as nat);
        lemma_line_start_bounds(s, (row - 1) as nat);
        lemma_next_line_start(s, prev);
        lemma_breaks_monotone(s, next, s.len() as int);
    }
}

/// The line of an index holds that index: it starts at or before it, and the
/// next line starts behind it unless the index is the end of the text.
pub proof fn lemma_line_of_bounds(s: Seq<char>, pos: int)
    requires
        0 <= pos <= s.len(),
    ensures
        line_of(s, pos) < line_count(s),
        line_start(s, line_of(s, pos)) <= pos <= line_start(s, line_of(s, pos) + 1),
        pos < s.len() ==> pos < line_start(s, line_of(s, pos) + 1),
{
    let row = line_of(s, pos);
    let start = line_start(s, row);
    let next = line_start(s, row + 1);
    lemma_breaks_monotone(s, pos, s.len() as int);
    lemma_line_start_breaks(s, row);
    lemma_line_start_breaks(s, row + 1);
    lemma_line_start_bounds(s, row);
    if start > pos {
        lemma_breaks_monotone(s, pos, start - 1);
    }
    if next <= pos && pos < s.len() {
        lemma_breaks_monotone(s, next, pos);
    }
}

/// An index between the start of a line and the start of the next lies on
/// that line.
pub proof fn lemma_line_of_within(s: Seq<char>, row: nat, pos: int)
    requires
        row < line_count(s),
        line_start(s, row) <= pos < line_start(s, row + 1),
    ensures
        line_of(s, pos) == row,
{
    let start = line_start(s, row);
    let next = line_start(s, row + 1);
    assert(next == next_line_start(s, start));
    lemma_line_start_bounds(s, row);
    lemma_line_start_breaks(s, row);
    lemma_next_line_start(s, start);
    lemma_breaks_monotone(s, start, pos);
    if content_end(s, start) < s.len() {
        lemma_breaks_monotone(s, pos, next - 1);
    } else {
        lemma_breaks_monotone(s, pos, s.len() as int);
    }
}

/// The line of an index right behind a break starts at that index.
pub proof fn lemma_line_start_after_break(s: Seq<char>, pos: int)
    requires
        ends_line(s, pos - 1),
    ensures
        line_start(s, line_of(s, pos)) == pos,
{
    let row = line_of(s, pos);
    lemma_line_of_bounds(s, pos);
    lemma_line_start_breaks(s, row);
    if line_start(s, row) < pos {
        lemma_breaks_monotone(s, line_start(s, row), pos - 1);
    }
}

/// Where no character before an index ends a line, the content of the first
/// line reaches that index at least.
pub proof fn lemma_content_reaches(s: Seq<char>, upto: int)
    requires
        0 <= upto <= s.len(),
        forall|k: int| 0 <= k < upto ==> !is_line_ending(#[trigger] s[k]),
    ensures
        upto <= content_end(s, 0),
{
    lemma_content_end(s, 0);
}

} // verus!
