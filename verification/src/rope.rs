//! The text view: a `ropey::RopeSlice`, seen by the verifier as the sequence
//! of its characters.
//!
//! The library is built with ropey's `cr_lines` feature and without
//! `unicode_lines`, so ropey's line breaks are `\n`, `\r` and `\r\n`: the
//! ones that the line model of this crate describes.

use crate::lines::{
    content_end, lemma_content_end, lemma_line_start_bounds, lemma_line_start_breaks,
    lemma_next_line_start, line_count, line_of, line_start, next_line_start,
};
use ropey::RopeSlice;
use vstd::prelude::*;

verus! {

/// `ropey::RopeSlice`, an immutable view into part of a rope. Nothing of its
/// inside is known here.
#[verifier::external_type_specification]
#[verifier::external_body]
pub struct ExRopeSlice<'a>(RopeSlice<'a>);

/// The characters that a rope slice holds, in order.
pub uninterp spec fn rope_chars(text: RopeSlice) -> Seq<char>;

/// `RopeSlice::len_chars` returns the number of characters of the slice.
pub assume_specification<'a>[ RopeSlice::<'a>::len_chars ](text: &RopeSlice<'a>) -> (len: usize)
    ensures
        len == rope_chars(*text).len(),
;

/// `RopeSlice::len_lines` returns the number of lines of the slice: one more
/// than the number of its line breaks.
pub assume_specification<'a>[ RopeSlice::<'a>::len_lines ](text: &RopeSlice<'a>) -> (lines: usize)
    ensures
        lines == line_count(rope_chars(*text)),
;

/// `RopeSlice::char_to_line` returns the line of a character index, which is
/// the number of line breaks before that index. It panics on an index
/// greater than the length; the index may be the length itself.
pub assume_specification<'a>[ RopeSlice::<'a>::char_to_line ](
    text: &RopeSlice<'a>,
    char_idx: usize,
) -> (line: usize)
    requires
        char_idx <= rope_chars(*text).len(),
    ensures
        line == line_of(rope_chars(*text), char_idx as int),
;

/// `RopeSlice::line_to_char` returns the character index at which a line
/// starts. It panics on a line index greater than the number of lines; for
/// the number of lines itself it returns the length of the slice.
pub assume_specification<'a>[ RopeSlice::<'a>::line_to_char ](
    text: &RopeSlice<'a>,
    line_idx: usize,
) -> (start: usize)
    requires
        line_idx <= line_count(rope_chars(*text)),
    ensures
        start == line_start(rope_chars(*text), line_idx as nat),
;

/// `RopeSlice::char` returns the character at an index, and panics on an
/// index that is not less than the length.
pub assume_specification<'a>[ RopeSlice::<'a>::char ](text: &RopeSlice<'a>, char_idx: usize) -> (c:
    char)
    requires
        char_idx < rope_chars(*text).len(),
    ensures
        c == rope_chars(*text)[char_idx as int],
;

/// `RopeSlice::slice` with the range `start..end` returns the sub-slice of
/// the characters from `start` up to `end`. It panics where `start` is
/// greater than `end` or `end` is greater than the length.
#[verifier::external_body]
pub(crate) fn rope_slice<'a>(text: RopeSlice<'a>, start: usize, end: usize) -> (part: RopeSlice<'a>)
    requires
        start <= end <= rope_chars(text).len(),
    ensures
        rope_chars(part) == rope_chars(text).subrange(start as int, end as int),
{
    text.slice(start..end)
}

/// `String::from` on a rope slice returns its characters as one string.
#[verifier::external_body]
pub(crate) fn rope_to_string(text: RopeSlice) -> (s: String)
    ensures
        s@ == rope_chars(text),
{
    String::from(text)
}

/// Where line `line` starts and where the line after it starts, which for
/// the last line is the end of the text.
pub(crate) fn line_span(text: RopeSlice, line: usize) -> (span: (usize, usize))
    requires
        line < line_count(rope_chars(text)),
    ensures
        span.0 == line_start(rope_chars(text), line as nat),
        span.1 == line_start(rope_chars(text), line as nat + 1),
        span.0 <= span.1 <= rope_chars(text).len(),
{
    proof {
        lemma_line_start_bounds(rope_chars(text), line as nat);
        lemma_line_start_bounds(rope_chars(text), line as nat + 1);
        lemma_line_start_breaks(rope_chars(text), line as nat + 1);
    }
    let start = text.line_to_char(line);
    let next = if line < text.len_lines() - 1 {
        text.line_to_char(line + 1)
    } else {
        text.len_chars()
    };
    (start, next)
}

/// The index of the first line-ending character of line `line`, which is the
/// end of the text where the line has none: the index at which the content
/// of the line ends.
pub fn line_end_char_index(text: RopeSlice, line: usize) -> (end: usize)
    requires
        line < line_count(rope_chars(text)),
    ensures
        end == content_end(rope_chars(text), line_start(rope_chars(text), line as nat)),
        line_start(rope_chars(text), line as nat) <= end <= line_start(
            rope_chars(text),
            line as nat + 1,
        ),
{
    let ghost s = rope_chars(text);
    let (start, next) = line_span(text, line);
    proof {
        lemma_next_line_start(s, start as int);
        lemma_content_end(s, start as int);
        assert(next == next_line_start(s, start as int));
    }
    if next == start {
        return next;
    }
    let last = text.char(next - 1);
    if last == '\n' {
        if next - start >= 2 && text.char(next - 2) == '\r' {
            next - 2
        } else {
            next - 1
        }
    } else if last == '\r' {
        next - 1
    } else {
        next
    }
}

} // verus!
