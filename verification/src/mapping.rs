//! The two mappings between a character index and a (row, column)
//! coordinate, and the rounding of an index down to a grapheme boundary.
//!
//! A line is split into grapheme clusters once, terminator included. An
//! index is a grapheme boundary where it is the start of its line plus the
//! character counts of some leading clusters of that line; the column of an
//! index is the sum of the widths of the clusters that end at or before it.

use crate::graphemes::{
    cluster_lens, cluster_width, cluster_widths, grapheme_clusters, measure,
};
use crate::lines::{
    content_end, lemma_breaks_monotone, lemma_line_of_bounds, lemma_line_of_within,
    lemma_line_start_bounds, lemma_line_start_breaks, lemma_next_line_start, line_count, line_of,
    line_start,
};
use crate::position::Position;
use crate::rope::{line_end_char_index, line_span, rope_chars};
use crate::spans::{
    fit, lemma_fit, lemma_fit_is, lemma_prefix_sum_monotone, lemma_prefix_sum_take,
    lemma_span_self, nats, prefix_sum, span, span_within,
};
use ropey::RopeSlice;
use vstd::prelude::*;

verus! {

/// The grapheme clusters of line `row`, its line break included.
pub open spec fn line_clusters(t: Seq<char>, row: nat) -> Seq<Seq<char>> {
    grapheme_clusters(t.subrange(line_start(t, row), line_start(t, row + 1)))
}

/// The nearest grapheme boundary at or before `pos` on the line of `pos`.
pub open spec fn boundary_prev(t: Seq<char>, pos: int) -> int {
    let row = line_of(t, pos);
    let lens = cluster_lens(line_clusters(t, row));
    line_start(t, row) + span(lens, lens, pos - line_start(t, row))
}

/// Whether `pos` is a grapheme boundary: the start of a cluster of its line,
/// or the end of the last one.
pub open spec fn is_grapheme_boundary(t: Seq<char>, pos: int) -> bool {
    boundary_prev(t, pos) == pos
}

/// The visual column of `pos`: the widths of the clusters of its line that
/// end at or before `pos`, added up.
pub open spec fn column_of(t: Seq<char>, pos: int) -> nat {
    let row = line_of(t, pos);
    let clusters = line_clusters(t, row);
    span(cluster_lens(clusters), cluster_widths(clusters), pos - line_start(t, row))
}

/// Where the stretch of line `row` ends in which an index is looked for: at
/// the first line-ending character for a block cursor, which must stay on
/// the content of the line, and at the start of the next line otherwise.
pub open spec fn line_limit(t: Seq<char>, row: nat, is_1_width: bool) -> int {
    if is_1_width {
        content_end(t, line_start(t, row))
    } else {
        line_start(t, row + 1)
    }
}

/// The index that a coordinate stands for: the start of line `row` plus the
/// characters of the leading clusters whose widths add up to `col` at most.
pub open spec fn index_of(t: Seq<char>, row: nat, col: nat, is_1_width: bool) -> int {
    let start = line_start(t, row);
    let clusters = grapheme_clusters(t.subrange(start, line_limit(t, row, is_1_width)));
    start + span(cluster_widths(clusters), cluster_lens(clusters), col as int)
}

/// The line of `pos`, where that line starts, and the character counts and
/// widths of its clusters.
fn measure_line_of(text: RopeSlice, pos: usize) -> (found: (usize, usize, Vec<usize>, Vec<usize>))
    requires
        pos <= rope_chars(text).len(),
    ensures
        found.0 == line_of(rope_chars(text), pos as int),
        found.1 == line_start(rope_chars(text), found.0 as nat),
        found.1 <= pos,
        nats(found.2@) == cluster_lens(line_clusters(rope_chars(text), found.0 as nat)),
        nats(found.3@) == cluster_widths(line_clusters(rope_chars(text), found.0 as nat)),
        found.2.len() == found.3.len(),
{
    let ghost t = rope_chars(text);
    proof {
        lemma_line_of_bounds(t, pos as int);
    }
    let row = text.char_to_line(pos);
    let (start, next) = line_span(text, row);
    let (lens, widths) = measure(text, start, next);
    proof {
        assert(nats(lens@).len() == lens.len());
        assert(nats(widths@).len() == widths.len());
    }
    (row, start, lens, widths)
}

/// Rounds a character index down to the nearest grapheme boundary: an index
/// inside a cluster, such as one between a base character and its combining
/// mark or between `\r` and `\n`, becomes the index at which that cluster
/// starts, and a boundary is returned as it is.
pub fn ensure_grapheme_boundary_prev(text: RopeSlice, pos: usize) -> (boundary: usize)
    requires
        pos <= rope_chars(text).len(),
    ensures
        boundary == boundary_prev(rope_chars(text), pos as int),
        line_start(rope_chars(text), line_of(rope_chars(text), pos as int)) <= boundary <= pos,
        is_grapheme_boundary(rope_chars(text), boundary as int),
{
    let (_, start, lens, _) = measure_line_of(text, pos);
    proof {
        lemma_span_self(nats(lens@), pos - start);
        lemma_boundary_prev_idempotent(rope_chars(text), pos as int);
    }
    let offset = span_within(&lens, &lens, pos - start);
    start + offset.unwrap()
}

/// Converts a character index to (row, column) coordinates, or returns
/// `None` where the index is greater than the length of the text or the
/// column does not fit in `usize`.
pub fn try_coords_at_pos(text: RopeSlice, pos: usize) -> (coords: Option<Position>)
    ensures
        coords is Some <==> (pos <= rope_chars(text).len() && column_of(
            rope_chars(text),
            pos as int,
        ) <= usize::MAX),
        coords matches Some(c) ==> {
            &&& c.row == line_of(rope_chars(text), pos as int)
            &&& c.col == column_of(rope_chars(text), pos as int)
        },
{
    if pos > text.len_chars() {
        return None;
    }
    let (row, start, lens, widths) = measure_line_of(text, pos);
    match span_within(&lens, &widths, pos - start) {
        Some(col) => Some(Position::new(row, col)),
        None => None,
    }
}

/// Converts a character index to (row, column) coordinates. The row is the
/// line of the index; the column is the visual width of the grapheme
/// clusters between the start of that line and the index, where an index
/// inside a cluster counts as the start of that cluster.
pub fn coords_at_pos(text: RopeSlice, pos: usize) -> (coords: Position)
    requires
        pos <= rope_chars(text).len(),
        column_of(rope_chars(text), pos as int) <= usize::MAX,
    ensures
        coords.row == line_of(rope_chars(text), pos as int),
        coords.col == column_of(rope_chars(text), pos as int),
{
    try_coords_at_pos(text, pos).unwrap()
}

/// Converts (row, column) coordinates to a character index: the start of the
/// row plus the characters of the clusters that the column covers in full.
/// A column inside a wide cluster gives the index before that cluster, and a
/// column past the end of the line gives the end of the line.
///
/// `is_1_width` says whether the position is that of a block cursor. With
/// `false` the line is taken with its line break, which makes this the
/// inverse of `coords_at_pos`; with `true` it is taken without, so that a
/// block cursor never leaves the content of the line.
pub fn pos_at_coords(text: RopeSlice, coords: Position, is_1_width: bool) -> (pos: usize)
    requires
        coords.row <= line_count(rope_chars(text)),
        is_1_width ==> coords.row < line_count(rope_chars(text)),
    ensures
        pos == index_of(rope_chars(text), coords.row as nat, coords.col as nat, is_1_width),
        line_start(rope_chars(text), coords.row as nat) <= pos <= line_limit(
            rope_chars(text),
            coords.row as nat,
            is_1_width,
        ),
        pos <= rope_chars(text).len(),
        !is_1_width && coords.row < line_count(rope_chars(text)) ==> is_grapheme_boundary(
            rope_chars(text),
            pos as int,
        ),
{
    let ghost t = rope_chars(text);
    let row = coords.row;
    let lines = text.len_lines();
    let line_start = text.line_to_char(row);
    let line_end = if is_1_width {
        line_end_char_index(text, row)
    } else if row < lines {
        text.line_to_char(row + 1)
    } else {
        text.line_to_char(lines)
    };
    proof {
        lemma_line_start_bounds(t, row as nat);
        lemma_line_start_bounds(t, row as nat + 1);
        lemma_line_start_breaks(t, row as nat);
        lemma_line_start_breaks(t, row as nat + 1);
        lemma_line_start_breaks(t, lines as nat);
        assert(line_end == line_limit(t, row as nat, is_1_width));
    }
    let (lens, widths) = measure(text, line_start, line_end);
    let ghost reach = fit(nats(widths@), coords.col as int);
    proof {
        assert(nats(lens@).len() == lens.len());
        assert(nats(widths@).len() == widths.len());
        lemma_fit(nats(widths@), coords.col as int);
        lemma_prefix_sum_monotone(nats(lens@), reach, lens.len() as int);
    }
    let offset = span_within(&widths, &lens, coords.col).unwrap();
    proof {
        if !is_1_width && row < lines {
            lemma_whole_clusters_are_boundaries(t, row as nat, reach);
        }
    }
    line_start + offset
}

/// Rounding an index down to a grapheme boundary gives a boundary on the
/// same line, at or before the index.
pub proof fn lemma_boundary_prev_idempotent(t: Seq<char>, pos: int)
    requires
        0 <= pos <= t.len(),
    ensures
        line_start(t, line_of(t, pos)) <= boundary_prev(t, pos) <= pos,
        line_of(t, boundary_prev(t, pos)) == line_of(t, pos),
        is_grapheme_boundary(t, boundary_prev(t, pos)),
{
    let row = line_of(t, pos);
    let start = line_start(t, row);
    let lens = cluster_lens(line_clusters(t, row));
    let rounded = boundary_prev(t, pos);
    lemma_line_of_bounds(t, pos);
    lemma_line_start_breaks(t, row);
    lemma_span_self(lens, pos - start);
    lemma_breaks_monotone(t, start, rounded);
    lemma_breaks_monotone(t, rounded, pos);
}

/// The end of any number of leading clusters of a line, as long as it lies
/// within the line, is a grapheme boundary.
pub proof fn lemma_whole_clusters_are_boundaries(t: Seq<char>, row: nat, k: int)
    requires
        row < line_count(t),
        0 <= k <= line_clusters(t, row).len(),
        prefix_sum(cluster_lens(line_clusters(t, row)), line_clusters(t, row).len() as int)
            == line_start(t, row + 1) - line_start(t, row),
    ensures
        is_grapheme_boundary(
            t,
            line_start(t, row) + prefix_sum(cluster_lens(line_clusters(t, row)), k),
        ),
{
    let start = line_start(t, row);
    let next = line_start(t, row + 1);
    let lens = cluster_lens(line_clusters(t, row));
    let pos = start + prefix_sum(lens, k);
    lemma_line_start_bounds(t, row);
    lemma_line_start_breaks(t, row);
    lemma_next_line_start(t, start);
    lemma_prefix_sum_monotone(lens, k, lens.len() as int);
    if pos < next {
        lemma_line_of_within(t, row, pos);
        lemma_span_self(lens, pos - start);
        lemma_fit(lens, pos - start);
        if fit(lens, pos - start) < k {
            assert(prefix_sum(lens, k) > pos - start);
        } else {
            lemma_prefix_sum_monotone(lens, k, fit(lens, pos - start));
        }
    } else if content_end(t, start) < t.len() {
        assert(line_of(t, pos) == row + 1);
        lemma_line_start_bounds(t, row + 1);
        lemma_span_self(cluster_lens(line_clusters(t, row + 1)), 0);
    } else {
        assert(line_of(t, pos) == row);
        lemma_fit_is(lens, pos - start, lens.len() as int);
    }
}

/// The coordinates of an index are those of the grapheme boundary at or
/// before it: the characters inside a cluster, such as combining marks or
/// the `\n` of a `\r\n`, add no columns of their own.
pub proof fn lemma_coords_round_down(t: Seq<char>, pos: int)
    requires
        0 <= pos <= t.len(),
    ensures
        line_of(t, boundary_prev(t, pos)) == line_of(t, pos),
        column_of(t, boundary_prev(t, pos)) == column_of(t, pos),
{
    let row = line_of(t, pos);
    let start = line_start(t, row);
    let lens = cluster_lens(line_clusters(t, row));
    let reach = fit(lens, pos - start);
    let rounded = prefix_sum(lens, reach);
    lemma_boundary_prev_idempotent(t, pos);
    lemma_line_of_bounds(t, pos);
    lemma_fit(lens, pos - start);
    lemma_fit(lens, rounded as int);
    let again = fit(lens, rounded as int);
    if again < reach {
        assert(prefix_sum(lens, reach) > rounded);
    }
    if again > reach {
        lemma_prefix_sum_monotone(lens, reach, again);
        assert(prefix_sum(lens, again) > pos - start);
    }
}

/// The column of an index is the width of the text between the start of
/// its line and the grapheme boundary at or before it, split into clusters
/// on its own, wherever these clusters are the leading clusters of the line.
pub proof fn lemma_column_is_width_before(t: Seq<char>, pos: int)
    requires
        0 <= pos <= t.len(),
        ({
            let row = line_of(t, pos);
            let start = line_start(t, row);
            let reach = fit(cluster_lens(line_clusters(t, row)), pos - start);
            grapheme_clusters(t.subrange(start, boundary_prev(t, pos))) == line_clusters(
                t,
                row,
            ).take(reach)
        }),
    ensures
        ({
            let start = line_start(t, line_of(t, pos));
            let before = grapheme_clusters(t.subrange(start, boundary_prev(t, pos)));
            column_of(t, pos) == prefix_sum(cluster_widths(before), before.len() as int)
        }),
{
    let row = line_of(t, pos);
    let start = line_start(t, row);
    let clusters = line_clusters(t, row);
    let reach = fit(cluster_lens(clusters), pos - start);
    lemma_line_of_bounds(t, pos);
    lemma_fit(cluster_lens(clusters), pos - start);
    assert(cluster_widths(clusters.take(reach)) =~= cluster_widths(clusters).take(reach));
    lemma_prefix_sum_take(cluster_widths(clusters), reach, reach);
}

/// Going from a grapheme boundary to its coordinates and back, with
/// `is_1_width` false, gives the same index again.
pub proof fn lemma_round_trip(t: Seq<char>, pos: int)
    requires
        0 <= pos <= t.len(),
        is_grapheme_boundary(t, pos),
    ensures
        index_of(t, line_of(t, pos), column_of(t, pos), false) == pos,
{
    let row = line_of(t, pos);
    let start = line_start(t, row);
    let clusters = line_clusters(t, row);
    let lens = cluster_lens(clusters);
    let widths = cluster_widths(clusters);
    let reach = fit(lens, pos - start);
    lemma_line_of_bounds(t, pos);
    lemma_fit(lens, pos - start);
    if reach < widths.len() {
        assert(widths[reach] == cluster_width(clusters[reach]));
    }
    lemma_fit_is(widths, column_of(t, pos) as int, reach);
}

/// After `n` characters that are each a cluster of width 2, counted from
/// the start of the line, the column is `2 * n`.
pub proof fn lemma_column_after_wide_characters(t: Seq<char>, pos: int, n: int)
    requires
        0 <= pos <= t.len(),
        n == pos - line_start(t, line_of(t, pos)),
        n <= line_clusters(t, line_of(t, pos)).len(),
        forall|i: int|
            0 <= i < n ==> {
                let g = #[trigger] line_clusters(t, line_of(t, pos))[i];
                g.len() == 1 && cluster_width(g) == 2
            },
        n < line_clusters(t, line_of(t, pos)).len() ==> line_clusters(t, line_of(t, pos))[n].len()
            > 0,
    ensures
        column_of(t, pos) == 2 * n,
{
    let clusters = line_clusters(t, line_of(t, pos));
    let lens = cluster_lens(clusters);
    let widths = cluster_widths(clusters);
    lemma_line_of_bounds(t, pos);
    lemma_uniform_prefix(clusters, n);
    if n < clusters.len() {
        assert(lens[n] == clusters[n].len());
    }
    lemma_fit_is(lens, n, n);
}

proof fn lemma_uniform_prefix(clusters: Seq<Seq<char>>, n: int)
    requires
        0 <= n <= clusters.len(),
        forall|i: int|
            0 <= i < n ==> {
                let g = #[trigger] clusters[i];
                g.len() == 1 && cluster_width(g) == 2
            },
    ensures
        prefix_sum(cluster_lens(clusters), n) == n,
        prefix_sum(cluster_widths(clusters), n) == 2 * n,
    decreases n,
{
    if n > 0 {
        lemma_uniform_prefix(clusters, n - 1);
        let g = clusters[n - 1];
        assert(cluster_lens(clusters)[n - 1] == g.len());
        assert(cluster_widths(clusters)[n - 1] == cluster_width(g));
    }
}

} // verus!
