//! Grapheme clusters and their display widths.
//!
//! Segmentation is done by the `unicode-segmentation` crate and widths come
//! from the `unicode-width` crate; neither result is modelled here beyond a
//! name. What this module adds is the width that the editor gives a cluster,
//! and the measuring of a stretch of text cluster by cluster.

use crate::rope::{rope_chars, rope_slice, rope_to_string};
use crate::spans::{nats, prefix_sum};
use ropey::RopeSlice;
use unicode_segmentation::UnicodeSegmentation;
use unicode_width::UnicodeWidthStr;
use vstd::prelude::*;

verus! {

/// The extended grapheme clusters into which `unicode-segmentation` splits a
/// string, in order.
pub uninterp spec fn grapheme_clusters(s: Seq<char>) -> Seq<Seq<char>>;

/// The display width in columns that `unicode-width` gives a string.
pub uninterp spec fn unicode_width(s: Seq<char>) -> nat;

/// The characters of each string of a sequence.
pub open spec fn texts(parts: Seq<&str>) -> Seq<Seq<char>> {
    parts.map_values(|part: &str| part@)
}

/// The number of characters of each cluster.
pub open spec fn cluster_lens(clusters: Seq<Seq<char>>) -> Seq<nat> {
    clusters.map_values(|g: Seq<char>| g.len())
}

/// The width of each cluster.
pub open spec fn cluster_widths(clusters: Seq<Seq<char>>) -> Seq<nat> {
    clusters.map_values(|g: Seq<char>| cluster_width(g))
}

/// The width in columns that a grapheme cluster takes up: 1 where it starts
/// with an ASCII character, otherwise its Unicode display width, and 1 where
/// that is 0, so that every cluster can hold a cursor.
pub open spec fn cluster_width(g: Seq<char>) -> nat {
    if g.len() > 0 && g[0] as u32 <= 127 {
        1
    } else if unicode_width(g) == 0 {
        1
    } else {
        unicode_width(g)
    }
}

/// Collects `UnicodeSegmentation::graphemes(s, true)`: the extended grapheme
/// clusters of `s` in order, each a sub-slice of `s` that starts where the one
/// before it ended, the first at the start of `s` and the last at its end.
#[verifier::external_body]
pub(crate) fn split_graphemes<'a>(s: &'a str) -> (clusters: Vec<&'a str>)
    ensures
        texts(clusters@) == grapheme_clusters(s@),
        texts(clusters@).flatten() == s@,
{
    UnicodeSegmentation::graphemes(s, true).collect()
}

/// `UnicodeWidthStr::width` returns the display width of a string in columns.
#[verifier::external_body]
pub(crate) fn str_width(s: &str) -> (width: usize)
    ensures
        width == unicode_width(s@),
{
    UnicodeWidthStr::width(s)
}

/// The width in columns of one grapheme cluster.
pub fn grapheme_width(g: &str) -> (width: usize)
    ensures
        width == cluster_width(g@),
        width >= 1,
{
    if !g.is_empty() && g.get_char(0) as u32 <= 127 {
        1
    } else {
        let width = str_width(g);
        if width == 0 {
            1
        } else {
            width
        }
    }
}

/// The character counts of the first `k` clusters add up to the length of
/// what these clusters hold.
pub proof fn lemma_lens_flatten(clusters: Seq<Seq<char>>, k: int)
    requires
        0 <= k <= clusters.len(),
    ensures
        prefix_sum(cluster_lens(clusters), k) == clusters.take(k).flatten().len(),
    decreases k,
{
    if k > 0 {
        lemma_lens_flatten(clusters, k - 1);
        assert(clusters.take(k) =~= clusters.take(k - 1).push(clusters[k - 1]));
        clusters.take(k - 1).lemma_flatten_push(clusters[k - 1]);
    } else {
        assert(clusters.take(0) =~= Seq::<Seq<char>>::empty());
    }
}

/// The grapheme clusters of the characters from `start` up to `end`,
/// measured: first the number of characters of each, then the width of each.
pub(crate) fn measure(text: RopeSlice, start: usize, end: usize) -> (measures: (
    Vec<usize>,
    Vec<usize>,
))
    requires
        start <= end <= rope_chars(text).len(),
    ensures
        nats(measures.0@) == cluster_lens(
            grapheme_clusters(rope_chars(text).subrange(start as int, end as int)),
        ),
        nats(measures.1@) == cluster_widths(
            grapheme_clusters(rope_chars(text).subrange(start as int, end as int)),
        ),
        prefix_sum(nats(measures.0@), measures.0.len() as int) == end - start,
{
    let part = rope_to_string(rope_slice(text, start, end));
    let clusters = split_graphemes(part.as_str());
    let ghost all = grapheme_clusters(rope_chars(text).subrange(start as int, end as int));
    let mut lens: Vec<usize> = Vec::new();
    let mut widths: Vec<usize> = Vec::new();
    let mut i: usize = 0;
    while i < clusters.len()
        invariant
            all == texts(clusters@),
            i <= clusters.len(),
            lens.len() == i,
            widths.len() == i,
            forall|j: int| 0 <= j < i ==> lens[j] == all[j].len(),
            forall|j: int| 0 <= j < i ==> widths[j] == cluster_width(all[j]),
        decreases clusters.len() - i,
    {
        let g = clusters[i];
        assert(g@ == all[i as int]);
        lens.push(g.unicode_len());
        widths.push(grapheme_width(g));
        i += 1;
    }
    proof {
        assert(nats(lens@) =~= cluster_lens(all));
        assert(nats(widths@) =~= cluster_widths(all));
        assert(all.take(all.len() as int) =~= all);
        lemma_lens_flatten(all, all.len() as int);
    }
    (lens, widths)
}

} // verus!
