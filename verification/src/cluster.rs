//! Predicates on single grapheme clusters, and concatenation of a cluster
//! sequence back into plain text.
//!
//! A cluster is modelled as the sequence of characters (Unicode scalar
//! values) that make it up; a line is a sequence of clusters.

use vstd::prelude::*;

verus! {

/// An ASCII decimal digit.
pub open spec fn is_ascii_digit_char(c: char) -> bool {
    48 <= c as u32 && c as u32 <= 57
}

/// ASCII whitespace: space, tab, newline, form feed, carriage return.
pub open spec fn is_ascii_whitespace_char(c: char) -> bool {
    c as u32 == 32 || c as u32 == 9 || c as u32 == 10 || c as u32 == 12 || c as u32 == 13
}

/// ASCII punctuation: the four printable non-alphanumeric bands.
pub open spec fn is_ascii_punct_char(c: char) -> bool {
    (33 <= c as u32 && c as u32 <= 47) || (58 <= c as u32 && c as u32 <= 64) || (91 <= c as u32
        && c as u32 <= 96) || (123 <= c as u32 && c as u32 <= 126)
}

/// A cluster that is a single ASCII digit.
pub open spec fn is_digit_cluster(g: Seq<char>) -> bool {
    g.len() == 1 && is_ascii_digit_char(g[0])
}

/// A cluster that separates words for the number classifier: a single
/// ASCII punctuation or whitespace character.
pub open spec fn is_separator_cluster(g: Seq<char>) -> bool {
    g.len() == 1 && (is_ascii_punct_char(g[0]) || is_ascii_whitespace_char(g[0]))
}

/// A cluster that is a literal full stop.
pub open spec fn is_dot_cluster(g: Seq<char>) -> bool {
    g.len() == 1 && g[0] == '.'
}

/// A cluster that is a single tab character.
pub open spec fn is_tab_cluster(g: Seq<char>) -> bool {
    g.len() == 1 && g[0] == '\t'
}

/// A line terminator: a lone line feed, or a carriage return followed by a
/// line feed (which segmentation always keeps together as one cluster).
pub open spec fn is_terminator_cluster(g: Seq<char>) -> bool {
    (g.len() == 1 && g[0] == '\n') || (g.len() == 2 && g[0] == '\r' && g[1] == '\n')
}

/// The text a cluster sequence stands for: the clusters concatenated in
/// order.
pub open spec fn concat_clusters(gs: Seq<Seq<char>>) -> Seq<char>
    decreases gs.len(),
{
    if gs.len() == 0 {
        Seq::empty()
    } else {
        concat_clusters(gs.drop_last()) + gs.last()
    }
}

/// Extending a cluster range by one cluster appends that cluster's text.
pub proof fn lemma_concat_clusters_snoc(gs: Seq<Seq<char>>, lo: int, i: int)
    requires
        0 <= lo <= i < gs.len(),
    ensures
        concat_clusters(gs.subrange(lo, i + 1)) == concat_clusters(gs.subrange(lo, i)) + gs[i],
{
    assert(gs.subrange(lo, i + 1).drop_last() =~= gs.subrange(lo, i));
    assert(gs.subrange(lo, i + 1).last() == gs[i]);
}

// Executable checks of the predicates above, for one cluster held as a
// string.
pub(crate) fn is_digit_g(g: &String) -> (b: bool)
    ensures
        b == is_digit_cluster(g@),
{
    if g.as_str().unicode_len() == 1 {
        let u = g.as_str().get_char(0) as u32;
        48 <= u && u <= 57
    } else {
        false
    }
}

pub(crate) fn is_separator_g(g: &String) -> (b: bool)
    ensures
        b == is_separator_cluster(g@),
{
    if g.as_str().unicode_len() == 1 {
        let u = g.as_str().get_char(0) as u32;
        (33 <= u && u <= 47) || (58 <= u && u <= 64) || (91 <= u && u <= 96) || (123 <= u && u
            <= 126) || u == 32 || u == 9 || u == 10 || u == 12 || u == 13
    } else {
        false
    }
}

pub(crate) fn is_dot_g(g: &String) -> (b: bool)
    ensures
        b == is_dot_cluster(g@),
{
    if g.as_str().unicode_len() == 1 {
        let c = g.as_str().get_char(0);
        c == '.'
    } else {
        false
    }
}

pub(crate) fn is_tab_g(g: &String) -> (b: bool)
    ensures
        b == is_tab_cluster(g@),
{
    if g.as_str().unicode_len() == 1 {
        let c = g.as_str().get_char(0);
        c == '\t'
    } else {
        false
    }
}

pub(crate) fn is_terminator_g(g: &String) -> (b: bool)
    ensures
        b == is_terminator_cluster(g@),
{
    let n = g.as_str().unicode_len();
    if n == 1 {
        let c = g.as_str().get_char(0);
        c == '\n'
    } else if n == 2 {
        let c0 = g.as_str().get_char(0);
        let c1 = g.as_str().get_char(1);
        c0 == '\r' && c1 == '\n'
    } else {
        false
    }
}

} // verus!
