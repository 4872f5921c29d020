//! Lexical highlighting: per-cluster tags, and the classifier that produces
//! them from a line's clusters, an option set and an optional search word.

use vstd::prelude::*;

use crate::cluster::is_digit_cluster;
use crate::cluster::is_dot_cluster;
use crate::cluster::is_separator_cluster;
use crate::search::first_match_from;
use crate::search::lemma_first_match_from_props;

verus! {

/// The lexical class of one grapheme column.
#[derive(Clone, Copy, Debug, PartialEq, Eq, Structural)]
pub enum HighlightTag {
    /// No classification.
    Plain,
    /// Part of a numeric literal.
    Number,
    /// Part of an occurrence of the active search word.
    Match,
}

/// Which lexical categories the classifier may assign.
#[derive(Clone, Copy, Debug, Default, PartialEq, Eq, Structural)]
pub struct HighlightOptions {
    /// Tag simple decimal literals as [`HighlightTag::Number`].
    pub numbers: bool,
}

/// The cluster sequence of an optional search word.
pub open spec fn word_clusters(word: Option<&str>) -> Option<Seq<Seq<char>>> {
    match word {
        Option::None => Option::None,
        Option::Some(w) => Option::Some(crate::unicode::graphemes_of(w@)),
    }
}

/// The neutral tag sequence for a line of `n` clusters.
pub open spec fn plain_tags(n: nat) -> Seq<HighlightTag> {
    Seq::new(n, |i: int| HighlightTag::Plain)
}

/// Whether column `col` lies inside one of the non-overlapping occurrences
/// of `w` that a left-to-right scan starting at column `from` consumes:
/// the scan takes the first occurrence at or after `from` and continues
/// just past it.
///
/// The recursion clamps its next start into `from + 1 ..= gs.len()` only so
/// that it visibly terminates; `lemma_covered_from_unfold` shows the clamp
/// never alters the value.
pub open spec fn covered_from(gs: Seq<Seq<char>>, w: Seq<Seq<char>>, from: int, col: int) -> bool
    decreases gs.len() - from,
{
    if w.len() == 0 || from < 0 || from + w.len() > gs.len() {
        false
    } else {
        match first_match_from(gs, w, from) {
            Option::None => false,
            Option::Some(s) => {
                if s <= col < s + w.len() {
                    true
                } else {
                    let next = if from + 1 <= s + w.len() && s + w.len() <= gs.len() {
                        s + w.len() as int
                    } else {
                        from + 1
                    };
                    covered_from(gs, w, next, col)
                }
            },
        }
    }
}

/// Whether column `col` of `gs` lies inside a consumed occurrence of the
/// search word, when one is active.
pub open spec fn covered_opt(gs: Seq<Seq<char>>, w_opt: Option<Seq<Seq<char>>>, col: int) -> bool {
    match w_opt {
        Option::None => false,
        Option::Some(w) => covered_from(gs, w, 0, col),
    }
}

/// The tag of column `i`, given the tags `prev` of all earlier columns:
/// a column inside a consumed search-word occurrence is a match; otherwise,
/// with numbers enabled, an ASCII digit at the start of the line or right
/// after a separator or another number column continues or opens a numeric
/// literal, and a full stop right after a number column continues one.
pub open spec fn tag_for(
    gs: Seq<Seq<char>>,
    numbers: bool,
    w_opt: Option<Seq<Seq<char>>>,
    i: int,
    prev: Seq<HighlightTag>,
) -> HighlightTag {
    if covered_opt(gs, w_opt, i) {
        HighlightTag::Match
    } else if numbers && is_digit_cluster(gs[i]) && (i == 0 || is_separator_cluster(gs[i - 1])
        || prev[i - 1] == HighlightTag::Number) {
        HighlightTag::Number
    } else if numbers && is_dot_cluster(gs[i]) && i > 0 && prev[i - 1] == HighlightTag::Number {
        HighlightTag::Number
    } else {
        HighlightTag::Plain
    }
}

/// The tags of columns `0 .. n`, assigned left to right.
pub open spec fn tags_upto(
    gs: Seq<Seq<char>>,
    numbers: bool,
    w_opt: Option<Seq<Seq<char>>>,
    n: int,
) -> Seq<HighlightTag>
    decreases n,
{
    if n <= 0 {
        Seq::empty()
    } else {
        let prev = tags_upto(gs, numbers, w_opt, n - 1);
        prev.push(tag_for(gs, numbers, w_opt, n - 1, prev))
    }
}

/// The full tag sequence of a line: one tag per cluster.
pub open spec fn line_tags(
    gs: Seq<Seq<char>>,
    numbers: bool,
    w_opt: Option<Seq<Seq<char>>>,
) -> Seq<HighlightTag> {
    tags_upto(gs, numbers, w_opt, gs.len() as int)
}

pub proof fn lemma_tags_upto_len(
    gs: Seq<Seq<char>>,
    numbers: bool,
    w_opt: Option<Seq<Seq<char>>>,
    n: int,
)
    ensures
        n >= 0 ==> tags_upto(gs, numbers, w_opt, n).len() == n,
        n < 0 ==> tags_upto(gs, numbers, w_opt, n).len() == 0,
    decreases n,
{
    if n > 0 {
        lemma_tags_upto_len(gs, numbers, w_opt, n - 1);
    }
}

/// Assigning one more column extends the tags without changing the earlier
/// ones; the tags of `0 .. n` are a prefix of the tags of `0 .. m`.
pub proof fn lemma_tags_upto_prefix(
    gs: Seq<Seq<char>>,
    numbers: bool,
    w_opt: Option<Seq<Seq<char>>>,
    n: int,
    m: int,
)
    requires
        0 <= n <= m,
    ensures
        forall|i: int|
            0 <= i < n ==> tags_upto(gs, numbers, w_opt, m)[i] == tags_upto(
                gs,
                numbers,
                w_opt,
                n,
            )[i],
    decreases m - n,
{
    lemma_tags_upto_len(gs, numbers, w_opt, n);
    lemma_tags_upto_len(gs, numbers, w_opt, m);
    if n < m {
        lemma_tags_upto_prefix(gs, numbers, w_opt, n, m - 1);
        lemma_tags_upto_len(gs, numbers, w_opt, m - 1);
    }
}

/// How `covered_from` unfolds on well-formed arguments: the clamp in its
/// definition never bites, and columns before the first consumed
/// occurrence are not covered.
pub proof fn lemma_covered_from_unfold(gs: Seq<Seq<char>>, w: Seq<Seq<char>>, from: int, col: int)
    requires
        w.len() > 0,
        0 <= from,
    ensures
        first_match_from(gs, w, from) is None ==> !covered_from(gs, w, from, col),
        first_match_from(gs, w, from) matches Some(s) ==> covered_from(gs, w, from, col) == (s
            <= col < s + w.len() || covered_from(gs, w, s + w.len(), col)),
        col < from ==> !covered_from(gs, w, from, col),
    decreases gs.len() - from,
{
    lemma_first_match_from_props(gs, w, from);
    match first_match_from(gs, w, from) {
        Option::None => {},
        Option::Some(s) => {
            if !(s <= col < s + w.len()) && col < from {
                lemma_covered_from_unfold(gs, w, s + w.len(), col);
            }
        },
    }
}

/// Match precedence: every column inside a consumed occurrence of the
/// active search word is tagged `Match`, whatever the number classifier
/// would have said of it.
pub proof fn lemma_match_precedence(
    gs: Seq<Seq<char>>,
    numbers: bool,
    w: Seq<Seq<char>>,
    col: int,
)
    requires
        0 <= col < gs.len(),
        covered_opt(gs, Some(w), col),
    ensures
        line_tags(gs, numbers, Some(w))[col] == HighlightTag::Match,
{
    lemma_tags_upto_len(gs, numbers, Some(w), col + 1);
    lemma_tags_upto_prefix(gs, numbers, Some(w), col + 1, gs.len() as int);
    assert(tags_upto(gs, numbers, Some(w), col + 1)[col] == tag_for(
        gs,
        numbers,
        Some(w),
        col,
        tags_upto(gs, numbers, Some(w), col),
    ));
}

} // verus!
