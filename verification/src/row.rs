//! One line of a document.
//!
//! A row owns its text as a sequence of grapheme clusters, a cached cluster
//! count that must never drift from the text, and a parallel tag sequence
//! from the last highlight pass. Every column index counts clusters, never
//! bytes or characters. The view of a row is its cluster sequence.

use vstd::prelude::*;

use crate::cluster::concat_clusters;
use crate::cluster::is_digit_g;
use crate::cluster::is_dot_g;
use crate::cluster::is_separator_g;
use crate::cluster::is_tab_cluster;
use crate::cluster::is_tab_g;
use crate::cluster::lemma_concat_clusters_snoc;
use crate::highlight::covered_from;
use crate::highlight::covered_opt;
use crate::highlight::lemma_covered_from_unfold;
use crate::highlight::lemma_tags_upto_len;
use crate::highlight::line_tags;
use crate::highlight::plain_tags;
use crate::highlight::tag_for;
use crate::highlight::tags_upto;
use crate::highlight::word_clusters;
use crate::highlight::HighlightOptions;
use crate::highlight::HighlightTag;
use crate::position::SearchDirection;
use crate::search::find_in;
use crate::search::first_match_from;
use crate::search::lemma_first_match_from_props;
use crate::search::lemma_last_match_at_or_below_props;
use crate::search::match_at;
use crate::search::rfind_in;
use crate::search::row_find;
use crate::unicode::char_to_string;
use crate::unicode::graphemes_of;
use crate::unicode::segment;

verus! {

/// One grapheme cluster, with a tab shown as a single space; the
/// rendering-only substitution applied to every cluster of a visible slice.
pub open spec fn tab_fixed(g: Seq<char>) -> Seq<char> {
    if is_tab_cluster(g) {
        seq![' ']
    } else {
        g
    }
}

/// The visible text of the cluster range `lo .. hi`, tabs substituted.
pub open spec fn render_range(gs: Seq<Seq<char>>, lo: int, hi: int) -> Seq<char>
    decreases hi - lo,
{
    if lo >= hi {
        Seq::empty()
    } else {
        render_range(gs, lo, hi - 1) + tab_fixed(gs[hi - 1])
    }
}

/// What rendering the columns `start .. end` of a line shows: the range is
/// first clamped so that `end <= len` and `start <= end`.
pub open spec fn render_view(gs: Seq<Seq<char>>, start: int, end: int) -> Seq<char> {
    let hi = if end <= gs.len() {
        end
    } else {
        gs.len() as int
    };
    let lo = if start <= hi {
        start
    } else {
        hi
    };
    render_range(gs, lo, hi)
}

/// The text of the cluster range selected by `skip` and `take`, clamped to
/// the line: skip the first `skip` clusters (all of them if fewer), then
/// keep the next `take` clusters (the rest if fewer); an absent bound
/// means zero and all, respectively.
pub open spec fn substr_view(gs: Seq<Seq<char>>, skip: Option<usize>, take: Option<usize>) -> Seq<
    char,
> {
    let lo = match skip {
        Option::Some(s) => if s <= gs.len() {
            s as int
        } else {
            gs.len() as int
        },
        Option::None => 0,
    };
    let hi = match take {
        Option::Some(t) => if lo + t <= gs.len() {
            lo + t
        } else {
            gs.len() as int
        },
        Option::None => gs.len() as int,
    };
    concat_clusters(gs.subrange(lo, hi))
}

/// A line's clusters after the character `c` is inserted as a cluster of
/// its own at column `x`; a column at or past the end appends it.
pub open spec fn row_inserted(r: Seq<Seq<char>>, x: int, c: char) -> Seq<Seq<char>> {
    if x < r.len() {
        r.insert(x, seq![c])
    } else {
        r.push(seq![c])
    }
}

/// A line's clusters after a delete at column `x`; a column at or past
/// the end changes nothing.
pub open spec fn row_deleted(r: Seq<Seq<char>>, x: int) -> Seq<Seq<char>> {
    if 0 <= x < r.len() {
        r.remove(x)
    } else {
        r
    }
}

/// One line of text, held as its grapheme clusters.
pub struct Row {
    graphemes: Vec<String>,
    tags: Vec<HighlightTag>,
    len: usize,
}

impl View for Row {
    type V = Seq<Seq<char>>;

    closed spec fn view(&self) -> Seq<Seq<char>> {
        self.graphemes.deep_view()
    }
}

impl Default for Row {
    /// An empty line.
    fn default() -> (r: Self)
        ensures
            r.wf(),
            r@ == Seq::<Seq<char>>::empty(),
            r.tags_view() == Seq::<HighlightTag>::empty(),
    {
        let r = Row { graphemes: Vec::new(), tags: Vec::new(), len: 0 };
        proof {
            assert(r@ =~= Seq::<Seq<char>>::empty());
        }
        r
    }
}

impl Row {
    /// The cached cluster count and the tag sequence agree with the text.
    pub closed spec fn wf(&self) -> bool {
        self.len == self@.len() && self.tags@.len() == self@.len()
    }

    /// The tags assigned by the last highlight pass (or the neutral tags,
    /// right after a structural change).
    pub closed spec fn tags_view(&self) -> Seq<HighlightTag> {
        self.tags@
    }

    /// A row built from a string: its extended grapheme clusters, with
    /// neutral tags.
    pub fn from(slice: &str) -> (r: Row)
        ensures
            r.wf(),
            r@ == graphemes_of(slice@),
            concat_clusters(r@) == slice@,
            forall|i: int| 0 <= i < r@.len() ==> #[trigger] r@[i].len() > 0,
            r.tags_view() == plain_tags(r@.len()),
    {
        let graphemes = segment(slice);
        let n = graphemes.len();
        let tags = plain_tag_vec(n);
        Row { graphemes, tags, len: n }
    }

    /// The number of grapheme clusters in the line.
    pub fn len(&self) -> (n: usize)
        requires
            self.wf(),
        ensures
            n == self@.len(),
    {
        self.len
    }

    pub fn is_empty(&self) -> (b: bool)
        requires
            self.wf(),
        ensures
            b == (self@.len() == 0),
    {
        self.len == 0
    }

    /// Recompute the cached cluster count from the text.
    pub fn update_len(&mut self)
        requires
            old(self).tags_view().len() == old(self)@.len(),
        ensures
            final (self).wf(),
            final (self)@ == old(self)@,
            final (self).tags_view() == old(self).tags_view(),
    {
        self.len = self.graphemes.len();
    }

    /// The line's text, clusters concatenated in order.
    pub fn contents(&self) -> (s: String)
        requires
            self.wf(),
        ensures
            s@ == concat_clusters(self@),
    {
        let mut s = String::new();
        push_clusters(&mut s, &self.graphemes, 0, self.graphemes.len());
        proof {
            assert(self@.subrange(0, self@.len() as int) =~= self@);
        }
        s
    }

    /// The line's text as bytes, the form written on save.
    pub fn as_bytes(&self) -> (b: Vec<u8>)
        requires
            self.wf(),
        ensures
            b@ == vstd::utf8::encode_utf8(concat_clusters(self@)),
    {
        let s = self.contents();
        s.as_str().as_bytes_vec()
    }

    /// The text of the cluster range selected by `skip` and `take`.
    pub fn substr(&self, skip: Option<usize>, take: Option<usize>) -> (s: String)
        requires
            self.wf(),
        ensures
            s@ == substr_view(self@, skip, take),
    {
        let lo: usize = match skip {
            Some(k) => if k <= self.len {
                k
            } else {
                self.len
            },
            None => 0,
        };
        let hi: usize = match take {
            Some(t) => if t <= self.len - lo {
                lo + t
            } else {
                self.len
            },
            None => self.len,
        };
        let mut s = String::new();
        push_clusters(&mut s, &self.graphemes, lo, hi);
        s
    }

    /// The visible slice between grapheme columns `start .. end`, clamped
    /// to the line, each tab shown as one space. The underlying text is
    /// not changed.
    pub fn render(&self, start: usize, end: usize) -> (s: String)
        requires
            self.wf(),
        ensures
            s@ == render_view(self@, start as int, end as int),
    {
        let hi: usize = if end <= self.len {
            end
        } else {
            self.len
        };
        let lo: usize = if start <= hi {
            start
        } else {
            hi
        };
        let mut s = String::new();
        let mut i: usize = lo;
        while i < hi
            invariant
                lo <= i <= hi <= self@.len(),
                self.wf(),
                s@ == render_range(self@, lo as int, i as int),
            decreases hi - i,
        {
            if is_tab_g(&self.graphemes[i]) {
                s.append(" ");
                proof {
                    reveal_strlit(" ");
                    assert(" "@ =~= seq![' ']);
                }
            } else {
                s.append(self.graphemes[i].as_str());
            }
            i += 1;
        }
        s
    }

    /// Insert the character `c` as a cluster of its own at column `at`; a
    /// column at or past the end appends it. The cluster count grows by
    /// one and the tags reset to neutral.
    pub fn insert(&mut self, at: usize, c: char)
        requires
            old(self).wf(),
        ensures
            final (self).wf(),
            final (self)@.len() == old(self)@.len() + 1,
            final (self)@ == row_inserted(old(self)@, at as int, c),
            final (self).tags_view() == plain_tags(final (self)@.len()),
    {
        let cl = char_to_string(c);
        if at >= self.len {
            self.graphemes.push(cl);
            proof {
                assert(self.graphemes.deep_view() =~= old(self)@.push(seq![c]));
            }
        } else {
            self.graphemes.insert(at, cl);
            proof {
                assert(self.graphemes.deep_view() =~= old(self)@.insert(at as int, seq![c]));
            }
        }
        self.len = self.graphemes.len();
        let n = self.len;
        self.tags = plain_tag_vec(n);
    }

    /// Remove the cluster at column `at`; a column at or past the end
    /// changes nothing. On a change the tags reset to neutral.
    pub fn delete(&mut self, at: usize)
        requires
            old(self).wf(),
        ensures
            final (self).wf(),
            final (self)@ == row_deleted(old(self)@, at as int),
            at < old(self)@.len() ==> final (self).tags_view() == plain_tags(final (self)@.len()),
            at >= old(self)@.len() ==> final (self).tags_view() == old(self).tags_view(),
    {
        if at >= self.len {
            return ;
        }
        self.graphemes.remove(at);
        proof {
            assert(self.graphemes.deep_view() =~= old(self)@.remove(at as int));
        }
        self.len = self.graphemes.len();
        let n = self.len;
        self.tags = plain_tag_vec(n);
    }

    /// Concatenate another line's clusters onto the end of this one. The
    /// tags reset to neutral.
    pub fn append(&mut self, new: &Row)
        requires
            old(self).wf(),
            new.wf(),
        ensures
            final (self).wf(),
            final (self)@ == old(self)@ + new@,
            final (self).tags_view() == plain_tags(final (self)@.len()),
    {
        let m = new.graphemes.len();
        let mut i: usize = 0;
        while i < m
            invariant
                0 <= i <= m,
                m == new@.len(),
                new.wf(),
                self.graphemes@.len() == old(self)@.len() + i,
                forall|j: int|
                    0 <= j < old(self)@.len() ==> self.graphemes.deep_view()[j] == old(self)@[j],
                forall|j: int|
                    0 <= j < i ==> self.graphemes.deep_view()[old(self)@.len() + j] == new@[j],
            decreases m - i,
        {
            self.graphemes.push(new.graphemes[i].clone());
            i += 1;
        }
        proof {
            assert(self.graphemes.deep_view() =~= old(self)@ + new@);
        }
        self.len = self.graphemes.len();
        let n = self.len;
        self.tags = plain_tag_vec(n);
    }

    /// Truncate this line to its first `at` clusters and return the rest
    /// as a new line; past the end, the new line is empty. Both lines' tags
    /// reset to neutral.
    pub fn split(&mut self, at: usize) -> (r: Row)
        requires
            old(self).wf(),
        ensures
            final (self).wf(),
            r.wf(),
            at <= old(self)@.len() ==> final (self)@ == old(self)@.subrange(0, at as int) && r@
                == old(self)@.subrange(at as int, old(self)@.len() as int),
            at > old(self)@.len() ==> final (self)@ == old(self)@ && r@ == Seq::<Seq<char>>::empty(),
            final (self)@ + r@ == old(self)@,
            final (self).tags_view() == plain_tags(final (self)@.len()),
            r.tags_view() == plain_tags(r@.len()),
    {
        let pos: usize = if at <= self.len {
            at
        } else {
            self.len
        };
        let rest = self.graphemes.split_off(pos);
        proof {
            assert(self.graphemes.deep_view() =~= old(self)@.subrange(0, pos as int));
            assert(rest.deep_view() =~= old(self)@.subrange(pos as int, old(self)@.len() as int));
            assert(old(self)@.subrange(0, pos as int) + old(self)@.subrange(
                pos as int,
                old(self)@.len() as int,
            ) =~= old(self)@);
            if at > old(self)@.len() {
                assert(old(self)@.subrange(0, pos as int) =~= old(self)@);
                assert(rest.deep_view() =~= Seq::<Seq<char>>::empty());
            }
        }
        self.len = self.graphemes.len();
        let n = self.len;
        self.tags = plain_tag_vec(n);
        let rlen = rest.len();
        let rtags = plain_tag_vec(rlen);
        Row { graphemes: rest, tags: rtags, len: rlen }
    }

    /// Search within this line: forward, the first occurrence of `query`
    /// at or after column `at`; backward, the last occurrence that ends at
    /// or before column `at`. The answer is a grapheme column; an empty
    /// query, or `at` past the end of the line, finds nothing.
    pub fn find(&self, query: &str, at: usize, direction: SearchDirection) -> (r: Option<usize>)
        requires
            self.wf(),
        ensures
            r is None <==> row_find(self@, graphemes_of(query@), at as int, direction) is None,
            r matches Some(x) ==> row_find(self@, graphemes_of(query@), at as int, direction)
                == Option::Some(x as int),
            r matches Some(x) ==> match_at(self@, graphemes_of(query@), x as int) && x
                + graphemes_of(query@).len() <= self@.len(),
    {
        if at > self.len {
            return None;
        }
        let q = segment(query);
        match direction {
            SearchDirection::Forward => {
                let r = find_in(&self.graphemes, &q, at);
                proof {
                    lemma_first_match_from_props(self@, q.deep_view(), at as int);
                }
                r
            },
            SearchDirection::Backward => {
                let r = rfind_in(&self.graphemes, &q, at);
                proof {
                    lemma_last_match_at_or_below_props(
                        self@,
                        q.deep_view(),
                        at - graphemes_of(query@).len(),
                    );
                }
                r
            },
        }
    }

    /// Recompute the full tag sequence: every consumed occurrence of the
    /// search word becomes `Match`, and the remaining columns are
    /// classified by the number rule when it is enabled.
    pub fn highlight(&mut self, options: HighlightOptions, word: Option<&str>)
        requires
            old(self).wf(),
        ensures
            final (self).wf(),
            final (self)@ == old(self)@,
            final (self).tags_view() == line_tags(old(self)@, options.numbers, word_clusters(word)),
    {
        let ghost gs = old(self)@;
        let ghost wv = word_clusters(word);
        let numbers = options.numbers;
        let qv: Vec<String> = match word {
            Some(w) => segment(w),
            None => Vec::new(),
        };
        let ghost qd = qv.deep_view();
        proof {
            if word is None {
                assert(qd.len() == 0);
            }
        }
        let wl = qv.len();
        let n = self.graphemes.len();
        let mut tags: Vec<HighlightTag> = Vec::new();
        let mut next_m: Option<usize> = find_in(&self.graphemes, &qv, 0);
        let ghost anchor: int = 0;
        proof {
            lemma_first_match_from_props(gs, qd, 0);
        }
        let mut i: usize = 0;
        while i < n
            invariant
                *self == *old(self),
                self.wf(),
                gs == self@,
                wv == word_clusters(word),
                n == gs.len(),
                qd == qv.deep_view(),
                wl == qd.len(),
                (match wv {
                    Option::Some(w) => w == qd,
                    Option::None => qd.len() == 0,
                }),
                0 <= anchor <= i <= n,
                tags@ == tags_upto(gs, numbers, wv, i as int),
                tags@.len() == i,
                forall|col: int|
                    anchor <= col ==> covered_opt(gs, wv, col) == covered_from(gs, qd, anchor, col),
                next_m is None <==> first_match_from(gs, qd, anchor) is None,
                next_m matches Some(s) ==> first_match_from(gs, qd, anchor) == Option::Some(
                    s as int,
                ) && i <= s && s + wl <= n,
            decreases n - i,
        {
            let at_match = match next_m {
                Some(s) => s == i,
                None => false,
            };
            if at_match {
                proof {
                    lemma_first_match_from_props(gs, qd, anchor);
                    lemma_covered_from_unfold(gs, qd, anchor, i as int);
                    assert forall|col: int| i <= col < i + wl implies covered_opt(
                        gs,
                        wv,
                        col,
                    ) by {
                        lemma_covered_from_unfold(gs, qd, anchor, col);
                    }
                }
                let ghost i0 = i as int;
                let mut j: usize = 0;
                while j < wl
                    invariant
                        0 <= j <= wl,
                        i0 + wl <= n,
                        0 <= i0,
                        gs.len() == n,
                        tags@ == tags_upto(gs, numbers, wv, i0 + j),
                        tags@.len() == i0 + j,
                        forall|col: int| i0 <= col < i0 + wl ==> covered_opt(gs, wv, col),
                    decreases wl - j,
                {
                    proof {
                        lemma_tags_upto_len(gs, numbers, wv, i0 + j);
                        assert(tags_upto(gs, numbers, wv, i0 + j + 1) == tags_upto(
                            gs,
                            numbers,
                            wv,
                            i0 + j,
                        ).push(tag_for(gs, numbers, wv, i0 + j, tags_upto(gs, numbers, wv, i0 + j))));
                        assert(covered_opt(gs, wv, i0 + j));
                        assert(tag_for(gs, numbers, wv, i0 + j, tags_upto(gs, numbers, wv, i0 + j))
                            == HighlightTag::Match);
                    }
                    tags.push(HighlightTag::Match);
                    j += 1;
                }
                i += wl;
                proof {
                    lemma_first_match_from_props(gs, qd, anchor);
                    assert forall|col: int| i <= col implies covered_opt(gs, wv, col)
                        == covered_from(gs, qd, i as int, col) by {
                        lemma_covered_from_unfold(gs, qd, anchor, col);
                    }
                    anchor = i as int;
                }
                next_m = find_in(&self.graphemes, &qv, i);
                proof {
                    lemma_first_match_from_props(gs, qd, anchor);
                }
            } else {
                proof {
                    // The column is not covered by any consumed occurrence.
                    if qd.len() > 0 {
                        lemma_covered_from_unfold(gs, qd, anchor, i as int);
                        match first_match_from(gs, qd, anchor) {
                            Option::None => {},
                            Option::Some(s) => {
                                lemma_first_match_from_props(gs, qd, anchor);
                                lemma_covered_from_unfold(gs, qd, s + qd.len(), i as int);
                            },
                        }
                    }
                    assert(!covered_opt(gs, wv, i as int));
                }
                let g = &self.graphemes[i];
                let digit = is_digit_g(g);
                let dot = is_dot_g(g);
                let prev_sep = if i == 0 {
                    false
                } else {
                    is_separator_g(&self.graphemes[i - 1])
                };
                let prev_num = if i == 0 {
                    false
                } else {
                    tags[i - 1] == HighlightTag::Number
                };
                let tag = if numbers && digit && (i == 0 || prev_sep || prev_num) {
                    HighlightTag::Number
                } else if numbers && dot && i > 0 && prev_num {
                    HighlightTag::Number
                } else {
                    HighlightTag::Plain
                };
                proof {
                    lemma_tags_upto_len(gs, numbers, wv, i as int);
                    assert(tags_upto(gs, numbers, wv, i + 1) == tags_upto(gs, numbers, wv, i as int).push(
                        tag_for(gs, numbers, wv, i as int, tags_upto(gs, numbers, wv, i as int)),
                    ));
                    assert(tag == tag_for(gs, numbers, wv, i as int, tags@));
                }
                tags.push(tag);
                i += 1;
            }
        }
        self.tags = tags;
    }

    /// The tag of each grapheme column, from the last highlight pass.
    pub fn highlighting(&self) -> (r: &Vec<HighlightTag>)
        ensures
            r@ == self.tags_view(),
    {
        &self.tags
    }

    /// A row assembled from already-segmented clusters, with neutral tags.
    pub(crate) fn from_clusters(graphemes: Vec<String>) -> (r: Row)
        ensures
            r.wf(),
            r@ == graphemes.deep_view(),
            r.tags_view() == plain_tags(graphemes.deep_view().len()),
    {
        let n = graphemes.len();
        let tags = plain_tag_vec(n);
        Row { graphemes, tags, len: n }
    }
}

/// Splitting a line at any column within it and appending the returned
/// suffix back onto the prefix restores the original line, content and
/// length alike.
pub proof fn lemma_split_append_roundtrip(l: Seq<Seq<char>>, a: int)
    requires
        0 <= a <= l.len(),
    ensures
        l.subrange(0, a) + l.subrange(a, l.len() as int) == l,
{
    assert(l.subrange(0, a) + l.subrange(a, l.len() as int) =~= l);
}

/// Inserting a character at a column within the line and then deleting at
/// that same column restores the original line, content and length alike.
pub proof fn lemma_insert_delete_roundtrip(l: Seq<Seq<char>>, a: int, c: char)
    requires
        0 <= a <= l.len(),
    ensures
        row_deleted(row_inserted(l, a, c), a) == l,
{
    if a < l.len() {
        assert(row_deleted(l.insert(a, seq![c]), a) =~= l);
    } else {
        assert(row_deleted(l.push(seq![c]), a) =~= l);
    }
}

/// The neutral tag sequence for `n` columns, as a vector.
fn plain_tag_vec(n: usize) -> (v: Vec<HighlightTag>)
    ensures
        v@ == plain_tags(n as nat),
{
    let mut v: Vec<HighlightTag> = Vec::new();
    let mut i: usize = 0;
    while i < n
        invariant
            0 <= i <= n,
            v@ == plain_tags(i as nat),
        decreases n - i,
    {
        v.push(HighlightTag::Plain);
        proof {
            assert(v@ =~= plain_tags((i + 1) as nat));
        }
        i += 1;
    }
    proof {
        assert(v@ =~= plain_tags(n as nat));
    }
    v
}

/// Append the text of the cluster range `lo .. hi` onto `dst`.
fn push_clusters(dst: &mut String, gs: &Vec<String>, lo: usize, hi: usize)
    requires
        lo <= hi <= gs@.len(),
    ensures
        final (dst)@ == old(dst)@ + concat_clusters(gs.deep_view().subrange(lo as int, hi as int)),
{
    let mut i: usize = lo;
    proof {
        assert(old(dst)@ + concat_clusters(gs.deep_view().subrange(lo as int, lo as int)) =~= old(
            dst,
        )@);
    }
    while i < hi
        invariant
            lo <= i <= hi <= gs@.len(),
            dst@ == old(dst)@ + concat_clusters(gs.deep_view().subrange(lo as int, i as int)),
        decreases hi - i,
    {
        dst.append(gs[i].as_str());
        proof {
            lemma_concat_clusters_snoc(gs.deep_view(), lo as int, i as int);
        }
        i += 1;
    }
}

} // verus!
