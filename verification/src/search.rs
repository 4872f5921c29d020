//! Substring search over cluster sequences: the occurrence relation, the
//! first and last occurrence in a range, and the verified scans behind
//! them.

use vstd::prelude::*;

use crate::position::SearchDirection;

verus! {

/// Whether the cluster sequence `w` occurs in `gs` starting at column `i`.
pub open spec fn match_at(gs: Seq<Seq<char>>, w: Seq<Seq<char>>, i: int) -> bool {
    0 <= i && i + w.len() <= gs.len() && gs.subrange(i, i + w.len() as int) == w
}

/// The first column at or after `from` where `w` occurs in `gs`, if any.
/// An empty `w` never counts as occurring.
pub open spec fn first_match_from(gs: Seq<Seq<char>>, w: Seq<Seq<char>>, from: int) -> Option<
    int,
>
    decreases gs.len() - from,
{
    if w.len() == 0 || from < 0 || from + w.len() > gs.len() {
        Option::None
    } else if match_at(gs, w, from) {
        Option::Some(from)
    } else {
        first_match_from(gs, w, from + 1)
    }
}

/// The last column at or below `i` where `w` occurs in `gs`, if any.
pub open spec fn last_match_at_or_below(gs: Seq<Seq<char>>, w: Seq<Seq<char>>, i: int) -> Option<
    int,
>
    decreases i + 1,
{
    if w.len() == 0 || i < 0 {
        Option::None
    } else if match_at(gs, w, i) {
        Option::Some(i)
    } else {
        last_match_at_or_below(gs, w, i - 1)
    }
}

/// Where one line's search lands: forward, the first occurrence at or
/// after column `from`; backward, the last occurrence that ends at or
/// before column `from`. A starting column past the end of the line, or an
/// empty word, finds nothing.
pub open spec fn row_find(
    gs: Seq<Seq<char>>,
    w: Seq<Seq<char>>,
    from: int,
    direction: SearchDirection,
) -> Option<int> {
    if from > gs.len() {
        Option::None
    } else {
        match direction {
            SearchDirection::Forward => first_match_from(gs, w, from),
            SearchDirection::Backward => last_match_at_or_below(gs, w, from - w.len()),
        }
    }
}

/// What a first-occurrence answer means: the returned column carries an
/// occurrence, no earlier column at or after `from` does, and a `None`
/// answer rules every column out.
pub proof fn lemma_first_match_from_props(gs: Seq<Seq<char>>, w: Seq<Seq<char>>, from: int)
    ensures
        first_match_from(gs, w, from) matches Some(s) ==> w.len() > 0 && from <= s && s + w.len()
            <= gs.len() && match_at(gs, w, s) && (forall|k: int|
            from <= k < s ==> !match_at(gs, w, k)),
        w.len() > 0 && 0 <= from && first_match_from(gs, w, from) is None ==> (forall|k: int|
            from <= k ==> !match_at(gs, w, k)),
    decreases gs.len() - from,
{
    if !(w.len() == 0 || from < 0 || from + w.len() > gs.len()) && !match_at(gs, w, from) {
        lemma_first_match_from_props(gs, w, from + 1);
    }
}

/// What a last-occurrence answer means, mirrored for the backward scan.
pub proof fn lemma_last_match_at_or_below_props(gs: Seq<Seq<char>>, w: Seq<Seq<char>>, i: int)
    ensures
        last_match_at_or_below(gs, w, i) matches Some(s) ==> w.len() > 0 && s <= i && match_at(
            gs,
            w,
            s,
        ) && (forall|k: int| s < k <= i ==> !match_at(gs, w, k)),
        w.len() > 0 && last_match_at_or_below(gs, w, i) is None ==> (forall|k: int|
            k <= i ==> !match_at(gs, w, k)),
    decreases i + 1,
{
    if !(w.len() == 0 || i < 0) && !match_at(gs, w, i) {
        lemma_last_match_at_or_below_props(gs, w, i - 1);
    }
}

/// What any within-line answer means: the returned column carries an
/// occurrence of the whole word inside the line.
pub proof fn lemma_row_find_props(
    gs: Seq<Seq<char>>,
    w: Seq<Seq<char>>,
    from: int,
    direction: SearchDirection,
)
    ensures
        row_find(gs, w, from, direction) matches Some(i) ==> 0 <= i && match_at(gs, w, i)
            && w.len() > 0 && i + w.len() <= gs.len(),
        direction is Forward ==> (row_find(gs, w, from, direction) matches Some(i) ==> from <= i),
        direction is Backward ==> (row_find(gs, w, from, direction) matches Some(i) ==> i + w.len()
            <= from),
{
    if from <= gs.len() {
        match direction {
            SearchDirection::Forward => lemma_first_match_from_props(gs, w, from),
            SearchDirection::Backward => lemma_last_match_at_or_below_props(gs, w, from - w.len()),
        }
    }
}

/// Whether `w` occurs at column `i`, checked cluster by cluster.
pub(crate) fn clusters_match_at(gs: &Vec<String>, w: &Vec<String>, i: usize) -> (b: bool)
    requires
        i + w@.len() <= gs@.len(),
    ensures
        b == match_at(gs.deep_view(), w.deep_view(), i as int),
{
    let n = gs.len();
    let mut j: usize = 0;
    while j < w.len()
        invariant
            i + w@.len() <= gs@.len(),
            gs@.len() == n,
            0 <= j <= w@.len(),
            forall|k: int| 0 <= k < j ==> gs.deep_view()[i + k] == w.deep_view()[k],
        decreases w@.len() - j,
    {
        if !(gs[i + j] == w[j]) {
            proof {
                assert(gs.deep_view().subrange(i as int, i + w@.len())[j as int] != w.deep_view()[j as int]);
            }
            return false;
        }
        j += 1;
    }
    proof {
        assert(gs.deep_view().subrange(i as int, i + w@.len()) =~= w.deep_view());
    }
    true
}

/// The forward scan: the first occurrence of `w` at or after column `from`.
pub(crate) fn find_in(gs: &Vec<String>, w: &Vec<String>, from: usize) -> (r: Option<usize>)
    ensures
        r is None <==> first_match_from(gs.deep_view(), w.deep_view(), from as int) is None,
        r matches Some(x) ==> first_match_from(gs.deep_view(), w.deep_view(), from as int)
            == Option::Some(x as int),
{
    let ghost gd = gs.deep_view();
    let ghost wd = w.deep_view();
    if w.len() == 0 || w.len() > gs.len() || from > gs.len() - w.len() {
        return None;
    }
    let mut i: usize = from;
    while i <= gs.len() - w.len()
        invariant
            0 < w@.len() <= gs@.len(),
            from <= i <= gs@.len() - w@.len() + 1,
            first_match_from(gd, wd, from as int) == first_match_from(gd, wd, i as int),
            gd == gs.deep_view(),
            wd == w.deep_view(),
        decreases gs@.len() - i,
    {
        if clusters_match_at(gs, w, i) {
            return Some(i);
        }
        proof {
            assert(first_match_from(gd, wd, i as int) == first_match_from(gd, wd, i + 1));
        }
        i += 1;
    }
    proof {
        assert(first_match_from(gd, wd, i as int) is None);
    }
    None
}

/// The backward scan: the last occurrence of `w` that ends at or before
/// column `from`.
pub(crate) fn rfind_in(gs: &Vec<String>, w: &Vec<String>, from: usize) -> (r: Option<usize>)
    requires
        from <= gs@.len(),
    ensures
        r is None <==> last_match_at_or_below(gs.deep_view(), w.deep_view(), from - w@.len())
            is None,
        r matches Some(x) ==> last_match_at_or_below(gs.deep_view(), w.deep_view(), from - w@.len())
            == Option::Some(x as int),
{
    let ghost gd = gs.deep_view();
    let ghost wd = w.deep_view();
    if w.len() == 0 || from < w.len() {
        return None;
    }
    // Scan columns from - w.len(), ..., 1, 0 downward; `i - 1` is the next
    // column to check.
    let mut i: usize = from - w.len() + 1;
    while i > 0
        invariant
            0 < wd.len(),
            i + wd.len() <= gd.len() + 1,
            last_match_at_or_below(gd, wd, from - w@.len()) == (if i > 0 {
                last_match_at_or_below(gd, wd, i - 1)
            } else {
                Option::<int>::None
            }),
            gd == gs.deep_view(),
            wd == w.deep_view(),
        decreases i,
    {
        let j = i - 1;
        if clusters_match_at(gs, w, j) {
            return Some(j);
        }
        proof {
            if j > 0 {
                assert(last_match_at_or_below(gd, wd, j as int) == last_match_at_or_below(
                    gd,
                    wd,
                    j - 1,
                ));
            } else {
                assert(last_match_at_or_below(gd, wd, -1) is None);
                assert(last_match_at_or_below(gd, wd, 0) is None);
            }
        }
        i -= 1;
    }
    None
}

} // verus!
