//! An ordered sequence of rows with a dirty flag and an optional backing
//! file name.
//!
//! The view of a document is the sequence of its rows' cluster sequences.
//! Row indices are dense: removing a row shifts the later ones down,
//! inserting shifts them up. Every content mutation sets the dirty flag;
//! only a completed save clears it.

use vstd::prelude::*;

use crate::cluster::concat_clusters;
use crate::cluster::is_terminator_cluster;
use crate::cluster::is_terminator_g;
use crate::highlight::line_tags;
use crate::highlight::plain_tags;
use crate::highlight::word_clusters;
use crate::highlight::HighlightOptions;
use crate::highlight::HighlightTag;
use crate::position::Position;
use crate::position::SearchDirection;
use crate::row::row_inserted;
use crate::row::Row;
use crate::search::match_at;
use crate::search::row_find;
use crate::unicode::graphemes_of;
use crate::unicode::segment;

verus! {

/// The column of the first terminator cluster at or after `i`, if any.
pub open spec fn first_term_from(gs: Seq<Seq<char>>, i: int) -> Option<int>
    decreases gs.len() - i,
{
    if i < 0 || i >= gs.len() {
        Option::None
    } else if is_terminator_cluster(gs[i]) {
        Option::Some(i)
    } else {
        first_term_from(gs, i + 1)
    }
}

pub proof fn lemma_first_term_from_props(gs: Seq<Seq<char>>, i: int)
    ensures
        first_term_from(gs, i) matches Some(k) ==> i <= k < gs.len() && is_terminator_cluster(
            gs[k],
        ) && (forall|j: int| i <= j < k ==> !is_terminator_cluster(gs[j])),
        0 <= i && first_term_from(gs, i) is None ==> (forall|j: int|
            i <= j < gs.len() ==> !is_terminator_cluster(gs[j])),
    decreases gs.len() - i,
{
    if !(i < 0 || i >= gs.len()) && !is_terminator_cluster(gs[i]) {
        lemma_first_term_from_props(gs, i + 1);
    }
}

/// The rows a cluster sequence loads as: split at each terminator cluster,
/// terminators belonging to no row; a trailing terminator opens no extra
/// row. (The recursion clamps the split point only so that it visibly
/// terminates; `lemma_first_term_from_props` shows the clamp never bites.)
pub open spec fn split_rows(gs: Seq<Seq<char>>) -> Seq<Seq<Seq<char>>>
    decreases gs.len(),
{
    if gs.len() == 0 {
        Seq::empty()
    } else {
        match first_term_from(gs, 0) {
            Option::None => seq![gs],
            Option::Some(k) => {
                let kk = if 0 <= k < gs.len() {
                    k
                } else {
                    0
                };
                seq![gs.subrange(0, kk)] + split_rows(gs.subrange(kk + 1, gs.len() as int))
            },
        }
    }
}

/// The text a document saves as: every row's text followed by one line
/// terminator, in row order.
pub open spec fn doc_text(rows: Seq<Seq<Seq<char>>>) -> Seq<char>
    decreases rows.len(),
{
    if rows.len() == 0 {
        Seq::empty()
    } else {
        doc_text(rows.drop_last()) + concat_clusters(rows.last()) + seq!['\n']
    }
}

/// The rows after a newline is inserted at column `x` of row `y`
/// (`y <= rows.len()`): at the end-of-document slot a new empty row;
/// otherwise row `y` is cut at `x` (clamped to its length), the prefix
/// stays, and the suffix becomes the row after it.
pub open spec fn doc_newline(rows: Seq<Seq<Seq<char>>>, x: int, y: int) -> Seq<Seq<Seq<char>>> {
    if y == rows.len() {
        rows.push(Seq::empty())
    } else {
        let r = rows[y];
        let xx = if x <= r.len() {
            x
        } else {
            r.len() as int
        };
        rows.subrange(0, y) + seq![r.subrange(0, xx), r.subrange(xx, r.len() as int)]
            + rows.subrange(y + 1, rows.len() as int)
    }
}

/// The rows after a delete at column `x` of row `y` (`y < rows.len()`):
/// at the end-of-row column of a non-last row, the next row is merged in;
/// otherwise the cluster at `x` of row `y` is removed (nothing, past the
/// end).
pub open spec fn doc_deleted(rows: Seq<Seq<Seq<char>>>, x: int, y: int) -> Seq<Seq<Seq<char>>> {
    if x == rows[y].len() && y + 1 < rows.len() {
        rows.update(y, rows[y] + rows[y + 1]).remove(y + 1)
    } else {
        rows.update(y, crate::row::row_deleted(rows[y], x))
    }
}

/// Where a document search lands, scanning forward from row `y`, the
/// first row searched from column `x` and the later ones from their
/// start.
pub open spec fn doc_find_fwd(rows: Seq<Seq<Seq<char>>>, w: Seq<Seq<char>>, y: int, x: int) -> Option<
    (int, int),
>
    decreases rows.len() - y,
{
    if y < 0 || y >= rows.len() {
        Option::None
    } else {
        match row_find(rows[y], w, x, SearchDirection::Forward) {
            Option::Some(i) => Option::Some((y, i)),
            Option::None => doc_find_fwd(rows, w, y + 1, 0),
        }
    }
}

/// Where a document search lands, scanning backward from row `y` down to
/// the first row, the first row searched up to column `x` and the earlier
/// ones up to their end.
pub open spec fn doc_find_bwd(rows: Seq<Seq<Seq<char>>>, w: Seq<Seq<char>>, y: int, x: int) -> Option<
    (int, int),
>
    decreases y,
{
    if y < 0 || y >= rows.len() {
        Option::None
    } else {
        match row_find(rows[y], w, x, SearchDirection::Backward) {
            Option::Some(i) => Option::Some((y, i)),
            Option::None => if y == 0 {
                Option::None
            } else {
                doc_find_bwd(rows, w, y - 1, rows[y - 1].len() as int)
            },
        }
    }
}

/// Where a document search starting at (`x`, `y`) lands; a start row past
/// the end finds nothing.
pub open spec fn doc_find(
    rows: Seq<Seq<Seq<char>>>,
    w: Seq<Seq<char>>,
    x: int,
    y: int,
    direction: SearchDirection,
) -> Option<(int, int)> {
    if y >= rows.len() {
        Option::None
    } else {
        match direction {
            SearchDirection::Forward => doc_find_fwd(rows, w, y, x),
            SearchDirection::Backward => doc_find_bwd(rows, w, y, x),
        }
    }
}

pub proof fn lemma_doc_find_fwd_props(rows: Seq<Seq<Seq<char>>>, w: Seq<Seq<char>>, y: int, x: int)
    ensures
        doc_find_fwd(rows, w, y, x) matches Some(p) ==> y <= p.0 < rows.len() && 0 <= p.1
            && match_at(rows[p.0], w, p.1) && w.len() > 0,
    decreases rows.len() - y,
{
    if !(y < 0 || y >= rows.len()) {
        crate::search::lemma_row_find_props(rows[y], w, x, SearchDirection::Forward);
        if row_find(rows[y], w, x, SearchDirection::Forward) is None {
            lemma_doc_find_fwd_props(rows, w, y + 1, 0);
        }
    }
}

/// Search symmetry: when a forward search finds an occurrence at
/// (`qx`, `qy`), a backward search from one column past that occurrence's
/// end finds the very same occurrence again.
pub proof fn lemma_search_symmetry(
    rows: Seq<Seq<Seq<char>>>,
    w: Seq<Seq<char>>,
    x: int,
    y: int,
    qx: int,
    qy: int,
)
    requires
        doc_find(rows, w, x, y, SearchDirection::Forward) == Option::Some((qy, qx)),
    ensures
        doc_find(rows, w, qx + w.len(), qy, SearchDirection::Backward) == Option::Some((qy, qx)),
{
    lemma_doc_find_fwd_props(rows, w, y, x);
    let gs = rows[qy];
    assert(match_at(gs, w, qx));
    assert(qx + w.len() <= gs.len());
    assert(crate::search::last_match_at_or_below(gs, w, qx) == Option::Some(qx));
    assert(row_find(gs, w, qx + w.len(), SearchDirection::Backward) == Option::Some(qx));
}

/// An in-memory document: rows of text, a dirty flag, and the optional
/// name of the backing file.
pub struct Document {
    rows: Vec<Row>,
    dirty: bool,
    file_name: Option<String>,
}

impl View for Document {
    type V = Seq<Seq<Seq<char>>>;

    closed spec fn view(&self) -> Seq<Seq<Seq<char>>> {
        Seq::new(self.rows@.len(), |i: int| self.rows@[i]@)
    }
}

impl Default for Document {
    /// A new, empty, unsaved buffer.
    fn default() -> (d: Self)
        ensures
            d.wf(),
            d@ == Seq::<Seq<Seq<char>>>::empty(),
            !d.dirty_spec(),
            d.file_name_spec() is None,
    {
        let d = Document { rows: Vec::new(), dirty: false, file_name: None };
        proof {
            assert(d@ =~= Seq::<Seq<Seq<char>>>::empty());
        }
        d
    }
}

impl Document {
    /// Every row's cached length and tag sequence agree with its text.
    pub closed spec fn wf(&self) -> bool {
        forall|i: int| 0 <= i < self.rows@.len() ==> (#[trigger] self.rows@[i]).wf()
    }

    /// Whether the buffer holds unsaved changes.
    pub closed spec fn dirty_spec(&self) -> bool {
        self.dirty
    }

    /// The backing file name, if one is set.
    pub closed spec fn file_name_spec(&self) -> Option<Seq<char>> {
        match self.file_name {
            Option::Some(s) => Option::Some(s@),
            Option::None => Option::None,
        }
    }

    /// The tags of row `y` from its last highlight pass.
    pub closed spec fn row_tags_view(&self, y: int) -> Seq<HighlightTag> {
        self.rows@[y].tags_view()
    }

    /// A document loaded from the full text of a source, split into rows
    /// at terminator clusters; the buffer starts clean and remembers the
    /// source's name.
    pub fn open(contents: &str, file_name: &str) -> (d: Document)
        ensures
            d.wf(),
            d@ == split_rows(graphemes_of(contents@)),
            !d.dirty_spec(),
            d.file_name_spec() == Option::Some(file_name@),
            forall|y: int| 0 <= y < d@.len() ==> d.row_tags_view(y) == plain_tags(d@[y].len()),
    {
        let cs = segment(contents);
        let ghost full = cs.deep_view();
        let n = cs.len();
        let mut rows: Vec<Row> = Vec::new();
        let mut cur: Vec<String> = Vec::new();
        let ghost start: int = 0;
        let mut i: usize = 0;
        proof {
            assert(full.subrange(0, n as int) =~= full);
            assert(Seq::new(rows@.len(), |k: int| rows@[k]@) + split_rows(full) =~= split_rows(
                full,
            ));
        }
        while i < n
            invariant
                n == full.len(),
                full == cs.deep_view(),
                0 <= start <= i <= n,
                cur@.len() == i - start,
                forall|j: int| 0 <= j < i - start ==> #[trigger] cur.deep_view()[j] == full[start
                    + j],
                forall|j: int| start <= j < i ==> !is_terminator_cluster(#[trigger] full[j]),
                split_rows(full) == Seq::new(rows@.len(), |k: int| rows@[k]@) + split_rows(
                    full.subrange(start, n as int),
                ),
                forall|k: int| 0 <= k < rows@.len() ==> (#[trigger] rows@[k]).wf(),
                forall|k: int|
                    0 <= k < rows@.len() ==> (#[trigger] rows@[k]).tags_view() == plain_tags(
                        rows@[k]@.len(),
                    ),
            decreases n - i,
        {
            if is_terminator_g(&cs[i]) {
                proof {
                    assert(cur.deep_view() =~= full.subrange(start, i as int));
                    let rest = full.subrange(start, n as int);
                    lemma_first_term_from_props(rest, 0);
                    assert(is_terminator_cluster(rest[i - start]));
                    assert(first_term_from(rest, 0) == Option::Some(i - start)) by {
                        match first_term_from(rest, 0) {
                            Option::None => {
                                assert(!is_terminator_cluster(rest[i - start]));
                            },
                            Option::Some(k) => {
                                if k < i - start {
                                    assert(!is_terminator_cluster(full[start + k]));
                                    assert(rest[k] == full[start + k]);
                                } else if k > i - start {
                                    assert(!is_terminator_cluster(rest[i - start]));
                                }
                            },
                        }
                    }
                    assert(rest.subrange(0, i - start) =~= full.subrange(start, i as int));
                    assert(rest.subrange(i - start + 1, rest.len() as int) =~= full.subrange(
                        i + 1,
                        n as int,
                    ));
                }
                let ghost rows0 = Seq::new(rows@.len(), |k: int| rows@[k]@);
                let row = Row::from_clusters(cur);
                rows.push(row);
                cur = Vec::new();
                proof {
                    let rest = full.subrange(start, n as int);
                    assert(split_rows(rest) == seq![rest.subrange(0, i - start)] + split_rows(
                        rest.subrange(i - start + 1, rest.len() as int),
                    ));
                    assert(Seq::new(rows@.len(), |k: int| rows@[k]@) =~= rows0.push(
                        full.subrange(start, i as int),
                    ));
                    assert(rows0.push(full.subrange(start, i as int)) =~= rows0 + seq![
                        full.subrange(start, i as int),
                    ]);
                    assert(split_rows(full) =~= Seq::new(rows@.len(), |k: int| rows@[k]@)
                        + split_rows(full.subrange(i + 1, n as int)));
                    start = i + 1;
                }
            } else {
                let ghost cur0 = cur.deep_view();
                cur.push(cs[i].clone());
                proof {
                    assert(cur@.len() == cur0.len() + 1);
                    assert forall|j: int| 0 <= j < (i + 1) - start implies #[trigger] cur.deep_view()[j]
                        == full[start + j] by {
                        if j < cur0.len() {
                            assert(cur.deep_view()[j] == cur0[j]);
                        } else {
                            assert(cur.deep_view()[j] == cs.deep_view()[i as int]);
                        }
                    }
                }
            }
            i += 1;
        }
        let m = cur.len();
        if m > 0 {
            proof {
                assert(cur.deep_view() =~= full.subrange(start, n as int));
                let rest = full.subrange(start, n as int);
                lemma_first_term_from_props(rest, 0);
                assert(forall|j: int|
                    0 <= j < rest.len() ==> !is_terminator_cluster(#[trigger] rest[j]));
                match first_term_from(rest, 0) {
                    Option::None => {},
                    Option::Some(k) => {
                        assert(is_terminator_cluster(rest[k]));
                    },
                }
                assert(split_rows(rest) == seq![rest]);
            }
            let ghost rows0 = Seq::new(rows@.len(), |k: int| rows@[k]@);
            let row = Row::from_clusters(cur);
            rows.push(row);
            proof {
                assert(Seq::new(rows@.len(), |k: int| rows@[k]@) =~= rows0 + seq![
                    full.subrange(start, n as int),
                ]);
                assert(split_rows(full) =~= Seq::new(rows@.len(), |k: int| rows@[k]@));
            }
        } else {
            proof {
                assert(full.subrange(start, n as int) =~= Seq::<Seq<char>>::empty());
                assert(split_rows(full.subrange(start, n as int)) == Seq::<Seq<Seq<char>>>::empty());
                assert(Seq::new(rows@.len(), |k: int| rows@[k]@) + Seq::<Seq<Seq<char>>>::empty()
                    =~= Seq::new(rows@.len(), |k: int| rows@[k]@));
            }
        }
        let d = Document { rows, dirty: false, file_name: Some(file_name.to_owned()) };
        proof {
            assert(d@ =~= Seq::new(d.rows@.len(), |k: int| d.rows@[k]@));
        }
        d
    }

    /// The text the document saves as: every row followed by one line
    /// terminator. Writing it out is the caller's concern; on a completed
    /// write the caller records the save with [`Self::mark_saved`].
    pub fn save_content(&self) -> (s: String)
        requires
            self.wf(),
        ensures
            s@ == doc_text(self@),
    {
        let mut s = String::new();
        let n = self.rows.len();
        let mut y: usize = 0;
        while y < n
            invariant
                self.wf(),
                n == self@.len(),
                0 <= y <= n,
                s@ == doc_text(self@.subrange(0, y as int)),
            decreases n - y,
        {
            let line = self.rows[y].contents();
            s.append(line.as_str());
            s.append("\n");
            proof {
                reveal_strlit("\n");
                assert("\n"@ =~= seq!['\n']);
                assert(self@.subrange(0, y + 1).drop_last() =~= self@.subrange(0, y as int));
                assert(self@.subrange(0, y + 1).last() == self@[y as int]);
            }
            y += 1;
        }
        proof {
            assert(self@.subrange(0, n as int) =~= self@);
        }
        s
    }

    /// Record that the buffer was written out: the dirty flag clears,
    /// nothing else changes.
    pub fn mark_saved(&mut self)
        ensures
            final (self)@ == old(self)@,
            old(self).wf() ==> final (self).wf(),
            !final (self).dirty_spec(),
            final (self).file_name_spec() == old(self).file_name_spec(),
            forall|y: int| final (self).row_tags_view(y) == old(self).row_tags_view(y),
    {
        self.dirty = false;
    }

    /// The backing file name.
    pub fn file_name(&self) -> (r: &Option<String>)
        ensures
            r is Some <==> self.file_name_spec() is Some,
            r matches Some(s) ==> self.file_name_spec() == Option::Some(s@),
    {
        &self.file_name
    }

    /// Set or clear the backing file name, for save-as.
    pub fn set_file_name(&mut self, name: Option<String>)
        ensures
            final (self)@ == old(self)@,
            old(self).wf() ==> final (self).wf(),
            final (self).dirty_spec() == old(self).dirty_spec(),
            (match name {
                Option::Some(s) => final (self).file_name_spec() == Option::Some(s@),
                Option::None => final (self).file_name_spec() is None,
            }),
            forall|y: int| final (self).row_tags_view(y) == old(self).row_tags_view(y),
    {
        self.file_name = name;
    }

    /// The number of rows.
    pub fn len(&self) -> (n: usize)
        ensures
            n == self@.len(),
    {
        self.rows.len()
    }

    pub fn is_empty(&self) -> (b: bool)
        ensures
            b == (self@.len() == 0),
    {
        self.rows.is_empty()
    }

    pub fn is_dirty(&self) -> (b: bool)
        ensures
            b == self.dirty_spec(),
    {
        self.dirty
    }

    /// The row at index `y`, if there is one.
    pub fn row(&self, index: usize) -> (r: Option<&Row>)
        requires
            self.wf(),
        ensures
            r is Some <==> index < self@.len(),
            r matches Some(rw) ==> rw@ == self@[index as int] && rw.wf() && rw.tags_view()
                == self.row_tags_view(index as int),
    {
        if index < self.rows.len() {
            Some(&self.rows[index])
        } else {
            None
        }
    }

    /// The cluster count of the row at index `y`, if there is one.
    pub fn row_len(&self, index: usize) -> (r: Option<usize>)
        requires
            self.wf(),
        ensures
            r is Some <==> index < self@.len(),
            r matches Some(n) ==> n == self@[index as int].len(),
    {
        if index < self.rows.len() {
            Some(self.rows[index].len())
        } else {
            None
        }
    }

    /// Insert the character `c` at position `at`: a line terminator
    /// becomes a newline insertion; otherwise the character enters row
    /// `at.y` at column `at.x`, a fresh one-character row being opened at
    /// the end-of-document slot. A row more than one past the end changes
    /// nothing; anything else sets the dirty flag.
    pub fn insert(&mut self, at: &Position, c: char)
        requires
            old(self).wf(),
        ensures
            final (self).wf(),
            final (self).file_name_spec() == old(self).file_name_spec(),
            at.y > old(self)@.len() ==> final (self)@ == old(self)@ && final (self).dirty_spec()
                == old(self).dirty_spec(),
            at.y <= old(self)@.len() ==> final (self).dirty_spec(),
            at.y <= old(self)@.len() && c == '\n' ==> final (self)@ == doc_newline(
                old(self)@,
                at.x as int,
                at.y as int,
            ) && final (self)@.len() == old(self)@.len() + 1,
            at.y == old(self)@.len() && c != '\n' ==> final (self)@ == old(self)@.push(
                seq![seq![c]],
            ) && final (self)@.len() == old(self)@.len() + 1,
            at.y < old(self)@.len() && c != '\n' ==> final (self)@ == old(self)@.update(
                at.y as int,
                row_inserted(old(self)@[at.y as int], at.x as int, c),
            ) && final (self)@.len() == old(self)@.len(),
    {
        let n = self.rows.len();
        if at.y > n {
            return ;
        }
        if c == '\n' {
            self.insert_newline(at);
            return ;
        }
        self.dirty = true;
        if at.y == n {
            let mut row = Row::default();
            row.insert(0, c);
            self.rows.push(row);
            proof {
                assert(row@ =~= seq![seq![c]]);
                assert(self@ =~~= old(self)@.push(seq![seq![c]]));
            }
        } else {
            let row = &mut self.rows[at.y];
            row.insert(at.x, c);
            proof {
                assert(self@ =~~= old(self)@.update(
                    at.y as int,
                    row_inserted(old(self)@[at.y as int], at.x as int, c),
                ));
            }
        }
    }

    /// Delete at position `at`: at the end-of-row column of a non-last
    /// row the next row merges into this one and the row count drops by
    /// one; otherwise the cluster at `at.x` of row `at.y` is removed
    /// (nothing, past the end). A row past the end changes nothing;
    /// anything else sets the dirty flag.
    pub fn delete(&mut self, at: &Position)
        requires
            old(self).wf(),
        ensures
            final (self).wf(),
            final (self).file_name_spec() == old(self).file_name_spec(),
            at.y >= old(self)@.len() ==> final (self)@ == old(self)@ && final (self).dirty_spec()
                == old(self).dirty_spec(),
            at.y < old(self)@.len() ==> final (self).dirty_spec() && final (self)@ == doc_deleted(
                old(self)@,
                at.x as int,
                at.y as int,
            ),
            at.y < old(self)@.len() && at.x == old(self)@[at.y as int].len() && at.y + 1 < old(
                self,
            )@.len() ==> final (self)@.len() == old(self)@.len() - 1,
            at.y < old(self)@.len() && !(at.x == old(self)@[at.y as int].len() && at.y + 1 < old(
                self,
            )@.len()) ==> final (self)@.len() == old(self)@.len(),
    {
        let n = self.rows.len();
        if at.y >= n {
            return ;
        }
        self.dirty = true;
        let row_count = self.rows[at.y].len();
        if at.x == row_count && at.y + 1 < n {
            let next = self.rows.remove(at.y + 1);
            let row = &mut self.rows[at.y];
            row.append(&next);
            proof {
                assert(self@ =~~= old(self)@.update(
                    at.y as int,
                    old(self)@[at.y as int] + old(self)@[at.y + 1],
                ).remove(at.y + 1));
            }
        } else {
            let row = &mut self.rows[at.y];
            row.delete(at.x);
            proof {
                assert(self@ =~~= old(self)@.update(
                    at.y as int,
                    crate::row::row_deleted(old(self)@[at.y as int], at.x as int),
                ));
            }
        }
    }

    /// Insert a newline at position `at`: at the end-of-document slot a
    /// new empty row appends; otherwise row `at.y` is cut at column
    /// `at.x`, the prefix stays and the suffix becomes the row after it,
    /// so the row count grows by one. A row more than one past the end
    /// changes nothing; anything else sets the dirty flag.
    pub fn insert_newline(&mut self, at: &Position)
        requires
            old(self).wf(),
        ensures
            final (self).wf(),
            final (self).file_name_spec() == old(self).file_name_spec(),
            at.y > old(self)@.len() ==> final (self)@ == old(self)@ && final (self).dirty_spec()
                == old(self).dirty_spec(),
            at.y <= old(self)@.len() ==> final (self).dirty_spec() && final (self)@ == doc_newline(
                old(self)@,
                at.x as int,
                at.y as int,
            ) && final (self)@.len() == old(self)@.len() + 1,
    {
        let n = self.rows.len();
        if at.y > n {
            return ;
        }
        self.dirty = true;
        if at.y == n {
            self.rows.push(Row::default());
            proof {
                assert(self@ =~~= old(self)@.push(Seq::<Seq<char>>::empty()));
            }
            return ;
        }
        let row = &mut self.rows[at.y];
        let new_row = row.split(at.x);
        self.rows.insert(at.y + 1, new_row);
        proof {
            if at.x > old(self)@[at.y as int].len() {
                assert(old(self)@[at.y as int].subrange(
                    0,
                    old(self)@[at.y as int].len() as int,
                ) =~= old(self)@[at.y as int]);
            }
            assert(self@ =~~= doc_newline(old(self)@, at.x as int, at.y as int));
        }
    }

    /// Search the document from position `at` in the given direction:
    /// forward over rows `at.y` to the last, backward over rows `at.y`
    /// down to the first, each row searched by [`Row::find`]. The answer,
    /// if any, is the position of an occurrence of the whole query.
    pub fn find(&self, query: &str, at: &Position, direction: SearchDirection) -> (r: Option<
        Position,
    >)
        requires
            self.wf(),
        ensures
            r is None <==> doc_find(
                self@,
                graphemes_of(query@),
                at.x as int,
                at.y as int,
                direction,
            ) is None,
            r matches Some(p) ==> doc_find(
                self@,
                graphemes_of(query@),
                at.x as int,
                at.y as int,
                direction,
            ) == Option::Some((p.y as int, p.x as int)),
            r matches Some(p) ==> p.y < self@.len() && match_at(
                self@[p.y as int],
                graphemes_of(query@),
                p.x as int,
            ),
    {
        let n = self.rows.len();
        if at.y >= n {
            return None;
        }
        let ghost qd = graphemes_of(query@);
        match direction {
            SearchDirection::Forward => {
                let mut y: usize = at.y;
                let mut x: usize = at.x;
                while y < n
                    invariant
                        self.wf(),
                        n == self@.len(),
                        at.y < n,
                        at.y <= y <= n,
                        direction is Forward,
                        qd == graphemes_of(query@),
                        doc_find_fwd(self@, qd, at.y as int, at.x as int) == doc_find_fwd(
                            self@,
                            qd,
                            y as int,
                            x as int,
                        ),
                    decreases n - y,
                {
                    let rf = self.rows[y].find(query, x, SearchDirection::Forward);
                    if let Some(i) = rf {
                        proof {
                            assert(row_find(self@[y as int], qd, x as int, SearchDirection::Forward)
                                == Option::Some(i as int));
                            assert(doc_find_fwd(self@, qd, y as int, x as int) == Option::Some(
                                (y as int, i as int),
                            ));
                            crate::search::lemma_row_find_props(
                                self@[y as int],
                                qd,
                                x as int,
                                SearchDirection::Forward,
                            );
                        }
                        return Some(Position { x: i, y });
                    }
                    proof {
                        assert(doc_find_fwd(self@, qd, y as int, x as int) == doc_find_fwd(
                            self@,
                            qd,
                            y + 1,
                            0,
                        ));
                    }
                    y += 1;
                    x = 0;
                }
                proof {
                    assert(doc_find_fwd(self@, qd, n as int, 0) is None);
                }
                None
            },
            SearchDirection::Backward => {
                let mut y: usize = at.y;
                let mut x: usize = at.x;
                loop
                    invariant
                        self.wf(),
                        n == self@.len(),
                        at.y < n,
                        0 <= y < n,
                        direction is Backward,
                        qd == graphemes_of(query@),
                        doc_find_bwd(self@, qd, at.y as int, at.x as int) == doc_find_bwd(
                            self@,
                            qd,
                            y as int,
                            x as int,
                        ),
                    decreases y,
                {
                    let rf = self.rows[y].find(query, x, SearchDirection::Backward);
                    if let Some(i) = rf {
                        proof {
                            assert(row_find(
                                self@[y as int],
                                qd,
                                x as int,
                                SearchDirection::Backward,
                            ) == Option::Some(i as int));
                            assert(doc_find_bwd(self@, qd, y as int, x as int) == Option::Some(
                                (y as int, i as int),
                            ));
                            crate::search::lemma_row_find_props(
                                self@[y as int],
                                qd,
                                x as int,
                                SearchDirection::Backward,
                            );
                        }
                        return Some(Position { x: i, y });
                    }
                    if y == 0 {
                        proof {
                            assert(doc_find_bwd(self@, qd, 0, x as int) is None);
                        }
                        return None;
                    }
                    proof {
                        assert(doc_find_bwd(self@, qd, y as int, x as int) == doc_find_bwd(
                            self@,
                            qd,
                            y - 1,
                            self@[y - 1].len() as int,
                        ));
                    }
                    y -= 1;
                    x = self.rows[y].len();
                }
            },
        }
    }

    /// Search forward for the query from the start of the document.
    pub fn find_from_start(&self, query: &str) -> (r: Option<Position>)
        requires
            self.wf(),
        ensures
            r is None <==> doc_find(
                self@,
                graphemes_of(query@),
                0,
                0,
                SearchDirection::Forward,
            ) is None,
            r matches Some(p) ==> doc_find(
                self@,
                graphemes_of(query@),
                0,
                0,
                SearchDirection::Forward,
            ) == Option::Some((p.y as int, p.x as int)),
            r matches Some(p) ==> p.y < self@.len() && match_at(
                self@[p.y as int],
                graphemes_of(query@),
                p.x as int,
            ),
    {
        self.find(query, &Position { x: 0, y: 0 }, SearchDirection::Forward)
    }

    /// Recompute every row's tags with the same options and search word,
    /// as when the active search term changes.
    pub fn highlight(&mut self, options: HighlightOptions, word: Option<&str>)
        requires
            old(self).wf(),
        ensures
            final (self).wf(),
            final (self)@ == old(self)@,
            final (self).dirty_spec() == old(self).dirty_spec(),
            final (self).file_name_spec() == old(self).file_name_spec(),
            forall|y: int|
                0 <= y < old(self)@.len() ==> final (self).row_tags_view(y) == line_tags(
                    old(self)@[y],
                    options.numbers,
                    word_clusters(word),
                ),
    {
        let n = self.rows.len();
        let mut y: usize = 0;
        while y < n
            invariant
                n == self@.len(),
                0 <= y <= n,
                self.wf(),
                self@ == old(self)@,
                self.dirty_spec() == old(self).dirty_spec(),
                self.file_name_spec() == old(self).file_name_spec(),
                forall|k: int|
                    0 <= k < y ==> self.row_tags_view(k) == line_tags(
                        old(self)@[k],
                        options.numbers,
                        word_clusters(word),
                    ),
            decreases n - y,
        {
            let ghost pre = self.rows@;
            let ghost view0 = self@;
            let ghost self0 = *self;
            let row = &mut self.rows[y];
            row.highlight(options, word);
            proof {
                assert(self@ =~= old(self)@);
                assert(self.rows@[y as int].tags_view() == line_tags(
                    pre[y as int]@,
                    options.numbers,
                    word_clusters(word),
                ));
                assert(pre[y as int]@ == view0[y as int]);
                assert(view0[y as int] == old(self)@[y as int]);
                assert(self.row_tags_view(y as int) == line_tags(
                    old(self)@[y as int],
                    options.numbers,
                    word_clusters(word),
                ));
                assert forall|k: int| 0 <= k < y implies self.row_tags_view(k) == line_tags(
                    old(self)@[k],
                    options.numbers,
                    word_clusters(word),
                ) by {
                    assert(self0.row_tags_view(k) == line_tags(
                        old(self)@[k],
                        options.numbers,
                        word_clusters(word),
                    ));
                    assert(self.rows@[k] == pre[k]);
                    assert(self.row_tags_view(k) == self0.row_tags_view(k));
                }
            }
            y += 1;
        }
    }
}

} // verus!
