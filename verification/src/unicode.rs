//! The boundary to the `unicode_segmentation` crate: grapheme-cluster
//! segmentation of plain text.

use vstd::prelude::*;

use unicode_segmentation::UnicodeSegmentation;

use crate::cluster::concat_clusters;

verus! {

/// The extended grapheme clusters of a character sequence, in order.
/// Segmentation follows fixed tables, so the result depends on the
/// characters alone; it is named here rather than written out.
pub uninterp spec fn graphemes_of(s: Seq<char>) -> Seq<Seq<char>>;

/// Relies on `UnicodeSegmentation::graphemes` (extended clusters) of the
/// `unicode_segmentation` crate: the iterator yields consecutive non-empty
/// substrings of `s` whose concatenation is exactly `s`.
#[verifier::external_body]
pub(crate) fn segment(s: &str) -> (r: Vec<String>)
    ensures
        r.deep_view() == graphemes_of(s@),
        concat_clusters(r.deep_view()) == s@,
        forall|i: int| 0 <= i < r.deep_view().len() ==> #[trigger] r.deep_view()[i].len() > 0,
{
    s.graphemes(true).map(String::from).collect()
}

/// Relies on `String::from(char)`: the returned string holds exactly the
/// one character given.
#[verifier::external_body]
pub(crate) fn char_to_string(c: char) -> (r: String)
    ensures
        r@ == seq![c],
{
    String::from(c)
}

} // verus!
