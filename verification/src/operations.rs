//! Operations of the language on its values, as far as they are made of
//! whole numbers and text.
//!
//! A string is indexed by grapheme clusters, the units that a reader takes
//! for single characters. Where one cluster ends and the next begins is
//! decided by the `unicode-segmentation` crate.

use vstd::prelude::*;
use unicode_segmentation::UnicodeSegmentation;

verus! {

/// The extended grapheme clusters of a text, in order, as
/// `UnicodeSegmentation::graphemes` of the `unicode-segmentation` crate
/// yields them.
pub uninterp spec fn grapheme_clusters(text: Seq<char>) -> Seq<Seq<char>>;

/// The strings in `strings` as sequences of characters.
pub open spec fn texts_view(strings: Seq<String>) -> Seq<Seq<char>> {
    Seq::new(strings.len(), |i: int| strings[i]@)
}

/// Calls `UnicodeSegmentation::graphemes` with `is_extended` set and copies
/// each cluster into a string of its own. The clusters are those of
/// [`grapheme_clusters`], by which the result of that call is named.
#[verifier::external_body]
fn graphemes(text: &str) -> (clusters: Vec<String>)
    ensures
        texts_view(clusters@) == grapheme_clusters(text@),
{
    UnicodeSegmentation::graphemes(text, true).map(String::from).collect()
}

/// An index that lies behind the last grapheme cluster of a string.
#[derive(Debug, Clone, Copy, PartialEq, Eq, Structural)]
pub struct OutOfBound {
    /// The position that was asked for, counted from the start.
    pub position: usize,
}

/// The position that an index stands for in a text of `len` bytes: the index
/// itself, or, for a negative index, as far before the end as the index is
/// below zero.
pub open spec fn position_of(len: usize, negative: bool, magnitude: usize) -> int {
    if negative {
        len - magnitude
    } else {
        magnitude as int
    }
}

/// What is found at `position` among the clusters: the cluster there, or the
/// position itself where it lies behind the last one.
pub open spec fn selected(clusters: Seq<Seq<char>>, position: usize) -> Result<Seq<char>, OutOfBound> {
    if position < clusters.len() {
        Ok(clusters[position as int])
    } else {
        Err(OutOfBound { position: position })
    }
}

/// Picks the cluster at `position`.
pub fn select(clusters: &Vec<String>, position: usize) -> (r: Result<String, OutOfBound>)
    ensures
        match selected(texts_view(clusters@), position) {
            Ok(cluster) => r matches Ok(s) && s@ == cluster,
            Err(e) => r == Err::<String, OutOfBound>(e),
        },
{
    if position < clusters.len() {
        Ok(clusters[position].clone())
    } else {
        Err(OutOfBound { position: position })
    }
}

/// The number of grapheme clusters of a text.
pub fn grapheme_count(text: &str) -> (n: usize)
    ensures
        n == grapheme_clusters(text@).len(),
{
    graphemes(text).len()
}

/// Indexes a string: the result is the grapheme cluster at the position
/// that the index stands for.
///
/// A negative index counts back from the length of the text in bytes and
/// must not reach before its start.
pub fn index(text: &str, negative: bool, magnitude: usize) -> (r: Result<String, OutOfBound>)
    requires
        negative ==> magnitude <= text.len(),
    ensures
        match selected(
            grapheme_clusters(text@),
            position_of(text.len(), negative, magnitude) as usize,
        ) {
            Ok(cluster) => r matches Ok(s) && s@ == cluster,
            Err(e) => r == Err::<String, OutOfBound>(e),
        },
{
    let position = if negative {
        text.len() - magnitude
    } else {
        magnitude
    };
    select(&graphemes(text), position)
}

} // verus!
