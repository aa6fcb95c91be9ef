use unicode_segmentation::UnicodeSegmentation;
use vstd::prelude::*;

verus! {

/// The extended grapheme clusters (Unicode Standard Annex #29) of a text,
/// in order.
pub uninterp spec fn extended_graphemes(text: Seq<char>) -> Seq<Seq<char>>;

/// Splits `text` into its extended grapheme clusters.
///
/// Trusted: calls `UnicodeSegmentation::graphemes(text, true)`. The contract
/// claims that the clusters are the named result, that they are non-empty,
/// and that they are consecutive slices of `text` covering it, which is how
/// the crate's cursor produces them.
#[verifier::external_body]
pub(crate) fn grapheme_clusters<'a>(text: &'a str) -> (clusters: Vec<&'a str>)
    ensures
        clusters@.map_values(|g: &str| g@) == extended_graphemes(text@),
        clusters@.map_values(|g: &str| g@).flatten() == text@,
        forall|i: int| 0 <= i < clusters@.len() ==> (#[trigger] clusters@[i])@.len() > 0,
{
    text.graphemes(true).collect()
}

} // verus!
