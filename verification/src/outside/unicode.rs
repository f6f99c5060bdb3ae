//! Text as it is read and shown: `unicode-segmentation` and `unicode-width`.
use crate::util::text::views;
use unicode_segmentation::UnicodeSegmentation;
use unicode_width::UnicodeWidthStr;
use vstd::prelude::*;

verus! {

/// The extended grapheme clusters of a text.
pub uninterp spec fn clusters(text: Seq<char>) -> Seq<Seq<char>>;

/// How many columns a text takes.
pub uninterp spec fn columns(text: Seq<char>) -> usize;

/// Texts one after the other.
pub open spec fn flat(parts: Seq<Seq<char>>) -> Seq<char>
    decreases parts.len(),
{
    if parts.len() == 0 {
        Seq::empty()
    } else {
        flat(parts.drop_last()) + parts.last()
    }
}

/// `unicode_segmentation::UnicodeSegmentation::graphemes` with extended clusters: the clusters are a
/// function of the text; one after the other they are the text, and none is empty.
#[verifier::external_body]
pub(crate) fn graphemes(text: &str) -> (out: Vec<String>)
    ensures
        views(out@) == clusters(text@),
        flat(views(out@)) == text@,
        forall|i: int| 0 <= i < out@.len() ==> (#[trigger] out@[i])@.len() > 0,
{
    text.graphemes(true).map(str::to_owned).collect()
}

/// `unicode_width::UnicodeWidthStr::width`: a function of the text.
#[verifier::external_body]
pub(crate) fn width(text: &str) -> (w: usize)
    ensures
        w == columns(text@),
{
    text.width()
}

} // verus!
