//! Invented names: `fake`.
use crate::util::text::is_word;
use fake::Fake;
use fake::faker::name::raw::FirstName;
use fake::locales::FR_FR;
use vstd::prelude::*;

verus! {

/// `fake::faker::name::raw::FirstName` with the French list: any first name of the list may come
/// back, and each of them is one word.
#[verifier::external_body]
pub(crate) fn random_first_name() -> (name: String)
    ensures
        is_word(name@),
{
    FirstName(FR_FR).fake()
}

} // verus!
