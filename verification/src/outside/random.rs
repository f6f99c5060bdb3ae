//! Random values: `rand` and `uuid`.
use rand::{Rng, RngCore};
use rand::distr::Alphanumeric;
use uuid::Uuid;
use vstd::prelude::*;

verus! {

/// `rand::rng().fill_bytes`: any 32 bytes may come back.
#[verifier::external_body]
pub(crate) fn random_bytes32() -> [u8; 32] {
    let mut bytes = [0u8; 32];
    rand::rng().fill_bytes(&mut bytes);
    bytes
}

/// `rand::rng().fill_bytes`: any bytes of the given number may come back. No vector holds more than
/// `isize::MAX` bytes.
#[verifier::external_body]
pub(crate) fn random_bytes(len: usize) -> (bytes: Vec<u8>)
    requires
        len <= isize::MAX,
    ensures
        bytes@.len() == len,
{
    let mut bytes = vec![0u8; len];
    rand::rng().fill_bytes(&mut bytes);
    bytes
}

/// Whether `text` is a run of lower-case hexadecimal digits.
pub open spec fn lower_hex(text: Seq<char>) -> bool {
    forall|i: int|
        0 <= i < text.len() ==> (('0' <= #[trigger] text[i] && text[i] <= '9') || ('a' <= text[i]
            && text[i] <= 'f'))
}

/// `uuid::Uuid::new_v4().simple()`: 32 lower-case hexadecimal digits, any of which may come back.
#[verifier::external_body]
pub(crate) fn fresh_id() -> (id: String)
    ensures
        id@.len() == 32,
        lower_hex(id@),
{
    Uuid::new_v4().simple().to_string()
}

/// Whether every character is a letter or a digit of ASCII.
pub open spec fn alphanumeric(text: Seq<char>) -> bool {
    forall|i: int|
        0 <= i < text.len() ==> (('0' <= #[trigger] text[i] && text[i] <= '9') || ('a' <= text[i]
            && text[i] <= 'z') || ('A' <= text[i] && text[i] <= 'Z'))
}

/// `rand::rng().sample_iter(&Alphanumeric)`: letters and digits of ASCII, any of which may come
/// back. No string holds more than `isize::MAX` bytes.
#[verifier::external_body]
pub(crate) fn random_alphanumeric(len: usize) -> (text: String)
    requires
        len <= isize::MAX,
    ensures
        text@.len() == len,
        alphanumeric(text@),
{
    rand::rng().sample_iter(&Alphanumeric).take(len).map(char::from).collect()
}

/// `rand::rng().random_range(0..n)`: any number below `n` may come back. It panics when there is
/// none.
#[verifier::external_body]
pub(crate) fn random_below(n: usize) -> (i: usize)
    requires
        n > 0,
    ensures
        i < n,
{
    rand::rng().random_range(0..n)
}

} // verus!
