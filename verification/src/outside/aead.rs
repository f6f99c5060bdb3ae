//! Authenticated encryption: `chacha20poly1305`.
use chacha20poly1305::{ChaCha20Poly1305, Key, Nonce};
use chacha20poly1305::aead::{Aead, KeyInit, Payload};
use vstd::prelude::*;

verus! {

/// The ciphertext, with its tag, of `msg` under a key, a nonce and associated data.
pub uninterp spec fn chacha_sealed(key: Seq<u8>, nonce: Seq<u8>, aad: Seq<u8>, msg: Seq<u8>) -> Seq<
    u8,
>;

/// The message inside a ciphertext, when its tag is right for the key, the nonce and the data.
pub uninterp spec fn chacha_plaintext(
    key: Seq<u8>,
    nonce: Seq<u8>,
    aad: Seq<u8>,
    ciphertext: Seq<u8>,
) -> Option<Seq<u8>>;

/// The longest message: the block counter starts at one and leaves room for two blocks fewer than
/// it has values.
pub const CHACHA_MESSAGE_LIMIT: u64 = 274_877_906_816;

/// How much longer than its message a ciphertext is.
pub const CHACHA_TAG_LEN: u64 = 16;

/// `ChaCha20Poly1305::encrypt`, for a message within the limit (just beyond it the key stream
/// panics): the ciphertext is a function of the arguments, is 16 bytes longer than the message, and
/// decrypts to the message under the same key, nonce and associated data.
#[verifier::external_body]
pub(crate) fn chacha_encrypt(key: &[u8; 32], nonce: &[u8; 12], aad: &[u8], msg: &[u8]) -> (ct: Vec<
    u8,
>)
    requires
        msg@.len() <= CHACHA_MESSAGE_LIMIT,
    ensures
        ct@ == chacha_sealed(key@, nonce@, aad@, msg@),
        ct@.len() == msg@.len() + CHACHA_TAG_LEN,
        chacha_plaintext(key@, nonce@, aad@, ct@) == Some(msg@),
{
    let cipher = ChaCha20Poly1305::new(Key::from_slice(key));
    cipher.encrypt(Nonce::from_slice(nonce), Payload { msg, aad }).expect("within the limit")
}

/// `ChaCha20Poly1305::decrypt`, for a ciphertext within the limit: the outcome is a function of the
/// arguments; what opens is 16 bytes longer than the message inside.
#[verifier::external_body]
pub(crate) fn chacha_decrypt(
    key: &[u8; 32],
    nonce: &[u8; 12],
    aad: &[u8],
    ciphertext: &[u8],
) -> (out: Option<Vec<u8>>)
    requires
        ciphertext@.len() <= CHACHA_MESSAGE_LIMIT + CHACHA_TAG_LEN,
    ensures
        match (out, chacha_plaintext(key@, nonce@, aad@, ciphertext@)) {
            (Some(m), Some(v)) => m@ == v,
            (None, None) => true,
            _ => false,
        },
        out matches Some(m) ==> ciphertext@.len() == m@.len() + CHACHA_TAG_LEN,
{
    let cipher = ChaCha20Poly1305::new(Key::from_slice(key));
    cipher.decrypt(Nonce::from_slice(nonce), Payload { msg: ciphertext, aad }).ok()
}

} // verus!
