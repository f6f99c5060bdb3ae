//! Authenticated encryption of messages of every length.
use crate::outside::aead::{
    chacha_decrypt, chacha_encrypt, chacha_plaintext, chacha_sealed, CHACHA_MESSAGE_LIMIT,
    CHACHA_TAG_LEN,
};
use vstd::prelude::*;

verus! {

/// Whether a message is short enough to be sealed.
pub open spec fn sealable(msg: Seq<u8>) -> bool {
    msg.len() <= CHACHA_MESSAGE_LIMIT
}

/// The message inside a ciphertext: none in one that is too long, or whose tag is wrong for the key,
/// the nonce and the data.
pub open spec fn chacha_opened(
    key: Seq<u8>,
    nonce: Seq<u8>,
    aad: Seq<u8>,
    ciphertext: Seq<u8>,
) -> Option<Seq<u8>> {
    if ciphertext.len() <= CHACHA_MESSAGE_LIMIT + CHACHA_TAG_LEN {
        chacha_plaintext(key, nonce, aad, ciphertext)
    } else {
        None
    }
}

/// Seals a message, unless it is too long.
pub fn chacha_seal(key: &[u8; 32], nonce: &[u8; 12], aad: &[u8], msg: &[u8]) -> (out: Option<
    Vec<u8>,
>)
    ensures
        out is Some <==> sealable(msg@),
        out matches Some(ct) ==> {
            &&& ct@ == chacha_sealed(key@, nonce@, aad@, msg@)
            &&& ct@.len() == msg@.len() + CHACHA_TAG_LEN
            &&& chacha_opened(key@, nonce@, aad@, ct@) == Some(msg@)
        },
{
    if msg.len() as u64 > CHACHA_MESSAGE_LIMIT {
        return None;
    }
    Some(chacha_encrypt(key, nonce, aad, msg))
}

/// Opens a ciphertext.
pub fn chacha_open(key: &[u8; 32], nonce: &[u8; 12], aad: &[u8], ciphertext: &[u8]) -> (out: Option<
    Vec<u8>,
>)
    ensures
        match (out, chacha_opened(key@, nonce@, aad@, ciphertext@)) {
            (Some(m), Some(v)) => m@ == v,
            (None, None) => true,
            _ => false,
        },
        out matches Some(m) ==> ciphertext@.len() == m@.len() + CHACHA_TAG_LEN,
{
    if ciphertext.len() as u64 > CHACHA_MESSAGE_LIMIT + CHACHA_TAG_LEN {
        return None;
    }
    chacha_decrypt(key, nonce, aad, ciphertext)
}

} // verus!
