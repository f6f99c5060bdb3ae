//! Hash functions and key derivation: `sha2`, `md-5`, `hmac` and `hkdf`.
use hkdf::Hkdf;
use hmac::{Hmac, Mac};
use sha2::{Digest, Sha256};
use vstd::prelude::*;

verus! {

/// The SHA-256 digest of `data`.
pub uninterp spec fn sha256(data: Seq<u8>) -> Seq<u8>;

/// The MD5 digest of `data`.
pub uninterp spec fn md5(data: Seq<u8>) -> Seq<u8>;

/// The HMAC-SHA-256 tag of `data` under `key`.
pub uninterp spec fn hmac_sha256(key: Seq<u8>, data: Seq<u8>) -> Seq<u8>;

/// The first `len` bytes that HKDF-SHA-256 derives from `ikm` with the given salt and info.
pub uninterp spec fn hkdf_sha256(
    salt: Option<Seq<u8>>,
    ikm: Seq<u8>,
    info: Seq<u8>,
    len: nat,
) -> Seq<u8>;

/// The longest output of HKDF-SHA-256: 255 blocks of 32 bytes.
pub const HKDF_MAX_OUTPUT: usize = 8160;

/// `sha2::Sha256::digest`: the digest is a function of the data.
#[verifier::external_body]
pub(crate) fn sha256_digest(data: &[u8]) -> (digest: [u8; 32])
    ensures
        digest@ == sha256(data@),
{
    Sha256::digest(data).into()
}

/// `md5::Md5::digest`: the digest is a function of the data.
#[verifier::external_body]
pub(crate) fn md5_digest(data: &[u8]) -> (digest: [u8; 16])
    ensures
        digest@ == md5(data@),
{
    md5::Md5::digest(data).into()
}

/// `hmac::Hmac::<Sha256>` keyed with `key` (every length is accepted) over `data`: the tag is a
/// function of the two.
#[verifier::external_body]
pub(crate) fn hmac_tag(key: &[u8], data: &[u8]) -> (tag: [u8; 32])
    ensures
        tag@ == hmac_sha256(key@, data@),
{
    let mut mac = <Hmac<Sha256> as Mac>::new_from_slice(key).expect("any key length");
    mac.update(data);
    mac.finalize().into_bytes().into()
}

/// `hkdf::Hkdf::<Sha256>::new` and `expand`, which fails only when more than 255 blocks are asked:
/// fills `len` bytes that are a function of the salt, the key material, the info and the length.
#[verifier::external_body]
pub(crate) fn hkdf_bytes(salt: Option<&[u8]>, ikm: &[u8], info: &[u8], len: usize) -> (bytes: Vec<
    u8,
>)
    requires
        len <= HKDF_MAX_OUTPUT,
    ensures
        bytes@.len() == len,
        bytes@ == hkdf_sha256(
            match salt {
                Some(s) => Some(s@),
                None => None,
            },
            ikm@,
            info@,
            len as nat,
        ),
{
    let mut bytes = vec![0u8; len];
    Hkdf::<Sha256>::new(salt, ikm).expand(info, &mut bytes).expect("within the limit");
    bytes
}

} // verus!
