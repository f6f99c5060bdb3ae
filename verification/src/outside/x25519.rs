//! Key agreement: `x25519-dalek`.
use vstd::prelude::*;
use x25519_dalek::{PublicKey, StaticSecret};

verus! {

/// The public key of a secret.
pub uninterp spec fn x25519_public(secret: Seq<u8>) -> Seq<u8>;

/// The secret that a key holder shares with the owner of a public key.
pub uninterp spec fn x25519_shared(secret: Seq<u8>, public: Seq<u8>) -> Seq<u8>;

/// `x25519_dalek::PublicKey::from(&StaticSecret)`: the public key is a function of the secret.
#[verifier::external_body]
pub(crate) fn x25519_public_key(secret: &[u8; 32]) -> (public: [u8; 32])
    ensures
        public@ == x25519_public(secret@),
{
    PublicKey::from(&StaticSecret::from(*secret)).to_bytes()
}

/// `x25519_dalek::StaticSecret::diffie_hellman`: the shared secret is a function of the secret and
/// the public key, and both parties of an exchange compute the same one.
#[verifier::external_body]
pub(crate) fn x25519_shared_secret(secret: &[u8; 32], public: &[u8; 32]) -> (shared: [u8; 32])
    ensures
        shared@ == x25519_shared(secret@, public@),
        forall|peer: Seq<u8>|
            peer.len() == 32 && #[trigger] x25519_public(peer) == public@ ==> shared@
                == x25519_shared(peer, x25519_public(secret@)),
{
    *StaticSecret::from(*secret).diffie_hellman(&PublicKey::from(*public)).as_bytes()
}

} // verus!
