//! Keys and proofs of the connection handshakes.
use crate::crypto::chain::{derive32, push_bytes};
use crate::outside::digest::{hkdf_sha256, hmac_sha256, hmac_tag, sha256, sha256_digest};
use vstd::prelude::*;
use vstd::utf8::encode_utf8;

verus! {

pub const AUTH_PROOF_LABEL: &'static str = "rust-chat auth proof v1";

pub const INVITE_PROOF_LABEL: &'static str = "rust-chat invite proof v1";

pub const INVITE_TOKEN_ID_LABEL: &'static str = "rust-chat token id v1";

pub const PASSWORD_TRANSPORT_LABEL: &'static str = "rust-chat password transport v1";

pub const INVITE_TRANSPORT_LABEL: &'static str = "rust-chat invite transport v1";

/// The key of a connection, from a secret and the handshake's public parts.
pub open spec fn transport_key(secret: Seq<u8>, label: Seq<char>, parts: Seq<u8>) -> Seq<u8> {
    hkdf_sha256(Some(parts), secret, encode_utf8(label), 32)
}

/// The proof that one knows a secret, bound to the handshake's public parts.
pub open spec fn handshake_proof(secret: Seq<u8>, label: Seq<char>, parts: Seq<u8>) -> Seq<u8> {
    hmac_sha256(secret, encode_utf8(label) + parts)
}

fn concat2(a: &[u8], b: &[u8]) -> (out: Vec<u8>)
    ensures
        out@ == a@ + b@,
{
    let mut out: Vec<u8> = Vec::new();
    push_bytes(&mut out, a);
    push_bytes(&mut out, b);
    assert(out@ =~= a@ + b@);
    out
}

fn concat3(a: &[u8], b: &[u8], c: &[u8]) -> (out: Vec<u8>)
    ensures
        out@ == a@ + b@ + c@,
{
    let mut out = concat2(a, b);
    push_bytes(&mut out, c);
    out
}

fn derive_transport_key(secret: &[u8], label: &str, parts: &[u8]) -> (key: [u8; 32])
    ensures
        key@ == transport_key(secret@, label@, parts@),
{
    derive32(Some(parts), secret, label.as_bytes())
}

fn compute_handshake_proof(secret: &[u8], label: &str, parts: &[u8]) -> (proof_tag: [u8; 32])
    ensures
        proof_tag@ == handshake_proof(secret@, label@, parts@),
{
    let data = concat2(label.as_bytes(), parts);
    hmac_tag(secret, data.as_slice())
}

/// What the server keeps of its password.
pub fn pwd_hash(pwd: &str) -> (hash: [u8; 32])
    ensures
        hash@ == sha256(encode_utf8(pwd@)),
{
    sha256_digest(pwd.as_bytes())
}

pub fn derive_password_transport_key(
    server_pwd_hash: &[u8; 32],
    client_nonce: &[u8],
    server_nonce: &[u8],
) -> (key: [u8; 32])
    ensures
        key@ == transport_key(
            server_pwd_hash@,
            PASSWORD_TRANSPORT_LABEL@,
            client_nonce@ + server_nonce@,
        ),
{
    let parts = concat2(client_nonce, server_nonce);
    derive_transport_key(server_pwd_hash.as_slice(), PASSWORD_TRANSPORT_LABEL, parts.as_slice())
}

pub fn compute_password_auth_proof(
    server_pwd_hash: &[u8; 32],
    client_nonce: &[u8],
    server_nonce: &[u8],
) -> (proof_tag: [u8; 32])
    ensures
        proof_tag@ == handshake_proof(
            server_pwd_hash@,
            AUTH_PROOF_LABEL@,
            client_nonce@ + server_nonce@,
        ),
{
    let parts = concat2(client_nonce, server_nonce);
    compute_handshake_proof(server_pwd_hash.as_slice(), AUTH_PROOF_LABEL, parts.as_slice())
}

/// The public name of an invite token.
pub open spec fn invite_token_id(token_secret: Seq<u8>) -> Seq<u8> {
    sha256(encode_utf8(INVITE_TOKEN_ID_LABEL@) + token_secret)
}

pub fn compute_invite_token_id(token_secret: &[u8]) -> (id: [u8; 32])
    ensures
        id@ == invite_token_id(token_secret@),
{
    let data = concat2(INVITE_TOKEN_ID_LABEL.as_bytes(), token_secret);
    sha256_digest(data.as_slice())
}

pub fn derive_invite_transport_key(
    token_secret: &[u8],
    token_id: &[u8],
    client_nonce: &[u8],
    server_nonce: &[u8],
) -> (key: [u8; 32])
    ensures
        key@ == transport_key(
            token_secret@,
            INVITE_TRANSPORT_LABEL@,
            token_id@ + client_nonce@ + server_nonce@,
        ),
{
    let parts = concat3(token_id, client_nonce, server_nonce);
    derive_transport_key(token_secret, INVITE_TRANSPORT_LABEL, parts.as_slice())
}

pub fn compute_invite_proof(
    token_secret: &[u8],
    token_id: &[u8],
    client_nonce: &[u8],
    server_nonce: &[u8],
) -> (proof_tag: [u8; 32])
    ensures
        proof_tag@ == handshake_proof(
            token_secret@,
            INVITE_PROOF_LABEL@,
            token_id@ + client_nonce@ + server_nonce@,
        ),
{
    let parts = concat3(token_id, client_nonce, server_nonce);
    compute_handshake_proof(token_secret, INVITE_PROOF_LABEL, parts.as_slice())
}

} // verus!
