//! Invitations: an encrypted blob with the room's name and credential, and the link that names it.
pub use crate::crypto::aead::{chacha_open, chacha_opened, chacha_seal, sealable};
use crate::crypto::chain::{bytes12_from_slice, push_bytes};
use crate::outside::aead::chacha_sealed;
use crate::outside::digest::{sha256, sha256_digest};
use crate::outside::encoding::{base64url_bytes, base64url_decode, base64url_encode, base64url_text};
use crate::outside::json::{
    json_bytes, json_from_bytes, json_object, json_parsed, json_string, json_to_bytes, names_differ,
    value_tree, writable, JsonTree,
};
use crate::outside::random::random_bytes;
use crate::util::codec::{
    base64url_chars, decode_text, decoded_text, encode_text, encoded_text, lemma_base64url_chars,
};
use crate::util::json::{field_tree, json_field, json_text, lemma_member_at, text_of};
use crate::util::text::{
    after_prefix, char_pos, chars_of, find_char, joined, lemma_split_cons, string_of, strip_prefix,
};
use vstd::prelude::*;

verus! {

pub const INVITATION_PREFIX: &'static str = "/INVITE:";

/// The invite's payload is too long to be encrypted.
#[derive(Debug, Clone, Copy, PartialEq, Eq, Structural)]
pub enum InviteError {
    EncryptFailed,
}

/// The members of an invite's payload.
pub open spec fn payload_members(room_id: Seq<char>, room_credential: Seq<char>) -> Seq<
    (Seq<char>, JsonTree),
> {
    seq![
        ("room_id"@, JsonTree::Str(room_id)),
        ("room_credential"@, JsonTree::Str(room_credential)),
    ]
}

/// The payload of an invite.
pub open spec fn payload_bytes(room_id: Seq<char>, room_credential: Seq<char>) -> Seq<u8> {
    json_bytes(JsonTree::Obj(payload_members(room_id, room_credential)))
}

/// The room that a payload names.
pub open spec fn payload_read(bytes: Seq<u8>) -> Option<(Seq<char>, Seq<char>)> {
    match json_parsed(bytes) {
        None => None,
        Some(t) => {
            let room_id = text_of(field_tree(t, "room_id"@, 0, 2));
            let room_credential = text_of(field_tree(t, "room_credential"@, 1, 2));
            if room_id is Some && room_credential is Some {
                Some((room_id->0, room_credential->0))
            } else {
                None
            }
        },
    }
}

proof fn lemma_payload(room_id: Seq<char>, room_credential: Seq<char>)
    ensures
        names_differ(payload_members(room_id, room_credential)),
        writable(JsonTree::Obj(payload_members(room_id, room_credential)), 16),
        ({
            let t = JsonTree::Obj(payload_members(room_id, room_credential));
            &&& text_of(field_tree(t, "room_id"@, 0, 2)) == Some(room_id)
            &&& text_of(field_tree(t, "room_credential"@, 1, 2)) == Some(room_credential)
        }),
{
    reveal_strlit("room_id");
    reveal_strlit("room_credential");
    assert("room_id"@.len() == 7);
    assert("room_credential"@.len() == 15);
    reveal_with_fuel(writable, 2);
    let m = payload_members(room_id, room_credential);
    assert(names_differ(m)) by {
        assert forall|i: int, j: int|
            0 <= i < m.len() && 0 <= j < m.len()
                && (#[trigger] m[i]).0 == (#[trigger] m[j]).0 implies i
            == j by {
            assert(m[0].0 == "room_id"@ && m[1].0 == "room_credential"@);
        }
    }
    lemma_member_at(m, 0);
    lemma_member_at(m, 1);
}

/// The blob of an invite with a given nonce and key.
pub open spec fn invite_blob(
    room_id: Seq<char>,
    room_credential: Seq<char>,
    nonce: Seq<u8>,
    blob_key: Seq<u8>,
) -> Seq<char> {
    base64url_text(
        nonce + chacha_sealed(
            sha256(blob_key),
            nonce,
            Seq::empty(),
            payload_bytes(room_id, room_credential),
        ),
    )
}

/// The room that a blob names, for the holder of its key.
pub open spec fn invite_room(
    blob: Seq<char>,
    key_text: Seq<char>,
) -> Option<(Seq<char>, Seq<char>)> {
    match (base64url_bytes(blob), base64url_bytes(key_text)) {
        (Some(bytes), Some(blob_key)) => if bytes.len() < 12 || blob_key.len() != 16 {
            None
        } else {
            match chacha_opened(sha256(blob_key), bytes.take(12), Seq::empty(), bytes.skip(12)) {
                Some(plain) => payload_read(plain),
                None => None,
            }
        },
        _ => None,
    }
}

fn payload_to_bytes(room_id: &str, room_credential: &str) -> (bytes: Vec<u8>)
    ensures
        bytes@ == payload_bytes(room_id@, room_credential@),
        payload_read(bytes@) == Some((room_id@, room_credential@)),
{
    let mut m: Vec<(String, serde_json::Value)> = Vec::new();
    m.push(("room_id".to_owned(), json_string(room_id)));
    m.push(("room_credential".to_owned(), json_string(room_credential)));
    proof {
        lemma_payload(room_id@, room_credential@);
        assert(m@.map_values(|e: (String, serde_json::Value)| (e.0@, value_tree(e.1)))
            =~= payload_members(room_id@, room_credential@));
    }
    let value = json_object(m);
    json_to_bytes(&value)
}

/// An invite's blob with a given nonce and key: its text and the text of the key. Together they
/// give the room back.
pub fn create_invite_blob_with(
    room_id: &str,
    room_credential: &str,
    nonce: &[u8; 12],
    blob_key: &[u8],
) -> (out: Result<(String, String), InviteError>)
    requires
        blob_key@.len() == 16,
    ensures
        match out {
            Ok(o) => {
                &&& sealable(payload_bytes(room_id@, room_credential@))
                &&& o.0@ == invite_blob(room_id@, room_credential@, nonce@, blob_key@)
                &&& o.1@ == base64url_text(blob_key@)
                &&& base64url_chars(o.0@)
                &&& base64url_chars(o.1@)
                &&& invite_room(o.0@, o.1@) == Some((room_id@, room_credential@))
            },
            Err(e) => !sealable(payload_bytes(room_id@, room_credential@)),
        },
{
    let key = sha256_digest(blob_key);
    let payload = payload_to_bytes(room_id, room_credential);
    let empty: Vec<u8> = Vec::new();
    let ciphertext = match chacha_seal(&key, nonce, empty.as_slice(), payload.as_slice()) {
        Some(ciphertext) => ciphertext,
        None => {
            return Err(InviteError::EncryptFailed);
        },
    };
    let mut out: Vec<u8> = Vec::new();
    push_bytes(&mut out, nonce.as_slice());
    push_bytes(&mut out, ciphertext.as_slice());
    proof {
        assert(empty@ =~= Seq::<u8>::empty());
        assert(out@ =~= nonce@ + ciphertext@);
        assert(out@.take(12) =~= nonce@);
        assert(out@.skip(12) =~= ciphertext@);
    }
    Ok((base64url_encode(out.as_slice()), base64url_encode(blob_key)))
}

/// An invite's blob, and the text of its key. Together they give the room back.
pub fn create_invite_blob(room_id: &str, room_credential: &str) -> (out: Result<
    (String, String),
    InviteError,
>)
    ensures
        match out {
            Ok(o) => {
                &&& sealable(payload_bytes(room_id@, room_credential@))
                &&& exists|nonce: Seq<u8>, blob_key: Seq<u8>|
                    nonce.len() == 12 && blob_key.len() == 16 && o.0@ == #[trigger] invite_blob(
                        room_id@,
                        room_credential@,
                        nonce,
                        blob_key,
                    ) && o.1@ == base64url_text(blob_key)
                &&& base64url_chars(o.0@)
                &&& base64url_chars(o.1@)
                &&& invite_room(o.0@, o.1@) == Some((room_id@, room_credential@))
            },
            Err(e) => !sealable(payload_bytes(room_id@, room_credential@)),
        },
{
    let nonce_bytes = random_bytes(12);
    let blob_key = random_bytes(16);
    let nonce = match bytes12_from_slice(nonce_bytes.as_slice()) {
        Some(nonce) => nonce,
        None => {
            assert(false);
            [0u8;12]
        },
    };
    create_invite_blob_with(room_id, room_credential, &nonce, blob_key.as_slice())
}

/// The room that a blob names.
pub fn open_invite_blob(blob_b64: &str, blob_key_b64: &str) -> (out: Option<(String, String)>)
    ensures
        match (out, invite_room(blob_b64@, blob_key_b64@)) {
            (Some(o), Some(v)) => o.0@ == v.0 && o.1@ == v.1,
            (None, None) => true,
            _ => false,
        },
{
    let bytes = match base64url_decode(blob_b64) {
        Some(bytes) => bytes,
        None => {
            return None;
        },
    };
    let blob_key = match base64url_decode(blob_key_b64) {
        Some(key) => key,
        None => {
            return None;
        },
    };
    if bytes.len() < 12 || blob_key.len() != 16 {
        return None;
    }
    let head = vstd::slice::slice_subrange(bytes.as_slice(), 0, 12);
    assert(head@ =~= bytes@.take(12));
    let nonce = match bytes12_from_slice(head) {
        Some(nonce) => nonce,
        None => {
            assert(false);
            [0u8;12]
        },
    };
    let ct = vstd::slice::slice_subrange(bytes.as_slice(), 12, bytes.len());
    assert(ct@ =~= bytes@.skip(12));
    let key = sha256_digest(blob_key.as_slice());
    let empty: Vec<u8> = Vec::new();
    assert(empty@ =~= Seq::<u8>::empty());
    let plain = match chacha_open(&key, &nonce, empty.as_slice(), ct) {
        Some(plain) => plain,
        None => {
            return None;
        },
    };
    let value = match json_from_bytes(plain.as_slice()) {
        Some(value) => value,
        None => {
            return None;
        },
    };
    let room_id = match json_text(json_field(&value, "room_id", 0, 2)) {
        Some(s) => s,
        None => {
            return None;
        },
    };
    let room_credential = match json_text(json_field(&value, "room_credential", 1, 2)) {
        Some(s) => s,
        None => {
            return None;
        },
    };
    Some((room_id, room_credential))
}

/// The text of an invitation.
pub open spec fn invitation_text(server: Seq<char>, token: Seq<char>, key_text: Seq<char>) -> Seq<
    char,
> {
    INVITATION_PREFIX@ + encoded_text(server) + seq!['.'] + token + seq!['.'] + key_text
}

/// What an invitation holds: the server's address, the token and the blob key. The key is all that
/// follows the second dot.
pub open spec fn invitation_parts(inv: Seq<char>) -> Option<(Seq<char>, Seq<char>, Seq<char>)> {
    match after_prefix(inv, INVITATION_PREFIX@) {
        None => None,
        Some(raw) => {
            let p = char_pos(raw, '.');
            let server = decoded_text(raw.take(p));
            let rest = raw.skip(p + 1);
            let q = char_pos(rest, '.');
            if server is None || p >= raw.len() || q >= rest.len() {
                None
            } else {
                Some((server->0, rest.take(q), rest.skip(q + 1)))
            }
        },
    }
}

/// The invitation to a server's room. It can be read back when the token holds no dot.
pub fn create_invitation(server_addr: &str, invite_token: &str, blob_key_b64: &str) -> (out: Result<
    String,
    InviteError,
>)
    ensures
        out matches Ok(inv) && inv@ == invitation_text(server_addr@, invite_token@, blob_key_b64@)
            && (!invite_token@.contains('.') ==> invitation_parts(inv@) == Some(
            (server_addr@, invite_token@, blob_key_b64@),
        )),
{
    let server_b64 = encode_text(server_addr);
    let mut out = joined(INVITATION_PREFIX, server_b64.as_str());
    out.append(".");
    out.append(invite_token);
    out.append(".");
    out.append(blob_key_b64);
    proof {
        reveal_strlit(".");
        assert("."@ =~= seq!['.']);
        let raw = server_b64@ + seq!['.'] + (invite_token@ + seq!['.'] + blob_key_b64@);
        assert(out@ =~= invitation_text(server_addr@, invite_token@, blob_key_b64@));
        assert(out@.skip(INVITATION_PREFIX@.len() as int) =~= raw);
        assert(INVITATION_PREFIX@ =~= out@.subrange(0, INVITATION_PREFIX@.len() as int));
        if !invite_token@.contains('.') {
            lemma_base64url_chars(server_b64@);
            let rest = invite_token@ + seq!['.'] + blob_key_b64@;
            lemma_split_cons(server_b64@, '.', rest);
            lemma_split_cons(invite_token@, '.', blob_key_b64@);
            assert(raw.take(server_b64@.len() as int) =~= server_b64@);
            assert(raw.skip(server_b64@.len() as int + 1) =~= rest);
            assert(rest.take(invite_token@.len() as int) =~= invite_token@);
            assert(rest.skip(invite_token@.len() as int + 1) =~= blob_key_b64@);
        }
    }
    Ok(out)
}

/// Reads an invitation.
pub fn parse_invitation(inv: &str) -> (out: Option<(String, String, String)>)
    ensures
        match (out, invitation_parts(inv@)) {
            (Some(o), Some(v)) => o.0@ == v.0 && o.1@ == v.1 && o.2@ == v.2,
            (None, None) => true,
            _ => false,
        },
{
    let raw = match strip_prefix(inv, INVITATION_PREFIX) {
        Some(raw) => raw,
        None => {
            return None;
        },
    };
    let chars = chars_of(raw.as_str());
    assert(raw@.skip(0) =~= raw@);
    let p = find_char(chars.as_slice(), '.', 0);
    let head = vstd::slice::slice_subrange(chars.as_slice(), 0, p);
    assert(head@ =~= raw@.take(p as int));
    let server = match decode_text(string_of(head).as_str()) {
        Some(server) => server,
        None => {
            return None;
        },
    };
    if p >= chars.len() {
        return None;
    }
    let ghost rest = raw@.skip(p + 1);
    let q = find_char(chars.as_slice(), '.', p + 1);
    if q >= chars.len() {
        return None;
    }
    let token = string_of(vstd::slice::slice_subrange(chars.as_slice(), p + 1, q));
    let key = string_of(vstd::slice::slice_subrange(chars.as_slice(), q + 1, chars.len()));
    proof {
        assert(token@ =~= rest.take(q - p - 1));
        assert(key@ =~= rest.skip(q - p));
    }
    Some((server, token, key))
}

} // verus!
