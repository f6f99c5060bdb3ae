//! The lines of the handshakes and of invites.
use crate::util::codec::{
    decode_text, decoded_text, encode_text, encoded_text, join_strings, lemma_base64url_chars,
    lemma_words_spaced, spaced,
};
use crate::util::text::{
    after_prefix, is_word, joined, lemma_parse_signed, lemma_trimmed_same, lemma_value_after,
    lemma_views, opt_str, opt_text, parse_i64, read_i64, same_text, signed_decimal, signed_text,
    split_words, strip_prefix_ref, trim_ref, trimmed, trimmed_after, value_after, views, words,
};
use vstd::prelude::*;

verus! {

/// How long an invite may be used, in seconds.
pub const INVITE_TTL_SECS: i64 = 600;

/// A request to the server for an invite.
#[derive(Debug)]
pub struct ServerInviteRequest {
    pub request_id: String,
    pub room_id: String,
    pub owner_capability: String,
    pub blob_b64: String,
}

/// A request to the server for an invite.
pub open spec fn invite_request_line(
    request_id: Seq<char>,
    room_id: Seq<char>,
    owner_capability: Seq<char>,
    blob_b64: Seq<char>,
) -> Seq<char> {
    spaced(seq![
        "/INVITE_REQUEST"@,
        request_id,
        encoded_text(room_id),
        encoded_text(owner_capability),
        blob_b64,
    ])
}

/// The parts of a request for an invite.
pub open spec fn invite_request_parts(
    line: Seq<char>,
) -> Option<(Seq<char>, Seq<char>, Seq<char>, Seq<char>)> {
    let w = words(line);
    if w.len() < 5 || w[0] != "/INVITE_REQUEST"@ {
        None
    } else {
        let request_id = w[1];
        let room_id = decoded_text(w[2]);
        let owner_capability = decoded_text(w[3]);
        let blob_b64 = w[4];
        if room_id is Some && owner_capability is Some {
            Some((request_id, room_id->0, owner_capability->0, blob_b64))
        } else {
            None
        }
    }
}

/// A request to the server for an invite.
pub fn build_server_invite_request_line(
    request_id: &str,
    room_id: &str,
    owner_capability: &str,
    blob_b64: &str,
) -> (line: String)
    ensures
        line@ == invite_request_line(request_id@, room_id@, owner_capability@, blob_b64@),
        is_word(request_id@) && room_id@.len() > 0 && owner_capability@.len() > 0
            && is_word(blob_b64@)
            ==> invite_request_parts(line@) == Some(
                (request_id@, room_id@, owner_capability@, blob_b64@),
            ),
{
    let mut parts: Vec<String> = Vec::new();
    parts.push("/INVITE_REQUEST".to_owned());
    parts.push(request_id.to_owned());
    parts.push(encode_text(room_id));
    parts.push(encode_text(owner_capability));
    parts.push(blob_b64.to_owned());
    proof {
        let p = views(parts@);
        assert(p =~= seq![
            "/INVITE_REQUEST"@,
            request_id@,
            encoded_text(room_id@),
            encoded_text(owner_capability@),
            blob_b64@,
        ]);
        reveal_strlit("/INVITE_REQUEST");
        assert(is_word("/INVITE_REQUEST"@));
        if is_word(request_id@) && room_id@.len() > 0 && owner_capability@.len() > 0
            && is_word(blob_b64@) {
            lemma_base64url_chars(p[2]);
            lemma_base64url_chars(p[3]);
            assert forall|i: int| 0 <= i < p.len() implies is_word(#[trigger] p[i]) by {}
            lemma_words_spaced(p);
        }
    }
    join_strings(&parts, " ")
}

/// The parts of a request for an invite.
pub fn parse_server_invite_request_line(line: &str) -> (out: Option<ServerInviteRequest>)
    ensures
        match (out, invite_request_parts(line@)) {
            (Some(o), Some(v)) => o.request_id@ == v.0 && o.room_id@ == v.1
                && o.owner_capability@ == v.2 && o.blob_b64@ == v.3,
            (None, None) => true,
            _ => false,
        },
{
    let w = split_words(line);
    assert(views(w@).len() == w@.len());
    if w.len() < 5 {
        return None;
    }
    proof {
        lemma_views(w@);
    }
    if !same_text(w[0].as_str(), "/INVITE_REQUEST") {
        return None;
    }
    let request_id = w[1].clone();
    let room_id = match decode_text(w[2].as_str()) {
        Some(x) => x,
        None => {
            return None;
        },
    };
    let owner_capability = match decode_text(w[3].as_str()) {
        Some(x) => x,
        None => {
            return None;
        },
    };
    let blob_b64 = w[4].clone();
    Some(ServerInviteRequest { request_id, room_id, owner_capability, blob_b64 })
}

/// The token that the server answers a request with.
pub open spec fn invite_token_line(
    request_id: Seq<char>,
    token_secret_b64: Seq<char>,
    expires_at: i64,
) -> Seq<char> {
    spaced(seq![
        "/INVITE_TOKEN"@,
        request_id,
        token_secret_b64,
        signed_decimal(expires_at as int),
    ])
}

/// The parts of a token line.
pub open spec fn invite_token_parts(line: Seq<char>) -> Option<(Seq<char>, Seq<char>, i64)> {
    let w = words(line);
    if w.len() < 4 || w[0] != "/INVITE_TOKEN"@ {
        None
    } else {
        let request_id = w[1];
        let token_secret_b64 = w[2];
        let expires_at = read_i64(w[3]);
        if expires_at is Some {
            Some((request_id, token_secret_b64, expires_at->0))
        } else {
            None
        }
    }
}

/// The token that the server answers a request with.
pub fn build_invite_token_line(
    request_id: &str,
    token_secret_b64: &str,
    expires_at: i64,
) -> (line: String)
    ensures
        line@ == invite_token_line(request_id@, token_secret_b64@, expires_at),
        is_word(request_id@) && is_word(token_secret_b64@)
            ==> invite_token_parts(line@) == Some((request_id@, token_secret_b64@, expires_at)),
{
    let mut parts: Vec<String> = Vec::new();
    parts.push("/INVITE_TOKEN".to_owned());
    parts.push(request_id.to_owned());
    parts.push(token_secret_b64.to_owned());
    parts.push(signed_text(expires_at));
    proof {
        let p = views(parts@);
        assert(p =~= seq![
            "/INVITE_TOKEN"@,
            request_id@,
            token_secret_b64@,
            signed_decimal(expires_at as int),
        ]);
        reveal_strlit("/INVITE_TOKEN");
        assert(is_word("/INVITE_TOKEN"@));
        if is_word(request_id@) && is_word(token_secret_b64@) {
            lemma_parse_signed(expires_at as int);
            assert forall|i: int| 0 <= i < p.len() implies is_word(#[trigger] p[i]) by {}
            lemma_words_spaced(p);
        }
    }
    join_strings(&parts, " ")
}

/// The parts of a token line.
pub fn parse_invite_token_line(line: &str) -> (out: Option<(String, String, i64)>)
    ensures
        match (out, invite_token_parts(line@)) {
            (Some(o), Some(v)) => o.0@ == v.0 && o.1@ == v.1 && o.2 == v.2,
            (None, None) => true,
            _ => false,
        },
{
    let w = split_words(line);
    assert(views(w@).len() == w@.len());
    if w.len() < 4 {
        return None;
    }
    proof {
        lemma_views(w@);
    }
    if !same_text(w[0].as_str(), "/INVITE_TOKEN") {
        return None;
    }
    let request_id = w[1].clone();
    let token_secret_b64 = w[2].clone();
    let expires_at: i64 = match parse_i64(w[3].as_str()) {
        Some(x) => x,
        None => {
            return None;
        },
    };
    Some((request_id, token_secret_b64, expires_at))
}

/// The refusal of a request.
pub open spec fn invite_error_line(request_id: Seq<char>, reason: Seq<char>) -> Seq<char> {
    spaced(seq![
        "/INVITE_ERROR"@,
        request_id,
        encoded_text(reason),
    ])
}

/// The request that was refused, and why.
pub open spec fn invite_error_parts(line: Seq<char>) -> Option<(Seq<char>, Seq<char>)> {
    let w = words(line);
    if w.len() < 3 || w[0] != "/INVITE_ERROR"@ {
        None
    } else {
        let request_id = w[1];
        let reason = decoded_text(w[2]);
        if reason is Some {
            Some((request_id, reason->0))
        } else {
            None
        }
    }
}

/// The refusal of a request.
pub fn build_invite_error_line(request_id: &str, reason: &str) -> (line: String)
    ensures
        line@ == invite_error_line(request_id@, reason@),
        is_word(request_id@) && reason@.len() > 0
            ==> invite_error_parts(line@) == Some((request_id@, reason@)),
{
    let mut parts: Vec<String> = Vec::new();
    parts.push("/INVITE_ERROR".to_owned());
    parts.push(request_id.to_owned());
    parts.push(encode_text(reason));
    proof {
        let p = views(parts@);
        assert(p =~= seq![
            "/INVITE_ERROR"@,
            request_id@,
            encoded_text(reason@),
        ]);
        reveal_strlit("/INVITE_ERROR");
        assert(is_word("/INVITE_ERROR"@));
        if is_word(request_id@) && reason@.len() > 0 {
            lemma_base64url_chars(p[2]);
            assert forall|i: int| 0 <= i < p.len() implies is_word(#[trigger] p[i]) by {}
            lemma_words_spaced(p);
        }
    }
    join_strings(&parts, " ")
}

/// The request that was refused, and why.
pub fn parse_invite_error_line(line: &str) -> (out: Option<(String, String)>)
    ensures
        match (out, invite_error_parts(line@)) {
            (Some(o), Some(v)) => o.0@ == v.0 && o.1@ == v.1,
            (None, None) => true,
            _ => false,
        },
{
    let w = split_words(line);
    assert(views(w@).len() == w@.len());
    if w.len() < 3 {
        return None;
    }
    proof {
        lemma_views(w@);
    }
    if !same_text(w[0].as_str(), "/INVITE_ERROR") {
        return None;
    }
    let request_id = w[1].clone();
    let reason = match decode_text(w[2].as_str()) {
        Some(x) => x,
        None => {
            return None;
        },
    };
    Some((request_id, reason))
}

/// The start of a password handshake.
pub fn build_auth_hello_line(client_nonce_hex: &str) -> (line: String)
    ensures
        line@ == "/AUTH_HELLO "@ + client_nonce_hex@,
        is_word(client_nonce_hex@)
            ==> value_after(line@, "/AUTH_HELLO "@) == Some(client_nonce_hex@),
{
    let line = joined("/AUTH_HELLO ", client_nonce_hex);
    proof {
        if is_word(client_nonce_hex@) {
            lemma_value_after("/AUTH_HELLO "@, client_nonce_hex@);
        }
    }
    line
}

/// The value of a `/AUTH_HELLO` line.
pub fn parse_auth_hello_line(line: &str) -> (value: Option<String>)
    ensures
        match (value, value_after(line@, "/AUTH_HELLO "@)) {
            (Some(o), Some(v)) => o@ == v,
            (None, None) => true,
            _ => false,
        },
{
    match trimmed_after(line, "/AUTH_HELLO ") {
        Some(value) => Some(value.to_owned()),
        None => None,
    }
}

/// The server's challenge in a password handshake.
pub fn build_auth_challenge_line(server_nonce_hex: &str) -> (line: String)
    ensures
        line@ == "/AUTH_CHALLENGE "@ + server_nonce_hex@,
        is_word(server_nonce_hex@)
            ==> value_after(line@, "/AUTH_CHALLENGE "@) == Some(server_nonce_hex@),
{
    let line = joined("/AUTH_CHALLENGE ", server_nonce_hex);
    proof {
        if is_word(server_nonce_hex@) {
            lemma_value_after("/AUTH_CHALLENGE "@, server_nonce_hex@);
        }
    }
    line
}

/// The value of a `/AUTH_CHALLENGE` line.
pub fn parse_auth_challenge_line(line: &str) -> (value: Option<String>)
    ensures
        match (value, value_after(line@, "/AUTH_CHALLENGE "@)) {
            (Some(o), Some(v)) => o@ == v,
            (None, None) => true,
            _ => false,
        },
{
    match trimmed_after(line, "/AUTH_CHALLENGE ") {
        Some(value) => Some(value.to_owned()),
        None => None,
    }
}

/// The client's proof in a password handshake.
pub fn build_auth_proof_line(proof_hex: &str) -> (line: String)
    ensures
        line@ == "/AUTH_PROOF "@ + proof_hex@,
        is_word(proof_hex@) ==> value_after(line@, "/AUTH_PROOF "@) == Some(proof_hex@),
{
    let line = joined("/AUTH_PROOF ", proof_hex);
    proof {
        if is_word(proof_hex@) {
            lemma_value_after("/AUTH_PROOF "@, proof_hex@);
        }
    }
    line
}

/// The value of a `/AUTH_PROOF` line.
pub fn parse_auth_proof_line(line: &str) -> (value: Option<String>)
    ensures
        match (value, value_after(line@, "/AUTH_PROOF "@)) {
            (Some(o), Some(v)) => o@ == v,
            (None, None) => true,
            _ => false,
        },
{
    match trimmed_after(line, "/AUTH_PROOF ") {
        Some(value) => Some(value.to_owned()),
        None => None,
    }
}

/// The start of an invite handshake.
pub open spec fn invite_hello_line(
    token_id_hex: Seq<char>,
    client_nonce_hex: Seq<char>,
) -> Seq<char> {
    spaced(seq![
        "/INVITE_HELLO"@,
        token_id_hex,
        client_nonce_hex,
    ])
}

/// The token and the nonce that start an invite handshake.
pub open spec fn invite_hello_parts(line: Seq<char>) -> Option<(Seq<char>, Seq<char>)> {
    let w = words(line);
    if w.len() < 3 || w[0] != "/INVITE_HELLO"@ {
        None
    } else {
        let token_id_hex = w[1];
        let client_nonce_hex = w[2];
        Some((token_id_hex, client_nonce_hex))
    }
}

/// The start of an invite handshake.
pub fn build_invite_hello_line(token_id_hex: &str, client_nonce_hex: &str) -> (line: String)
    ensures
        line@ == invite_hello_line(token_id_hex@, client_nonce_hex@),
        is_word(token_id_hex@) && is_word(client_nonce_hex@)
            ==> invite_hello_parts(line@) == Some((token_id_hex@, client_nonce_hex@)),
{
    let mut parts: Vec<String> = Vec::new();
    parts.push("/INVITE_HELLO".to_owned());
    parts.push(token_id_hex.to_owned());
    parts.push(client_nonce_hex.to_owned());
    proof {
        let p = views(parts@);
        assert(p =~= seq![
            "/INVITE_HELLO"@,
            token_id_hex@,
            client_nonce_hex@,
        ]);
        reveal_strlit("/INVITE_HELLO");
        assert(is_word("/INVITE_HELLO"@));
        if is_word(token_id_hex@) && is_word(client_nonce_hex@) {
            assert forall|i: int| 0 <= i < p.len() implies is_word(#[trigger] p[i]) by {}
            lemma_words_spaced(p);
        }
    }
    join_strings(&parts, " ")
}

/// The token and the nonce that start an invite handshake.
pub fn parse_invite_hello_line(line: &str) -> (out: Option<(String, String)>)
    ensures
        match (out, invite_hello_parts(line@)) {
            (Some(o), Some(v)) => o.0@ == v.0 && o.1@ == v.1,
            (None, None) => true,
            _ => false,
        },
{
    let w = split_words(line);
    assert(views(w@).len() == w@.len());
    if w.len() < 3 {
        return None;
    }
    proof {
        lemma_views(w@);
    }
    if !same_text(w[0].as_str(), "/INVITE_HELLO") {
        return None;
    }
    let token_id_hex = w[1].clone();
    let client_nonce_hex = w[2].clone();
    Some((token_id_hex, client_nonce_hex))
}

/// The server's challenge in an invite handshake.
pub fn build_invite_challenge_line(server_nonce_hex: &str) -> (line: String)
    ensures
        line@ == "/INVITE_CHALLENGE "@ + server_nonce_hex@,
        is_word(server_nonce_hex@)
            ==> value_after(line@, "/INVITE_CHALLENGE "@) == Some(server_nonce_hex@),
{
    let line = joined("/INVITE_CHALLENGE ", server_nonce_hex);
    proof {
        if is_word(server_nonce_hex@) {
            lemma_value_after("/INVITE_CHALLENGE "@, server_nonce_hex@);
        }
    }
    line
}

/// The value of a `/INVITE_CHALLENGE` line.
pub fn parse_invite_challenge_line(line: &str) -> (value: Option<String>)
    ensures
        match (value, value_after(line@, "/INVITE_CHALLENGE "@)) {
            (Some(o), Some(v)) => o@ == v,
            (None, None) => true,
            _ => false,
        },
{
    match trimmed_after(line, "/INVITE_CHALLENGE ") {
        Some(value) => Some(value.to_owned()),
        None => None,
    }
}

/// The client's proof in an invite handshake.
pub fn build_invite_proof_line(proof_hex: &str) -> (line: String)
    ensures
        line@ == "/INVITE_PROOF "@ + proof_hex@,
        is_word(proof_hex@) ==> value_after(line@, "/INVITE_PROOF "@) == Some(proof_hex@),
{
    let line = joined("/INVITE_PROOF ", proof_hex);
    proof {
        if is_word(proof_hex@) {
            lemma_value_after("/INVITE_PROOF "@, proof_hex@);
        }
    }
    line
}

/// The value of a `/INVITE_PROOF` line.
pub fn parse_invite_proof_line(line: &str) -> (value: Option<String>)
    ensures
        match (value, value_after(line@, "/INVITE_PROOF "@)) {
            (Some(o), Some(v)) => o@ == v,
            (None, None) => true,
            _ => false,
        },
{
    match trimmed_after(line, "/INVITE_PROOF ") {
        Some(value) => Some(value.to_owned()),
        None => None,
    }
}

/// The room and the blob of an accepted invite.
pub open spec fn invite_ok_line(room_id: Seq<char>, blob_b64: Seq<char>) -> Seq<char> {
    spaced(seq![
        "INVITE_OK"@,
        encoded_text(room_id),
        blob_b64,
    ])
}

/// The room and the blob of an accepted invite.
pub open spec fn invite_ok_parts(line: Seq<char>) -> Option<(Seq<char>, Seq<char>)> {
    let w = words(line);
    if w.len() < 3 || w[0] != "INVITE_OK"@ {
        None
    } else {
        let room_id = decoded_text(w[1]);
        let blob_b64 = w[2];
        if room_id is Some {
            Some((room_id->0, blob_b64))
        } else {
            None
        }
    }
}

/// The room and the blob of an accepted invite.
pub fn build_invite_ok_line(room_id: &str, blob_b64: &str) -> (line: String)
    ensures
        line@ == invite_ok_line(room_id@, blob_b64@),
        room_id@.len() > 0 && is_word(blob_b64@)
            ==> invite_ok_parts(line@) == Some((room_id@, blob_b64@)),
{
    let mut parts: Vec<String> = Vec::new();
    parts.push("INVITE_OK".to_owned());
    parts.push(encode_text(room_id));
    parts.push(blob_b64.to_owned());
    proof {
        let p = views(parts@);
        assert(p =~= seq![
            "INVITE_OK"@,
            encoded_text(room_id@),
            blob_b64@,
        ]);
        reveal_strlit("INVITE_OK");
        assert(is_word("INVITE_OK"@));
        if room_id@.len() > 0 && is_word(blob_b64@) {
            lemma_base64url_chars(p[1]);
            assert forall|i: int| 0 <= i < p.len() implies is_word(#[trigger] p[i]) by {}
            lemma_words_spaced(p);
        }
    }
    join_strings(&parts, " ")
}

/// The room and the blob of an accepted invite.
pub fn parse_invite_ok_line(line: &str) -> (out: Option<(String, String)>)
    ensures
        match (out, invite_ok_parts(line@)) {
            (Some(o), Some(v)) => o.0@ == v.0 && o.1@ == v.1,
            (None, None) => true,
            _ => false,
        },
{
    let w = split_words(line);
    assert(views(w@).len() == w@.len());
    if w.len() < 3 {
        return None;
    }
    proof {
        lemma_views(w@);
    }
    if !same_text(w[0].as_str(), "INVITE_OK") {
        return None;
    }
    let room_id = match decode_text(w[1].as_str()) {
        Some(x) => x,
        None => {
            return None;
        },
    };
    let blob_b64 = w[2].clone();
    Some((room_id, blob_b64))
}

/// The nickname that an invited client enters with.
pub open spec fn ready_nickname(line: Seq<char>) -> Option<Seq<char>> {
    match after_prefix(line, "/INVITE_READY "@) {
        Some(encoded) => decoded_text(trimmed(encoded)),
        None => None,
    }
}

/// An invited client is ready to enter. The nickname can be read back.
pub fn build_invite_ready_line(nickname: &str) -> (line: String)
    ensures
        line@ == "/INVITE_READY "@ + encoded_text(nickname@),
        ready_nickname(line@) == Some(nickname@),
{
    let encoded = encode_text(nickname);
    let line = joined("/INVITE_READY ", encoded.as_str());
    proof {
        let prefix = "/INVITE_READY "@;
        assert(line@.skip(prefix.len() as int) =~= encoded@);
        assert(prefix =~= line@.subrange(0, prefix.len() as int));
        lemma_base64url_chars(encoded@);
        if encoded@.len() > 0 {
            lemma_trimmed_same(encoded@);
        }
    }
    line
}

/// Reads the nickname of an invited client.
pub fn parse_invite_ready_line(line: &str) -> (out: Option<String>)
    ensures
        match (out, ready_nickname(line@)) {
            (Some(o), Some(v)) => o@ == v,
            (None, None) => true,
            _ => false,
        },
{
    match strip_prefix_ref(line, "/INVITE_READY ") {
        Some(encoded) => decode_text(trim_ref(encoded)),
        None => None,
    }
}

/// The line that admits a client to a room.
pub open spec fn session_ok_line(member_id: Seq<char>, owner: Option<Seq<char>>) -> Seq<char> {
    match owner {
        Some(cap) => spaced(seq!["OK"@, "MEMBER"@, encoded_text(member_id), "OWNER"@, cap]),
        None => spaced(seq!["OK"@, "MEMBER"@, encoded_text(member_id)]),
    }
}

/// The member identifier and, for the room's owner, the capability that a line grants.
pub open spec fn session_ok_parts(line: Seq<char>) -> Option<(Seq<char>, Option<Seq<char>>)> {
    let w = words(line);
    if w.len() < 3 || w[0] != "OK"@ || w[1] != "MEMBER"@ {
        None
    } else {
        match decoded_text(w[2]) {
            None => None,
            Some(member_id) => if w.len() == 3 {
                Some((member_id, None))
            } else if w[3] == "OWNER"@ {
                Some(
                    (
                        member_id,
                        if w.len() > 4 {
                            Some(w[4])
                        } else {
                            None
                        },
                    ),
                )
            } else {
                None
            },
        }
    }
}

/// Admits a client to a room.
pub fn build_session_ok_line(member_id: &str, owner_capability: Option<&str>) -> (line: String)
    ensures
        line@ == session_ok_line(member_id@, opt_str(owner_capability)),
        member_id@.len() > 0 && (owner_capability matches Some(cap) ==> is_word(cap@))
            ==> session_ok_parts(line@) == Some((member_id@, opt_str(owner_capability))),
{
    let mut parts: Vec<String> = Vec::new();
    parts.push("OK".to_owned());
    parts.push("MEMBER".to_owned());
    parts.push(encode_text(member_id));
    match owner_capability {
        Some(cap) => {
            parts.push("OWNER".to_owned());
            parts.push(cap.to_owned());
            assert(views(parts@) =~= seq![
                "OK"@,
                "MEMBER"@,
                encoded_text(member_id@),
                "OWNER"@,
                cap@,
            ]);
        },
        None => {
            assert(views(parts@) =~= seq!["OK"@, "MEMBER"@, encoded_text(member_id@)]);
        },
    }
    proof {
        reveal_strlit("OK");
        reveal_strlit("MEMBER");
        reveal_strlit("OWNER");
        if member_id@.len() > 0 && (owner_capability matches Some(cap) ==> is_word(cap@)) {
            let p = views(parts@);
            lemma_base64url_chars(p[2]);
            assert(is_word("OK"@));
            assert(is_word("MEMBER"@));
            assert(is_word("OWNER"@));
            assert forall|i: int| 0 <= i < p.len() implies is_word(#[trigger] p[i]) by {}
            lemma_words_spaced(p);
        }
    }
    join_strings(&parts, " ")
}

/// Reads what a client is admitted as.
pub fn parse_session_ok_line(line: &str) -> (out: Option<(String, Option<String>)>)
    ensures
        match (out, session_ok_parts(line@)) {
            (Some(o), Some(v)) => o.0@ == v.0 && opt_text(o.1) == v.1,
            (None, None) => true,
            _ => false,
        },
{
    let w = split_words(line);
    assert(views(w@).len() == w@.len());
    if w.len() < 3 {
        return None;
    }
    proof {
        lemma_views(w@);
    }
    if !same_text(w[0].as_str(), "OK") || !same_text(w[1].as_str(), "MEMBER") {
        return None;
    }
    let member_id = match decode_text(w[2].as_str()) {
        Some(s) => s,
        None => {
            return None;
        },
    };
    if w.len() == 3 {
        return Some((member_id, None));
    }
    assert(views(w@)[3] == w@[3]@);
    if !same_text(w[3].as_str(), "OWNER") {
        return None;
    }
    if w.len() > 4 {
        assert(views(w@)[4] == w@[4]@);
        Some((member_id, Some(w[4].clone())))
    } else {
        Some((member_id, None))
    }
}

} // verus!
