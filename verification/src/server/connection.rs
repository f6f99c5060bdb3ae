//! What the lines of a connection do: the handshakes, and the talk in a room.
use crate::crypto::handshake::{
    compute_invite_proof, compute_invite_token_id, compute_password_auth_proof,
    derive_invite_transport_key, derive_password_transport_key, handshake_proof, invite_token_id,
    transport_key, AUTH_PROOF_LABEL, INVITE_PROOF_LABEL, INVITE_TRANSPORT_LABEL,
    PASSWORD_TRANSPORT_LABEL,
};
use crate::crypto::transport::{
    transport_opened, OpenView, TransportCrypto, TransportOpenResult, TransportView,
};
use crate::outside::clock::utc_timestamp;
use crate::outside::encoding::{
    base64url_encode, base64url_text, hex_bytes, hex_decode32, hex_digit, hex_encode, hex_text,
    hex_value,
};
use crate::outside::random::{alphanumeric, random_alphanumeric, random_bytes32};
use crate::protocol::invite::{
    build_auth_challenge_line, build_invite_challenge_line, build_invite_error_line,
    build_invite_token_line, invite_error_line, invite_hello_parts, invite_request_parts,
    invite_token_line, parse_auth_hello_line, parse_auth_proof_line, parse_invite_hello_line,
    parse_invite_proof_line, parse_invite_ready_line, parse_server_invite_request_line,
    ready_nickname, ServerInviteRequest, INVITE_TTL_SECS,
};
use crate::protocol::line::{build_ack_line, packet_parts, parse_transport_packet_line};
use crate::server::broadcast::{
    packet_priority, priority_of, BroadcastPriority, EventView, ServerEvent,
};
use crate::server::invite::{
    begin_pending_invite, begun, consume_invite_ready, consumed, insert_invite_token, reset,
    reset_invite_to_unused, tokens, Invites, TokenView, TokensView, UseView,
    INVITE_PENDING_TTL_SECS,
};
use crate::server::room::{
    add_invited_member, create_room_with, join_room, new_room, room_views, rooms_wf, with_member,
    Rooms, RoomsView,
};
use crate::util::codec::{join_strings, sized, spaced};
use crate::util::id_map::entry_ids;
use crate::util::order::same_bytes;
use crate::util::text::{
    is_white, is_word, joined, lemma_value_after, lemma_views, opt_text, same_text, split_words,
    trim_end_ref, trimmed_end, value_after, views, words,
};
use vstd::prelude::*;

verus! {

/// The 32 bytes that a hexadecimal text denotes.
pub open spec fn hex32(text: Seq<char>) -> Option<Seq<u8>> {
    sized(hex_bytes(text), 32)
}

pub fn decode_hex_32(value: &str) -> (out: Option<[u8; 32]>)
    ensures
        match (out, hex32(value@)) {
            (Some(o), Some(v)) => o@ == v,
            (None, None) => true,
            _ => false,
        },
{
    hex_decode32(value)
}

/// Random bytes for a handshake.
pub fn random_nonce32() -> (nonce: [u8; 32])
    ensures
        nonce@.len() == 32,
{
    random_bytes32()
}

/// A fresh identifier for a member: twelve letters and digits.
pub fn random_member_id() -> (id: String)
    ensures
        id@.len() == 12,
        alphanumeric(id@),
{
    random_alphanumeric(12)
}

/// How a connection begins.
#[derive(Debug, PartialEq, Eq)]
pub enum ClientHello {
    /// With the server's password.
    Password { client_nonce: [u8; 32] },
    /// With an invite.
    Invite { token_id: [u8; 32], client_nonce: [u8; 32] },
    /// With a nonce or a token that is not 32 bytes in hexadecimal.
    BadHex,
    /// With anything else.
    Unknown,
}

/// How a connection begins.
pub ghost enum HelloView {
    Password { client_nonce: Seq<u8> },
    Invite { token_id: Seq<u8>, client_nonce: Seq<u8> },
    BadHex,
    Unknown,
}

impl View for ClientHello {
    type V = HelloView;

    open spec fn view(&self) -> HelloView {
        match self {
            ClientHello::Password { client_nonce } => HelloView::Password {
                client_nonce: client_nonce@,
            },
            ClientHello::Invite { token_id, client_nonce } => HelloView::Invite {
                token_id: token_id@,
                client_nonce: client_nonce@,
            },
            ClientHello::BadHex => HelloView::BadHex,
            ClientHello::Unknown => HelloView::Unknown,
        }
    }
}

/// What the first line of a connection asks for.
pub open spec fn hello_of(line: Seq<char>) -> HelloView {
    let first = trimmed_end(line);
    if let Some(nonce) = value_after(first, "/AUTH_HELLO "@) {
        match hex32(nonce) {
            Some(client_nonce) => HelloView::Password { client_nonce },
            None => HelloView::BadHex,
        }
    } else if let Some((token, nonce)) = invite_hello_parts(first) {
        match (hex32(token), hex32(nonce)) {
            (Some(token_id), Some(client_nonce)) => HelloView::Invite { token_id, client_nonce },
            _ => HelloView::BadHex,
        }
    } else {
        HelloView::Unknown
    }
}

/// Reads the first line of a connection.
pub fn client_hello(line: &str) -> (hello: ClientHello)
    ensures
        hello@ == hello_of(line@),
{
    let first = trim_end_ref(line);
    match parse_auth_hello_line(first) {
        Some(nonce) => {
            return match decode_hex_32(nonce.as_str()) {
                Some(client_nonce) => ClientHello::Password { client_nonce },
                None => ClientHello::BadHex,
            };
        },
        None => {},
    }
    match parse_invite_hello_line(first) {
        Some((token, nonce)) => match (
            decode_hex_32(token.as_str()),
            decode_hex_32(nonce.as_str()),
        ) {
            (Some(token_id), Some(client_nonce)) => ClientHello::Invite { token_id, client_nonce },
            _ => ClientHello::BadHex,
        },
        None => ClientHello::Unknown,
    }
}

/// The challenge to one who knows the password.
pub fn auth_challenge(server_nonce: &[u8; 32]) -> (line: String)
    ensures
        line@ == "/AUTH_CHALLENGE "@ + hex_text(server_nonce@),
{
    build_auth_challenge_line(hex_encode(server_nonce.as_slice()).as_str())
}

/// The challenge to one who was invited.
pub fn invite_challenge(server_nonce: &[u8; 32]) -> (line: String)
    ensures
        line@ == "/INVITE_CHALLENGE "@ + hex_text(server_nonce@),
{
    build_invite_challenge_line(hex_encode(server_nonce.as_slice()).as_str())
}

/// What a client's proof is worth.
#[derive(Debug, PartialEq, Eq)]
pub enum ProofCheck {
    /// The line is no proof.
    Missing,
    /// The proof is not 32 bytes in hexadecimal.
    BadHex,
    /// The proof is wrong.
    Wrong,
    /// The proof is right: the key of the connection.
    Right([u8; 32]),
}

/// What a client's proof is worth.
pub ghost enum ProofView {
    Missing,
    BadHex,
    Wrong,
    Right(Seq<u8>),
}

impl View for ProofCheck {
    type V = ProofView;

    open spec fn view(&self) -> ProofView {
        match self {
            ProofCheck::Missing => ProofView::Missing,
            ProofCheck::BadHex => ProofView::BadHex,
            ProofCheck::Wrong => ProofView::Wrong,
            ProofCheck::Right(key) => ProofView::Right(key@),
        }
    }
}

/// What a proof in hexadecimal is worth when a given one is expected.
pub open spec fn proof_value(
    value: Option<Seq<char>>,
    expected: Seq<u8>,
    key: Seq<u8>,
) -> ProofView {
    match value {
        None => ProofView::Missing,
        Some(text) => match hex32(text) {
            None => ProofView::BadHex,
            Some(proof_bytes) => if proof_bytes == expected {
                ProofView::Right(key)
            } else {
                ProofView::Wrong
            },
        },
    }
}

/// What a line is worth as a proof that the client knows the password.
pub open spec fn password_proof(
    line: Seq<char>,
    hash: Seq<u8>,
    cn: Seq<u8>,
    sn: Seq<u8>,
) -> ProofView {
    proof_value(
        value_after(trimmed_end(line), "/AUTH_PROOF "@),
        handshake_proof(hash, AUTH_PROOF_LABEL@, cn + sn),
        transport_key(hash, PASSWORD_TRANSPORT_LABEL@, cn + sn),
    )
}

/// Checks the proof that the client knows the password.
pub fn check_password_proof(
    line: &str,
    server_pwd_hash: &[u8; 32],
    client_nonce: &[u8; 32],
    server_nonce: &[u8; 32],
) -> (check: ProofCheck)
    ensures
        check@ == password_proof(line@, server_pwd_hash@, client_nonce@, server_nonce@),
{
    let text = match parse_auth_proof_line(trim_end_ref(line)) {
        Some(text) => text,
        None => {
            return ProofCheck::Missing;
        },
    };
    let proof_bytes = match decode_hex_32(text.as_str()) {
        Some(bytes) => bytes,
        None => {
            return ProofCheck::BadHex;
        },
    };
    let expected = compute_password_auth_proof(
        server_pwd_hash,
        client_nonce.as_slice(),
        server_nonce.as_slice(),
    );
    if same_bytes(proof_bytes.as_slice(), expected.as_slice()) {
        ProofCheck::Right(
            derive_password_transport_key(
                server_pwd_hash,
                client_nonce.as_slice(),
                server_nonce.as_slice(),
            ),
        )
    } else {
        ProofCheck::Wrong
    }
}

/// What a line is worth as a proof that the client was invited.
pub open spec fn invite_proof(
    line: Seq<char>,
    secret: Seq<u8>,
    token_id: Seq<u8>,
    cn: Seq<u8>,
    sn: Seq<u8>,
) -> ProofView {
    proof_value(
        value_after(trimmed_end(line), "/INVITE_PROOF "@),
        handshake_proof(secret, INVITE_PROOF_LABEL@, token_id + cn + sn),
        transport_key(secret, INVITE_TRANSPORT_LABEL@, token_id + cn + sn),
    )
}

/// Checks the proof that the client was invited.
pub fn check_invite_proof(
    line: &str,
    token_secret: &[u8; 32],
    token_id: &[u8; 32],
    client_nonce: &[u8; 32],
    server_nonce: &[u8; 32],
) -> (check: ProofCheck)
    ensures
        check@ == invite_proof(line@, token_secret@, token_id@, client_nonce@, server_nonce@),
{
    let text = match parse_invite_proof_line(trim_end_ref(line)) {
        Some(text) => text,
        None => {
            return ProofCheck::Missing;
        },
    };
    let proof_bytes = match decode_hex_32(text.as_str()) {
        Some(bytes) => bytes,
        None => {
            return ProofCheck::BadHex;
        },
    };
    let expected = compute_invite_proof(
        token_secret.as_slice(),
        token_id.as_slice(),
        client_nonce.as_slice(),
        server_nonce.as_slice(),
    );
    if same_bytes(proof_bytes.as_slice(), expected.as_slice()) {
        ProofCheck::Right(
            derive_invite_transport_key(
                token_secret.as_slice(),
                token_id.as_slice(),
                client_nonce.as_slice(),
                server_nonce.as_slice(),
            ),
        )
    } else {
        ProofCheck::Wrong
    }
}

/// Hexadecimal text denotes the bytes it was made of, and is a word.
pub proof fn lemma_hex_round_trip(bytes: Seq<u8>)
    ensures
        hex_bytes(hex_text(bytes)) == Some(bytes),
        bytes.len() > 0 ==> is_word(hex_text(bytes)),
{
    let text = hex_text(bytes);
    assert forall|i: int| 0 <= i < text.len() implies hex_value(#[trigger] text[i]) is Some
        && !is_white(text[i]) && hex_value(text[i])->0 == (if i % 2 == 0 {
        bytes[i / 2] as int / 16
    } else {
        bytes[i / 2] as int % 16
    }) by {
        let b = bytes[i / 2] as int;
        assert(0 <= b < 256);
        lemma_hex_digit(b / 16);
        lemma_hex_digit(b % 16);
    }
    let back = Seq::new(
        text.len() / 2,
        |i: int| (hex_value(text[2 * i])->0 * 16 + hex_value(text[2 * i + 1])->0) as u8,
    );
    assert(text.len() % 2 == 0);
    assert(back =~= bytes) by {
        assert forall|i: int| 0 <= i < bytes.len() implies back[i] == bytes[i] by {
            assert((2 * i) / 2 == i && (2 * i) % 2 == 0);
            assert((2 * i + 1) / 2 == i && (2 * i + 1) % 2 == 1);
            assert(hex_value(text[2 * i])->0 == bytes[i] as int / 16);
            assert(hex_value(text[2 * i + 1])->0 == bytes[i] as int % 16);
        }
    }
}

proof fn lemma_hex_digit(n: int)
    requires
        0 <= n < 16,
    ensures
        hex_value(hex_digit(n)) == Some(n),
        !is_white(hex_digit(n)),
{
}

/// A client that knows the password is accepted, and both ends have the same key: the proof it
/// computes from the password and the nonces is the one expected.
pub proof fn law_password_client_is_accepted(hash: Seq<u8>, cn: Seq<u8>, sn: Seq<u8>)
    requires
        handshake_proof(hash, AUTH_PROOF_LABEL@, cn + sn).len() == 32,
    ensures
        password_proof(
            "/AUTH_PROOF "@ + hex_text(handshake_proof(hash, AUTH_PROOF_LABEL@, cn + sn)),
            hash,
            cn,
            sn,
        ) == ProofView::Right(transport_key(hash, PASSWORD_TRANSPORT_LABEL@, cn + sn)),
{
    let tag = handshake_proof(hash, AUTH_PROOF_LABEL@, cn + sn);
    lemma_hex_round_trip(tag);
    let line = "/AUTH_PROOF "@ + hex_text(tag);
    lemma_value_after("/AUTH_PROOF "@, hex_text(tag));
    assert(!is_white(line.last())) by {
        assert(line.last() == hex_text(tag).last());
    }
    assert(trimmed_end(line) == line);
}

/// A client that knows the secret of an invite is accepted, and both ends have the same key.
pub proof fn law_invited_client_is_accepted(
    secret: Seq<u8>,
    token_id: Seq<u8>,
    cn: Seq<u8>,
    sn: Seq<u8>,
)
    requires
        handshake_proof(secret, INVITE_PROOF_LABEL@, token_id + cn + sn).len() == 32,
    ensures
        invite_proof(
            "/INVITE_PROOF "@ + hex_text(
                handshake_proof(secret, INVITE_PROOF_LABEL@, token_id + cn + sn),
            ),
            secret,
            token_id,
            cn,
            sn,
        ) == ProofView::Right(
            transport_key(secret, INVITE_TRANSPORT_LABEL@, token_id + cn + sn),
        ),
{
    let tag = handshake_proof(secret, INVITE_PROOF_LABEL@, token_id + cn + sn);
    lemma_hex_round_trip(tag);
    let line = "/INVITE_PROOF "@ + hex_text(tag);
    lemma_value_after("/INVITE_PROOF "@, hex_text(tag));
    assert(!is_white(line.last())) by {
        assert(line.last() == hex_text(tag).last());
    }
    assert(trimmed_end(line) == line);
}

/// The line that names the rooms.
pub fn rooms_line(rooms: &Rooms) -> (line: String)
    ensures
        line@ == spaced(seq!["ROOMS"@] + entry_ids(rooms.entries@)),
{
    let mut parts: Vec<String> = Vec::new();
    parts.push("ROOMS".to_owned());
    let ghost ids = entry_ids(rooms.entries@);
    let mut i: usize = 0;
    assert(views(parts@) =~= seq!["ROOMS"@] + ids.take(0));
    while i < rooms.entries.len()
        invariant
            i <= rooms.entries@.len(),
            ids == entry_ids(rooms.entries@),
            views(parts@) == seq!["ROOMS"@] + ids.take(i as int),
        decreases rooms.entries.len() - i,
    {
        let ghost before = parts@;
        parts.push(rooms.entries[i].0.clone());
        proof {
            assert(ids.take(i + 1) =~= ids.take(i as int).push(ids[i as int]));
            assert(views(parts@) =~= views(before).push(ids[i as int]));
        }
        i += 1;
    }
    assert(ids.take(ids.len() as int) =~= ids);
    join_strings(&parts, " ")
}

/// Someone who is in a room.
#[derive(Debug)]
pub struct RoomHandshake {
    pub room_id: String,
    pub member_id: String,
    pub nickname: String,
    pub owner_capability: Option<String>,
}

/// Someone who is in a room.
#[verifier::ext_equal]
pub ghost struct HandshakeView {
    pub room_id: Seq<char>,
    pub member_id: Seq<char>,
    pub nickname: Seq<char>,
    pub owner_capability: Option<Seq<char>>,
}

impl View for RoomHandshake {
    type V = HandshakeView;

    open spec fn view(&self) -> HandshakeView {
        HandshakeView {
            room_id: self.room_id@,
            member_id: self.member_id@,
            nickname: self.nickname@,
            owner_capability: opt_text(self.owner_capability),
        }
    }
}

/// What a command to create or join a room does, and what comes of it: someone in a room, nothing
/// when a word is missing, or why it was refused.
pub open spec fn admitted(
    m: RoomsView,
    cmd: Seq<char>,
    member_id: Seq<char>,
    capability: Seq<char>,
) -> (RoomsView, Result<Option<HandshakeView>, Seq<char>>) {
    let w = words(cmd);
    if w.len() == 0 || (w[0] != "CREATE"@ && w[0] != "JOIN"@) {
        (m, Err("UnknownAction"@))
    } else if w.len() < 4 {
        (m, Ok(None))
    } else if w[0] == "CREATE"@ {
        if m.contains_key(w[1]) {
            (m, Err("RoomExists"@))
        } else {
            (
                m.insert(w[1], new_room(w[2], member_id, w[3], capability)),
                Ok(
                    Some(
                        HandshakeView {
                            room_id: w[1],
                            member_id,
                            nickname: w[3],
                            owner_capability: Some(capability),
                        },
                    ),
                ),
            )
        }
    } else if !m.contains_key(w[1]) {
        (m, Err("NoSuchRoom"@))
    } else if m[w[1]].join_credential != w[2] {
        (m, Err("BadCredential"@))
    } else {
        (
            m.insert(w[1], with_member(m[w[1]], member_id, w[3])),
            Ok(
                Some(
                    HandshakeView {
                        room_id: w[1],
                        member_id,
                        nickname: w[3],
                        owner_capability: None,
                    },
                ),
            ),
        )
    }
}

/// Carries out a command to create or join a room, under a given identifier and capability.
pub fn parse_join_command_with(
    rooms: &mut Rooms,
    cmd: &str,
    member_id: String,
    owner_capability: String,
) -> (out: Result<Option<RoomHandshake>, &'static str>)
    requires
        rooms_wf(old(rooms)),
    ensures
        rooms_wf(final(rooms)),
        room_views(final(rooms)) == admitted(
            room_views(old(rooms)),
            cmd@,
            member_id@,
            owner_capability@,
        ).0,
        match (out, admitted(room_views(old(rooms)), cmd@, member_id@, owner_capability@).1) {
            (Ok(Some(h)), Ok(Some(v))) => h@ == v,
            (Ok(None), Ok(None)) => true,
            (Err(e), Err(v)) => e@ == v,
            _ => false,
        },
{
    let w = split_words(cmd);
    assert(views(w@).len() == w@.len());
    if w.len() == 0 {
        return Err("UnknownAction");
    }
    assert(views(w@)[0] == w@[0]@);
    let create = same_text(w[0].as_str(), "CREATE");
    if !create && !same_text(w[0].as_str(), "JOIN") {
        return Err("UnknownAction");
    }
    if w.len() < 4 {
        return Ok(None);
    }
    proof {
        lemma_views(w@);
    }
    if create {
        match create_room_with(
            rooms,
            w[1].clone(),
            w[2].clone(),
            member_id.clone(),
            w[3].clone(),
            owner_capability.clone(),
        ) {
            Ok(_) => Ok(
                Some(
                    RoomHandshake {
                        room_id: w[1].clone(),
                        member_id,
                        nickname: w[3].clone(),
                        owner_capability: Some(owner_capability),
                    },
                ),
            ),
            Err(e) => Err(e),
        }
    } else {
        match join_room(
            rooms,
            w[1].as_str(),
            w[2].as_str(),
            member_id.clone(),
            w[3].clone(),
        ) {
            Ok(_) => Ok(
                Some(
                    RoomHandshake {
                        room_id: w[1].clone(),
                        member_id,
                        nickname: w[3].clone(),
                        owner_capability: None,
                    },
                ),
            ),
            Err(e) => Err(e),
        }
    }
}

/// Carries out a command to create or join a room, under a fresh identifier and capability.
pub fn parse_join_command(rooms: &mut Rooms, cmd: &str) -> (out: Result<
    Option<RoomHandshake>,
    &'static str,
>)
    requires
        rooms_wf(old(rooms)),
    ensures
        rooms_wf(final(rooms)),
        exists|member_id: Seq<char>, capability: Seq<char>|
            member_id.len() == 12 && alphanumeric(member_id) && capability.len() == 32
                && alphanumeric(capability) && room_views(final(rooms)) == (#[trigger] admitted(
                room_views(old(rooms)),
                cmd@,
                member_id,
                capability,
            )).0 && match (
                out,
                admitted(room_views(old(rooms)), cmd@, member_id, capability).1,
            ) {
                (Ok(Some(h)), Ok(Some(v))) => h@ == v,
                (Ok(None), Ok(None)) => true,
                (Err(e), Err(v)) => e@ == v,
                _ => false,
            },
{
    let member_id = random_member_id();
    let capability = random_alphanumeric(32);
    parse_join_command_with(rooms, cmd, member_id, capability)
}

/// The command inside the line that follows the list of rooms, when the line is a new one.
pub fn fresh_plain(transport: &mut TransportCrypto, line: &str) -> (plain: Option<String>)
    requires
        old(transport).wf(),
    ensures
        final(transport).wf(),
        final(transport)@ == transport_opened(old(transport)@, trimmed_end(line@)).1,
        match plain {
            Some(p) => transport_opened(old(transport)@, trimmed_end(line@)).0 == Some(
                OpenView::Fresh(p@),
            ),
            None => !(transport_opened(old(transport)@, trimmed_end(line@)).0 matches Some(
                OpenView::Fresh(_),
            )),
        },
{
    match transport.open(trim_end_ref(line)) {
        Some(TransportOpenResult::Fresh(plain)) => Some(plain),
        _ => None,
    }
}

/// An invite handshake that has begun.
#[derive(Debug)]
pub struct InviteStart {
    pub token_id: [u8; 32],
    pub token_id_hex: String,
    pub client_nonce: [u8; 32],
    pub server_nonce: [u8; 32],
    pub token_secret: [u8; 32],
    pub room_id: String,
    pub blob_b64: String,
}

/// Begins an invite handshake, when the token may be used.
pub fn begin_invite(
    invites: &mut Invites,
    token_id: [u8; 32],
    client_nonce: [u8; 32],
    server_nonce: [u8; 32],
    now: i64,
) -> (start: Option<InviteStart>)
    requires
        old(invites).wf(),
        now + INVITE_PENDING_TTL_SECS <= i64::MAX,
    ensures
        final(invites).wf(),
        ({
            let b = begun(
                tokens(old(invites)),
                hex_text(token_id@),
                client_nonce@,
                server_nonce@,
                now,
            );
            &&& tokens(final(invites)) == b.0
            &&& match (start, b.1) {
                (Some(s), Some(t)) => {
                    &&& s.token_id == token_id
                    &&& s.token_id_hex@ == hex_text(token_id@)
                    &&& s.client_nonce == client_nonce
                    &&& s.server_nonce == server_nonce
                    &&& s.token_secret@ == t.token_secret
                    &&& s.room_id@ == t.room_id
                    &&& s.blob_b64@ == t.blob_b64
                },
                (None, None) => true,
                _ => false,
            }
        }),
{
    let token_id_hex = hex_encode(token_id.as_slice());
    match begin_pending_invite(invites, token_id_hex.as_str(), client_nonce, server_nonce, now) {
        Some((token_secret, room_id, blob_b64)) => Some(
            InviteStart {
                token_id,
                token_id_hex,
                client_nonce,
                server_nonce,
                token_secret,
                room_id,
                blob_b64,
            },
        ),
        None => None,
    }
}

/// Takes the line that should prove the invite; `None` when the connection was closed. The token
/// is released again unless the proof is right, or is not 32 bytes in hexadecimal.
pub fn invite_proof_step(
    invites: &mut Invites,
    start: &InviteStart,
    line: Option<&str>,
    now: i64,
) -> (check: ProofCheck)
    requires
        old(invites).wf(),
    ensures
        final(invites).wf(),
        check@ == (match line {
            None => ProofView::Missing,
            Some(l) => invite_proof(
                l@,
                start.token_secret@,
                start.token_id@,
                start.client_nonce@,
                start.server_nonce@,
            ),
        }),
        tokens(final(invites)) == (match check {
            ProofCheck::Missing | ProofCheck::Wrong => reset(
                tokens(old(invites)),
                start.token_id_hex@,
                now,
            ),
            _ => tokens(old(invites)),
        }),
{
    let check = match line {
        None => ProofCheck::Missing,
        Some(l) => check_invite_proof(
            l,
            &start.token_secret,
            &start.token_id,
            &start.client_nonce,
            &start.server_nonce,
        ),
    };
    match check {
        ProofCheck::Missing | ProofCheck::Wrong => {
            reset_invite_to_unused(invites, start.token_id_hex.as_str(), now);
        },
        _ => {},
    }
    check
}

/// The nickname in the line with which an invited client enters.
pub open spec fn entering_nickname(t: TransportView, line: Seq<char>) -> Option<Seq<char>> {
    match transport_opened(t, trimmed_end(line)).0 {
        Some(OpenView::Fresh(plain)) => ready_nickname(plain),
        _ => None,
    }
}

/// What the line with which an invited client enters does, and what comes of it: nothing when the
/// line names no one, someone in the room, or why not.
pub open spec fn invited(
    m: RoomsView,
    t: TokensView,
    id_hex: Seq<char>,
    cn: Seq<u8>,
    sn: Seq<u8>,
    room_id: Seq<char>,
    nickname: Option<Seq<char>>,
    member_id: Seq<char>,
    now: i64,
) -> (RoomsView, TokensView, Result<Option<HandshakeView>, Seq<char>>) {
    match nickname {
        None => (m, reset(t, id_hex, now), Ok(None)),
        Some(nickname) => {
            let c = consumed(t, id_hex, cn, sn, now);
            if !c.1 {
                (m, c.0, Err("InviteInvalid"@))
            } else if !m.contains_key(room_id) {
                (m, c.0, Err("NoSuchRoom"@))
            } else {
                (
                    m.insert(room_id, with_member(m[room_id], member_id, nickname)),
                    c.0,
                    Ok(
                        Some(
                            HandshakeView { room_id, member_id, nickname, owner_capability: None },
                        ),
                    ),
                )
            }
        },
    }
}

/// Takes the line with which an invited client enters; `None` when the connection was closed.
pub fn invite_ready_step(
    rooms: &mut Rooms,
    invites: &mut Invites,
    transport: &mut TransportCrypto,
    start: &InviteStart,
    line: Option<&str>,
    member_id: String,
    now: i64,
) -> (out: Result<Option<RoomHandshake>, &'static str>)
    requires
        rooms_wf(old(rooms)),
        old(invites).wf(),
        old(transport).wf(),
    ensures
        rooms_wf(final(rooms)),
        final(invites).wf(),
        final(transport).wf(),
        final(transport)@ == (match line {
            Some(l) => transport_opened(old(transport)@, trimmed_end(l@)).1,
            None => old(transport)@,
        }),
        ({
            let nickname = match line {
                Some(l) => entering_nickname(old(transport)@, l@),
                None => None,
            };
            let v = invited(
                room_views(old(rooms)),
                tokens(old(invites)),
                start.token_id_hex@,
                start.client_nonce@,
                start.server_nonce@,
                start.room_id@,
                nickname,
                member_id@,
                now,
            );
            &&& room_views(final(rooms)) == v.0
            &&& tokens(final(invites)) == v.1
            &&& match (out, v.2) {
                (Ok(Some(h)), Ok(Some(x))) => h@ == x,
                (Ok(None), Ok(None)) => true,
                (Err(e), Err(x)) => e@ == x,
                _ => false,
            }
        }),
{
    let nickname = match line {
        None => None,
        Some(l) => match fresh_plain(transport, l) {
            Some(plain) => parse_invite_ready_line(plain.as_str()),
            None => None,
        },
    };
    let nickname = match nickname {
        Some(nickname) => nickname,
        None => {
            reset_invite_to_unused(invites, start.token_id_hex.as_str(), now);
            return Ok(None);
        },
    };
    if !consume_invite_ready(
        invites,
        start.token_id_hex.as_str(),
        &start.client_nonce,
        &start.server_nonce,
        now,
    ) {
        return Err("InviteInvalid");
    }
    if !add_invited_member(rooms, start.room_id.as_str(), member_id.clone(), nickname.clone()) {
        return Err("NoSuchRoom");
    }
    Ok(
        Some(
            RoomHandshake {
                room_id: start.room_id.clone(),
                member_id,
                nickname,
                owner_capability: None,
            },
        ),
    )
}

/// Why a request for an invite is refused: it names another room, the room is gone, the one who
/// asks does not own it, or does not hold its capability.
pub open spec fn request_fault(
    m: RoomsView,
    member: HandshakeView,
    asked_room: Seq<char>,
    asked_capability: Seq<char>,
) -> Option<Seq<char>> {
    if asked_room != member.room_id {
        Some("RoomMismatch"@)
    } else if !m.contains_key(member.room_id) {
        Some("NoSuchRoom"@)
    } else {
        let room = m[member.room_id];
        if room.owner_member_id != Some(member.member_id) || room.owner_capability is None {
            Some("OwnerOffline"@)
        } else if member.owner_capability != room.owner_capability || asked_capability
            != room.owner_capability->0 {
            Some("InviteNotAllowed"@)
        } else {
            None
        }
    }
}

/// What a request for an invite does to the tokens, and the answer to it.
pub open spec fn invite_answer(
    m: RoomsView,
    t: TokensView,
    member: HandshakeView,
    request: (Seq<char>, Seq<char>, Seq<char>, Seq<char>),
    secret: Seq<u8>,
    now: i64,
) -> (TokensView, Seq<char>) {
    match request_fault(m, member, request.1, request.2) {
        Some(reason) => (t, invite_error_line(request.0, reason)),
        None => {
            let expires_at = (now + INVITE_TTL_SECS) as i64;
            (
                t.insert(
                    hex_text(invite_token_id(secret)),
                    TokenView {
                        room_id: member.room_id,
                        expires_at,
                        blob_b64: request.3,
                        token_secret: secret,
                        state: UseView::Unused,
                    },
                ),
                invite_token_line(request.0, base64url_text(secret), expires_at),
            )
        },
    }
}

/// Answers a request for an invite with a given secret, at a given time.
pub fn handle_invite_request_with(
    rooms: &Rooms,
    invites: &mut Invites,
    member: &RoomHandshake,
    request: ServerInviteRequest,
    token_secret: [u8; 32],
    now: i64,
) -> (answer: String)
    requires
        rooms_wf(rooms),
        old(invites).wf(),
        now + INVITE_TTL_SECS <= i64::MAX,
    ensures
        final(invites).wf(),
        (tokens(final(invites)), answer@) == invite_answer(
            room_views(rooms),
            tokens(old(invites)),
            member@,
            (request.request_id@, request.room_id@, request.owner_capability@, request.blob_b64@),
            token_secret@,
            now,
        ),
{
    if !same_text(request.room_id.as_str(), member.room_id.as_str()) {
        return build_invite_error_line(request.request_id.as_str(), "RoomMismatch");
    }
    let info = match rooms.get(member.room_id.as_str()) {
        Some(info) => info,
        None => {
            return build_invite_error_line(request.request_id.as_str(), "NoSuchRoom");
        },
    };
    assert(room_views(rooms)[member.room_id@] == info@);
    let is_owner = match &info.owner_member_id {
        Some(owner) => same_text(owner.as_str(), member.member_id.as_str()),
        None => false,
    };
    match &info.owner_capability {
        Some(capability) => {
            if !is_owner {
                return build_invite_error_line(request.request_id.as_str(), "OwnerOffline");
            }
            let holds = match &member.owner_capability {
                Some(held) => same_text(held.as_str(), capability.as_str()),
                None => false,
            };
            if !holds || !same_text(request.owner_capability.as_str(), capability.as_str()) {
                return build_invite_error_line(request.request_id.as_str(), "InviteNotAllowed");
            }
        },
        None => {
            return build_invite_error_line(request.request_id.as_str(), "OwnerOffline");
        },
    }
    let token_id = compute_invite_token_id(token_secret.as_slice());
    let token_id_hex = hex_encode(token_id.as_slice());
    let token_secret_b64 = base64url_encode(token_secret.as_slice());
    let expires_at: i64 = now + INVITE_TTL_SECS;
    let answer = build_invite_token_line(
        request.request_id.as_str(),
        token_secret_b64.as_str(),
        expires_at,
    );
    insert_invite_token(
        invites,
        token_id_hex,
        member.room_id.clone(),
        expires_at,
        request.blob_b64,
        token_secret,
    );
    answer
}

/// A refused request leaves the tokens as they are; only the owner, holding the capability, gets a
/// token.
pub proof fn law_only_owner_gets_token(
    m: RoomsView,
    t: TokensView,
    member: HandshakeView,
    request: (Seq<char>, Seq<char>, Seq<char>, Seq<char>),
    secret: Seq<u8>,
    now: i64,
)
    ensures
        invite_answer(m, t, member, request, secret, now).0 != t ==> {
            &&& m.contains_key(member.room_id)
            &&& m[member.room_id].owner_member_id == Some(member.member_id)
            &&& m[member.room_id].owner_capability == member.owner_capability
            &&& member.owner_capability == Some(request.2)
        },
        request_fault(m, member, request.1, request.2) is Some ==> invite_answer(
            m,
            t,
            member,
            request,
            secret,
            now,
        ).0 == t,
{
}

/// A token that was handed out lets its holder begin a handshake until it expires.
pub proof fn law_handed_out_token_begins_handshake(
    m: RoomsView,
    t: TokensView,
    member: HandshakeView,
    request: (Seq<char>, Seq<char>, Seq<char>, Seq<char>),
    secret: Seq<u8>,
    now: i64,
    cn: Seq<u8>,
    sn: Seq<u8>,
    later: i64,
)
    requires
        request_fault(m, member, request.1, request.2) is None,
        now + INVITE_TTL_SECS <= i64::MAX,
        later <= now + INVITE_TTL_SECS,
    ensures
        begun(
            invite_answer(m, t, member, request, secret, now).0,
            hex_text(invite_token_id(secret)),
            cn,
            sn,
            later,
        ).1 matches Some(token) && token.token_secret == secret && token.room_id == member.room_id
            && token.blob_b64 == request.3,
{
}

/// What a line of a member causes: answers to the member, and something for the others.
#[derive(Debug)]
pub struct LineOutcome {
    pub replies: Vec<String>,
    pub broadcast: Option<(BroadcastPriority, ServerEvent)>,
}

/// What a line of a member causes.
#[verifier::ext_equal]
pub ghost struct OutcomeView {
    pub replies: Seq<Seq<char>>,
    pub broadcast: Option<(BroadcastPriority, EventView)>,
}

impl View for LineOutcome {
    type V = OutcomeView;

    open spec fn view(&self) -> OutcomeView {
        OutcomeView {
            replies: views(self.replies@),
            broadcast: match self.broadcast {
                Some((priority, event)) => Some((priority, event@)),
                None => None,
            },
        }
    }
}

/// What a payload causes: an answer when it asks for an invite, otherwise it goes to the others
/// under the member's name.
pub open spec fn payload_outcome(
    m: RoomsView,
    t: TokensView,
    member: HandshakeView,
    replies: Seq<Seq<char>>,
    priority: BroadcastPriority,
    payload: Seq<char>,
    secret: Seq<u8>,
    now: i64,
) -> (TokensView, OutcomeView) {
    match invite_request_parts(payload) {
        Some(request) => {
            let answer = invite_answer(m, t, member, request, secret, now);
            (answer.0, OutcomeView { replies: replies.push(answer.1), broadcast: None })
        },
        None => (
            t,
            OutcomeView {
                replies,
                broadcast: Some(
                    (
                        priority,
                        EventView {
                            source: Some(member.member_id),
                            plain: "["@ + member.nickname + "] "@ + payload,
                        },
                    ),
                ),
            },
        ),
    }
}

/// What an opened line causes. A sign of life is answered and a packet is acknowledged each time;
/// nothing else comes of a line that has come before.
pub open spec fn plain_outcome(
    m: RoomsView,
    t: TokensView,
    member: HandshakeView,
    plain: Seq<char>,
    duplicate: bool,
    secret: Seq<u8>,
    now: i64,
) -> (TokensView, OutcomeView) {
    if plain == "/ping"@ {
        (t, OutcomeView { replies: seq!["/ping_ack"@], broadcast: None })
    } else {
        match packet_parts(plain) {
            Some((packet_id, payload)) => {
                let replies = seq!["/ACK "@ + packet_id];
                if duplicate {
                    (t, OutcomeView { replies, broadcast: None })
                } else {
                    payload_outcome(
                        m,
                        t,
                        member,
                        replies,
                        priority_of(packet_id),
                        payload,
                        secret,
                        now,
                    )
                }
            },
            None => if duplicate {
                (t, OutcomeView { replies: Seq::empty(), broadcast: None })
            } else {
                payload_outcome(
                    m,
                    t,
                    member,
                    Seq::empty(),
                    BroadcastPriority::High,
                    plain,
                    secret,
                    now,
                )
            },
        }
    }
}

/// What a line of a member causes.
pub open spec fn line_outcome(
    m: RoomsView,
    t: TokensView,
    member: HandshakeView,
    opened: Option<OpenView>,
    secret: Seq<u8>,
    now: i64,
) -> (TokensView, OutcomeView) {
    match opened {
        None => (t, OutcomeView { replies: Seq::empty(), broadcast: None }),
        Some(OpenView::Fresh(plain)) => plain_outcome(m, t, member, plain, false, secret, now),
        Some(OpenView::Duplicate(plain)) => plain_outcome(m, t, member, plain, true, secret, now),
    }
}

fn payload_step(
    rooms: &Rooms,
    invites: &mut Invites,
    member: &RoomHandshake,
    replies: Vec<String>,
    priority: BroadcastPriority,
    payload: String,
    token_secret: [u8; 32],
    now: i64,
) -> (out: LineOutcome)
    requires
        rooms_wf(rooms),
        old(invites).wf(),
        now + INVITE_TTL_SECS <= i64::MAX,
    ensures
        final(invites).wf(),
        (tokens(final(invites)), out@) == payload_outcome(
            room_views(rooms),
            tokens(old(invites)),
            member@,
            views(replies@),
            priority,
            payload@,
            token_secret@,
            now,
        ),
{
    let mut replies = replies;
    match parse_server_invite_request_line(payload.as_str()) {
        Some(request) => {
            let answer = handle_invite_request_with(
                rooms,
                invites,
                member,
                request,
                token_secret,
                now,
            );
            let ghost before = replies@;
            replies.push(answer);
            assert(views(replies@) =~= views(before).push(answer@));
            LineOutcome { replies, broadcast: None }
        },
        None => {
            let mut plain = joined("[", member.nickname.as_str());
            plain.append("] ");
            plain.append(payload.as_str());
            LineOutcome {
                replies,
                broadcast: Some(
                    (
                        priority,
                        ServerEvent::Plain {
                            source_member_id: Some(member.member_id.clone()),
                            plain,
                        },
                    ),
                ),
            }
        },
    }
}

/// Takes a line of a member, with a secret for an invite that it may ask for, at a given time.
pub fn room_line_step_with(
    rooms: &Rooms,
    invites: &mut Invites,
    transport: &mut TransportCrypto,
    member: &RoomHandshake,
    line: &str,
    token_secret: [u8; 32],
    now: i64,
) -> (out: LineOutcome)
    requires
        rooms_wf(rooms),
        old(invites).wf(),
        old(transport).wf(),
        now + INVITE_TTL_SECS <= i64::MAX,
    ensures
        final(invites).wf(),
        final(transport).wf(),
        final(transport)@ == transport_opened(old(transport)@, trimmed_end(line@)).1,
        (tokens(final(invites)), out@) == line_outcome(
            room_views(rooms),
            tokens(old(invites)),
            member@,
            transport_opened(old(transport)@, trimmed_end(line@)).0,
            token_secret@,
            now,
        ),
{
    let mut replies: Vec<String> = Vec::new();
    assert(views(replies@) =~= Seq::<Seq<char>>::empty());
    let (plain, duplicate) = match transport.open(trim_end_ref(line)) {
        None => {
            return LineOutcome { replies, broadcast: None };
        },
        Some(TransportOpenResult::Fresh(plain)) => (plain, false),
        Some(TransportOpenResult::Duplicate(plain)) => (plain, true),
    };
    if same_text(plain.as_str(), "/ping") {
        replies.push("/ping_ack".to_owned());
        assert(views(replies@) =~= seq!["/ping_ack"@]);
        return LineOutcome { replies, broadcast: None };
    }
    match parse_transport_packet_line(plain.as_str()) {
        Some((packet_id, payload)) => {
            replies.push(build_ack_line(packet_id.as_str()));
            assert(views(replies@) =~= seq!["/ACK "@ + packet_id@]);
            if duplicate {
                return LineOutcome { replies, broadcast: None };
            }
            let priority = packet_priority(packet_id.as_str());
            payload_step(
                rooms,
                invites,
                member,
                replies,
                priority,
                payload,
                token_secret,
                now,
            )
        },
        None => {
            if duplicate {
                return LineOutcome { replies, broadcast: None };
            }
            payload_step(
                rooms,
                invites,
                member,
                replies,
                BroadcastPriority::High,
                plain,
                token_secret,
                now,
            )
        },
    }
}

/// Takes a line of a member, at a given time, with a fresh secret for an invite that it may ask
/// for.
pub fn room_line_step(
    rooms: &Rooms,
    invites: &mut Invites,
    transport: &mut TransportCrypto,
    member: &RoomHandshake,
    line: &str,
    now: i64,
) -> (out: LineOutcome)
    requires
        rooms_wf(rooms),
        old(invites).wf(),
        old(transport).wf(),
        now + INVITE_TTL_SECS <= i64::MAX,
    ensures
        final(invites).wf(),
        final(transport).wf(),
        final(transport)@ == transport_opened(old(transport)@, trimmed_end(line@)).1,
        exists|secret: Seq<u8>|
            secret.len() == 32 && (tokens(final(invites)), out@) == #[trigger] line_outcome(
                room_views(rooms),
                tokens(old(invites)),
                member@,
                transport_opened(old(transport)@, trimmed_end(line@)).0,
                secret,
                now,
            ),
{
    let secret = random_bytes32();
    room_line_step_with(rooms, invites, transport, member, line, secret, now)
}

/// The time, in seconds since 1970.
pub fn timestamp() -> (now: i64) {
    utc_timestamp()
}

/// A line that has come before is never passed on and changes no token.
pub proof fn law_duplicate_is_not_passed_on(
    m: RoomsView,
    t: TokensView,
    member: HandshakeView,
    plain: Seq<char>,
    secret: Seq<u8>,
    now: i64,
)
    ensures
        line_outcome(m, t, member, Some(OpenView::Duplicate(plain)), secret, now).0 == t,
        line_outcome(
            m,
            t,
            member,
            Some(OpenView::Duplicate(plain)),
            secret,
            now,
        ).1.broadcast is None,
{
}

/// Every packet is acknowledged first, whether or not it has come before.
pub proof fn law_packet_is_acknowledged(
    m: RoomsView,
    t: TokensView,
    member: HandshakeView,
    plain: Seq<char>,
    duplicate: bool,
    secret: Seq<u8>,
    now: i64,
)
    requires
        packet_parts(plain) is Some,
    ensures
        ({
            let replies = plain_outcome(m, t, member, plain, duplicate, secret, now).1.replies;
            replies.len() > 0 && replies[0] == "/ACK "@ + (packet_parts(plain)->0).0
        }),
{
    reveal_strlit("/ping");
    if plain == "/ping"@ {
        assert(words("/ping"@) =~= seq!["/ping"@]) by {
            assert(is_word("/ping"@));
            crate::util::text::lemma_words_single("/ping"@);
        }
    }
}

/// What a member says goes to the others, and never back to that member.
pub proof fn law_talk_goes_to_the_others(
    m: RoomsView,
    t: TokensView,
    member: HandshakeView,
    opened: Option<OpenView>,
    secret: Seq<u8>,
    now: i64,
    reader: Seq<char>,
)
    requires
        line_outcome(m, t, member, opened, secret, now).1.broadcast is Some,
    ensures
        ({
            let event = ((line_outcome(m, t, member, opened, secret, now).1.broadcast)->0).1;
            &&& crate::server::broadcast::delivered(event, member.member_id) is None
            &&& reader != member.member_id ==> crate::server::broadcast::delivered(event, reader)
                == Some(event.plain)
        }),
{
}

} // verus!
