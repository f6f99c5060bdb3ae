//! How a client enters a room: with the server's password, or with an invitation.
use crate::attachments::kind::{ascii_lower_text, to_ascii_lower};
use crate::crypto::aead::sealable;
use crate::crypto::group::{activated, fresh_group, GroupCryptoState, GroupView};
use crate::crypto::handshake::{
    compute_invite_proof, compute_invite_token_id, compute_password_auth_proof,
    derive_invite_transport_key, derive_password_transport_key, handshake_proof, invite_token_id,
    transport_key, AUTH_PROOF_LABEL, INVITE_PROOF_LABEL, INVITE_TRANSPORT_LABEL,
    PASSWORD_TRANSPORT_LABEL,
};
use crate::crypto::invite::{
    invitation_parts, invite_room, open_invite_blob, parse_invitation, INVITATION_PREFIX,
};
use crate::crypto::room::{
    join_credential_of, room_auth_key_of, room_key_of, RoomCryptoState, RoomKeyView,
};
use crate::crypto::secure::random_group_secret_epoch_0;
use crate::crypto::transport::{
    new_transport, opened_line, sealed_line, transport_opened, wrapped_next, OpenView,
    TransportCrypto, TransportOpenResult, TransportSide, TransportView,
};
use crate::outside::encoding::{base64url_bytes, base64url_decode, hex_encode, hex_text};
use crate::outside::random::{alphanumeric, random_alphanumeric, random_below};
use crate::outside::text::push_char;
use crate::protocol::invite::{
    build_auth_hello_line, build_auth_proof_line, build_invite_hello_line, build_invite_proof_line,
    build_invite_ready_line, invite_hello_line, invite_ok_parts, parse_auth_challenge_line,
    parse_invite_challenge_line, parse_invite_ok_line, parse_session_ok_line, session_ok_parts,
};
use crate::protocol::member::{IdentityView, MemberIdentity};
use crate::server::connection::{
    admitted, decode_hex_32, hello_of, hex32, invite_proof, law_invited_client_is_accepted,
    law_password_client_is_accepted, lemma_hex_round_trip, password_proof, HandshakeView, HelloView,
    ProofView,
};
use crate::server::room::RoomsView;
use crate::transport::packet::transport_seal_line;
use crate::util::codec::{encoded_text, join_strings, lemma_words_spaced, spaced};
use crate::util::text::{
    char_pos, chars_of, find_char, is_white, is_word, joined, lemma_value_after, opt_text,
    parse_usize, parsed_unsigned, same_text, split_words, starts_with, string_of, trim, trimmed,
    trimmed_end, value_after, views, words,
};
use vstd::prelude::*;
use vstd::utf8::encode_utf8;

verus! {

/// Why a client could not enter a room.
#[derive(Debug)]
pub enum HandshakeError {
    InvalidInvitation,
    InvalidToken,
    InviteRefused,
    InvalidInviteChallenge,
    InvalidInviteResponse,
    InvalidInviteOk,
    InvalidBlob,
    InvalidFinalResponse,
    RefusedInvite(String),
    BadHex,
    InvalidAuthChallenge,
    InvalidAuthResponse,
    Declined(String),
    InvalidBanner,
    UnexpectedBanner(String),
    InvalidJoinResponse,
    RefusedJoin(String),
    /// A line is too long to be sealed.
    TooLong,
}

/// Why a client could not enter a room.
pub ghost enum HandshakeErrorView {
    InvalidInvitation,
    InvalidToken,
    InviteRefused,
    InvalidInviteChallenge,
    InvalidInviteResponse,
    InvalidInviteOk,
    InvalidBlob,
    InvalidFinalResponse,
    RefusedInvite(Seq<char>),
    BadHex,
    InvalidAuthChallenge,
    InvalidAuthResponse,
    Declined(Seq<char>),
    InvalidBanner,
    UnexpectedBanner(Seq<char>),
    InvalidJoinResponse,
    RefusedJoin(Seq<char>),
    TooLong,
}

impl View for HandshakeError {
    type V = HandshakeErrorView;

    open spec fn view(&self) -> HandshakeErrorView {
        match self {
            HandshakeError::InvalidInvitation => HandshakeErrorView::InvalidInvitation,
            HandshakeError::InvalidToken => HandshakeErrorView::InvalidToken,
            HandshakeError::InviteRefused => HandshakeErrorView::InviteRefused,
            HandshakeError::InvalidInviteChallenge => HandshakeErrorView::InvalidInviteChallenge,
            HandshakeError::InvalidInviteResponse => HandshakeErrorView::InvalidInviteResponse,
            HandshakeError::InvalidInviteOk => HandshakeErrorView::InvalidInviteOk,
            HandshakeError::InvalidBlob => HandshakeErrorView::InvalidBlob,
            HandshakeError::InvalidFinalResponse => HandshakeErrorView::InvalidFinalResponse,
            HandshakeError::RefusedInvite(s) => HandshakeErrorView::RefusedInvite(s@),
            HandshakeError::BadHex => HandshakeErrorView::BadHex,
            HandshakeError::InvalidAuthChallenge => HandshakeErrorView::InvalidAuthChallenge,
            HandshakeError::InvalidAuthResponse => HandshakeErrorView::InvalidAuthResponse,
            HandshakeError::Declined(s) => HandshakeErrorView::Declined(s@),
            HandshakeError::InvalidBanner => HandshakeErrorView::InvalidBanner,
            HandshakeError::UnexpectedBanner(s) => HandshakeErrorView::UnexpectedBanner(s@),
            HandshakeError::InvalidJoinResponse => HandshakeErrorView::InvalidJoinResponse,
            HandshakeError::RefusedJoin(s) => HandshakeErrorView::RefusedJoin(s@),
            HandshakeError::TooLong => HandshakeErrorView::TooLong,
        }
    }
}

/// What the user is told.
pub open spec fn handshake_error_text(e: HandshakeErrorView) -> Seq<char> {
    match e {
        HandshakeErrorView::InvalidInvitation => "Invalid invitation"@,
        HandshakeErrorView::InvalidToken => "Invalid invitation token"@,
        HandshakeErrorView::InviteRefused => "邀请码无效或已过期"@,
        HandshakeErrorView::InvalidInviteChallenge => "Invalid invite challenge"@,
        HandshakeErrorView::InvalidInviteResponse => "Invalid encrypted invite response"@,
        HandshakeErrorView::InvalidInviteOk => "Invalid INVITE_OK"@,
        HandshakeErrorView::InvalidBlob => "Invalid invitation blob"@,
        HandshakeErrorView::InvalidFinalResponse => "Invalid encrypted invite finalize response"@,
        HandshakeErrorView::RefusedInvite(s) => "Server refused invite: "@ + s,
        HandshakeErrorView::BadHex => "Invalid 32-byte hex field"@,
        HandshakeErrorView::InvalidAuthChallenge => "Invalid auth challenge"@,
        HandshakeErrorView::InvalidAuthResponse => "Invalid encrypted auth response"@,
        HandshakeErrorView::Declined(s) => "Server declined: "@ + s,
        HandshakeErrorView::InvalidBanner => "Invalid encrypted room banner"@,
        HandshakeErrorView::UnexpectedBanner(s) => "unexpected banner: "@ + s,
        HandshakeErrorView::InvalidJoinResponse => "Invalid encrypted room join response"@,
        HandshakeErrorView::RefusedJoin(s) => "server refused: "@ + s,
        HandshakeErrorView::TooLong => "Line is too long"@,
    }
}

impl HandshakeError {
    pub fn message(&self) -> (text: String)
        ensures
            text@ == handshake_error_text(self@),
    {
        match self {
            HandshakeError::InvalidInvitation => "Invalid invitation".to_owned(),
            HandshakeError::InvalidToken => "Invalid invitation token".to_owned(),
            HandshakeError::InviteRefused => "邀请码无效或已过期".to_owned(),
            HandshakeError::InvalidInviteChallenge => "Invalid invite challenge".to_owned(),
            HandshakeError::InvalidInviteResponse => "Invalid encrypted invite response".to_owned(),
            HandshakeError::InvalidInviteOk => "Invalid INVITE_OK".to_owned(),
            HandshakeError::InvalidBlob => "Invalid invitation blob".to_owned(),
            HandshakeError::InvalidFinalResponse => {
                "Invalid encrypted invite finalize response".to_owned()
            },
            HandshakeError::RefusedInvite(s) => joined("Server refused invite: ", s.as_str()),
            HandshakeError::BadHex => "Invalid 32-byte hex field".to_owned(),
            HandshakeError::InvalidAuthChallenge => "Invalid auth challenge".to_owned(),
            HandshakeError::InvalidAuthResponse => "Invalid encrypted auth response".to_owned(),
            HandshakeError::Declined(s) => joined("Server declined: ", s.as_str()),
            HandshakeError::InvalidBanner => "Invalid encrypted room banner".to_owned(),
            HandshakeError::UnexpectedBanner(s) => joined("unexpected banner: ", s.as_str()),
            HandshakeError::InvalidJoinResponse => {
                "Invalid encrypted room join response".to_owned()
            },
            HandshakeError::RefusedJoin(s) => joined("server refused: ", s.as_str()),
            HandshakeError::TooLong => "Line is too long".to_owned(),
        }
    }
}

/// Whether a client was given an invitation, and not a server's address.
pub fn is_invitation(target: &str) -> (yes: bool)
    ensures
        yes == INVITATION_PREFIX@.is_prefix_of(target@),
{
    starts_with(target, INVITATION_PREFIX)
}

/// The address and the password in a text: what stands before and after the first `&`.
pub open spec fn server_and_password(target: Seq<char>) -> (Seq<char>, Seq<char>) {
    let p = char_pos(target, '&');
    (
        target.take(p),
        if p < target.len() {
            target.skip(p + 1)
        } else {
            Seq::empty()
        },
    )
}

pub fn split_server_password(target: &str) -> (out: (String, String))
    ensures
        (out.0@, out.1@) == server_and_password(target@),
{
    let chars = chars_of(target);
    assert(target@.skip(0) =~= target@);
    let p = find_char(chars.as_slice(), '&', 0);
    let head = vstd::slice::slice_subrange(chars.as_slice(), 0, p);
    assert(head@ =~= target@.take(p as int));
    let server = string_of(head);
    if p < chars.len() {
        let tail = vstd::slice::slice_subrange(chars.as_slice(), p + 1, chars.len());
        assert(tail@ =~= target@.skip(p + 1));
        (server, string_of(tail))
    } else {
        let empty = String::new();
        assert(empty@ =~= Seq::<char>::empty());
        (server, empty)
    }
}

/// The text of a line, when it is the next one from the other end.
pub open spec fn fresh_text(t: TransportView, line: Seq<char>) -> Option<Seq<char>> {
    match transport_opened(t, line).0 {
        Some(OpenView::Fresh(plain)) => Some(plain),
        _ => None,
    }
}

pub fn expect_fresh_transport_line(transport: &mut TransportCrypto, cipher_line: &str) -> (plain:
    Option<String>)
    requires
        old(transport).wf(),
    ensures
        final(transport).wf(),
        final(transport)@ == transport_opened(old(transport)@, cipher_line@).1,
        opt_text(plain) == fresh_text(old(transport)@, cipher_line@),
{
    match transport.open(cipher_line) {
        Some(TransportOpenResult::Fresh(plain)) => Some(plain),
        _ => None,
    }
}

/// The first line of one who knows the password.
pub fn auth_hello(client_nonce: &[u8; 32]) -> (line: String)
    ensures
        line@ == "/AUTH_HELLO "@ + hex_text(client_nonce@),
{
    build_auth_hello_line(hex_encode(client_nonce.as_slice()).as_str())
}

/// The answer to a challenge, and the key of the connection; or why there is none.
pub open spec fn auth_answer(line: Seq<char>, hash: Seq<u8>, cn: Seq<u8>) -> Result<
    (Seq<char>, Seq<u8>),
    HandshakeErrorView,
> {
    if "ERR "@.is_prefix_of(line) {
        Err(HandshakeErrorView::Declined(line))
    } else {
        match value_after(line, "/AUTH_CHALLENGE "@) {
            None => Err(HandshakeErrorView::InvalidAuthChallenge),
            Some(text) => match hex32(text) {
                None => Err(HandshakeErrorView::BadHex),
                Some(sn) => Ok(
                    (
                        "/AUTH_PROOF "@ + hex_text(
                            handshake_proof(hash, AUTH_PROOF_LABEL@, cn + sn),
                        ),
                        transport_key(hash, PASSWORD_TRANSPORT_LABEL@, cn + sn),
                    ),
                ),
            },
        }
    }
}

/// Answers the challenge to one who knows the password.
pub fn answer_auth_challenge(
    line: &str,
    server_pwd_hash: &[u8; 32],
    client_nonce: &[u8; 32],
) -> (out: Result<(String, TransportCrypto), HandshakeError>)
    ensures
        match (out, auth_answer(line@, server_pwd_hash@, client_nonce@)) {
            (Ok(o), Ok(v)) => o.0@ == v.0 && o.1.wf() && o.1@ == new_transport(
                v.1,
                TransportSide::Client,
            ),
            (Err(e), Err(v)) => e@ == v,
            _ => false,
        },
{
    if starts_with(line, "ERR ") {
        return Err(HandshakeError::Declined(line.to_owned()));
    }
    let text = match parse_auth_challenge_line(line) {
        Some(text) => text,
        None => {
            return Err(HandshakeError::InvalidAuthChallenge);
        },
    };
    let server_nonce = match decode_hex_32(text.as_str()) {
        Some(nonce) => nonce,
        None => {
            return Err(HandshakeError::BadHex);
        },
    };
    let key = derive_password_transport_key(
        server_pwd_hash,
        client_nonce.as_slice(),
        server_nonce.as_slice(),
    );
    let tag = compute_password_auth_proof(
        server_pwd_hash,
        client_nonce.as_slice(),
        server_nonce.as_slice(),
    );
    let answer = build_auth_proof_line(hex_encode(tag.as_slice()).as_str());
    Ok((answer, TransportCrypto::new(key, TransportSide::Client)))
}

/// Whether the server let the client in.
pub open spec fn auth_accepted(
    t: TransportView,
    line: Seq<char>,
) -> Result<(), HandshakeErrorView> {
    match fresh_text(t, line) {
        None => Err(HandshakeErrorView::InvalidAuthResponse),
        Some(plain) => if trimmed(plain) == "OK"@ {
            Ok(())
        } else {
            Err(HandshakeErrorView::Declined(plain))
        },
    }
}

/// Reads the server's answer to a proof.
pub fn check_auth_response(transport: &mut TransportCrypto, line: &str) -> (out: Result<
    (),
    HandshakeError,
>)
    requires
        old(transport).wf(),
    ensures
        final(transport).wf(),
        final(transport)@ == transport_opened(old(transport)@, line@).1,
        match (out, auth_accepted(old(transport)@, line@)) {
            (Ok(_), Ok(_)) => true,
            (Err(e), Err(v)) => e@ == v,
            _ => false,
        },
{
    match expect_fresh_transport_line(transport, line) {
        None => Err(HandshakeError::InvalidAuthResponse),
        Some(plain) => if same_text(trim(plain.as_str()).as_str(), "OK") {
            Ok(())
        } else {
            Err(HandshakeError::Declined(plain))
        },
    }
}

/// The rooms that the server names.
pub open spec fn announced_rooms(t: TransportView, line: Seq<char>) -> Result<
    Seq<Seq<char>>,
    HandshakeErrorView,
> {
    match fresh_text(t, line) {
        None => Err(HandshakeErrorView::InvalidBanner),
        Some(plain) => if "ROOMS"@.is_prefix_of(plain) {
            Ok(words(plain).skip(1))
        } else {
            Err(HandshakeErrorView::UnexpectedBanner(plain))
        },
    }
}

/// A line that begins with a word holds at least one.
proof fn lemma_some_word(line: Seq<char>, w: Seq<char>)
    requires
        is_word(w),
        w.is_prefix_of(line),
    ensures
        words(line).len() > 0,
{
    assert(line[0] == w[0]);
}

/// Reads the list of rooms.
pub fn read_rooms(transport: &mut TransportCrypto, line: &str) -> (out: Result<
    Vec<String>,
    HandshakeError,
>)
    requires
        old(transport).wf(),
    ensures
        final(transport).wf(),
        final(transport)@ == transport_opened(old(transport)@, line@).1,
        match (out, announced_rooms(old(transport)@, line@)) {
            (Ok(o), Ok(v)) => views(o@) == v,
            (Err(e), Err(v)) => e@ == v,
            _ => false,
        },
{
    let plain = match expect_fresh_transport_line(transport, line) {
        Some(plain) => plain,
        None => {
            return Err(HandshakeError::InvalidBanner);
        },
    };
    if !starts_with(plain.as_str(), "ROOMS") {
        return Err(HandshakeError::UnexpectedBanner(plain));
    }
    let mut all = split_words(plain.as_str());
    let ghost before = all@;
    proof {
        reveal_strlit("ROOMS");
        assert(is_word("ROOMS"@));
        lemma_some_word(plain@, "ROOMS"@);
        assert(views(before).len() == before.len());
    }
    all.remove(0);
    assert(views(all@) =~= views(before).skip(1));
    Ok(all)
}

/// How a room is entered.
#[derive(Debug, Clone, Copy, PartialEq, Eq, Structural)]
pub enum JoinAction {
    Create,
    Join,
}

/// The word of the command.
pub open spec fn action_word(action: JoinAction) -> Seq<char> {
    match action {
        JoinAction::Create => "CREATE"@,
        JoinAction::Join => "JOIN"@,
    }
}

impl JoinAction {
    pub fn word(self) -> (w: &'static str)
        ensures
            w@ == action_word(self),
    {
        match self {
            JoinAction::Create => "CREATE",
            JoinAction::Join => "JOIN",
        }
    }
}

/// The command to enter a room.
pub open spec fn join_command(action: JoinAction, room: RoomKeyView, nickname: Seq<char>) -> Seq<
    char,
> {
    spaced(seq![action_word(action), room.room_id, join_credential_of(room.room_key), nickname])
}

/// The sealed command to enter a room.
pub fn join_request(
    transport: &mut TransportCrypto,
    room: &RoomCryptoState,
    action: JoinAction,
    nickname: &str,
) -> (out: Result<String, HandshakeError>)
    requires
        old(transport).wf(),
    ensures
        final(transport).wf(),
        ({
            let plain = join_command(action, room@, nickname@);
            match out {
                Ok(line) => {
                    &&& sealable(encode_utf8(plain))
                    &&& line@ == sealed_line(
                        old(transport)@.send_key,
                        old(transport)@.send_seq,
                        plain,
                    )
                    &&& opened_line(old(transport)@.send_key, line@) == Some(
                        (old(transport)@.send_seq, plain),
                    )
                    &&& final(transport)@ == (TransportView {
                        send_seq: wrapped_next(old(transport)@.send_seq),
                        ..old(transport)@
                    })
                },
                Err(e) => {
                    &&& !sealable(encode_utf8(plain))
                    &&& e@ == HandshakeErrorView::TooLong
                    &&& *final(transport) == *old(transport)
                },
            }
        }),
{
    let mut parts: Vec<String> = Vec::new();
    parts.push(action.word().to_owned());
    parts.push(room.room_id().to_owned());
    parts.push(room.join_credential());
    parts.push(nickname.to_owned());
    assert(views(parts@) =~= seq![
        action_word(action),
        room@.room_id,
        join_credential_of(room@.room_key),
        nickname@,
    ]);
    let plain = join_strings(&parts, " ");
    match transport_seal_line(transport, plain.as_str()) {
        Some(line) => Ok(line),
        None => Err(HandshakeError::TooLong),
    }
}

/// What a client is once it is in a room.
#[derive(Debug)]
pub struct RoomSession {
    pub group_crypto: GroupCryptoState,
    pub local_member: MemberIdentity,
    pub owner_capability: Option<String>,
}

/// What the server grants, when its answer lets the client into a room.
pub open spec fn join_granted(t: TransportView, line: Seq<char>) -> Result<
    (Seq<char>, Option<Seq<char>>),
    HandshakeErrorView,
> {
    match fresh_text(t, line) {
        None => Err(HandshakeErrorView::InvalidJoinResponse),
        Some(plain) => match session_ok_parts(plain) {
            None => Err(HandshakeErrorView::RefusedJoin(plain)),
            Some(granted) => Ok(granted),
        },
    }
}

/// The group as one that enters a room sees it: whoever creates the room begins the first epoch,
/// anyone else waits for one.
pub open spec fn entered_group(
    g: GroupView,
    action: JoinAction,
    room: RoomKeyView,
    member_id: Seq<char>,
    nickname: Seq<char>,
    group_secret: Seq<u8>,
) -> bool {
    let fresh = fresh_group(
        room.room_id,
        member_id,
        nickname,
        0,
        room_auth_key_of(room.room_key),
        g.secret,
    );
    g == match action {
        JoinAction::Create => activated(fresh, 0, group_secret, 0, g.secret),
        JoinAction::Join => fresh,
    }
}

/// Reads the server's answer to the command to enter a room, with a given secret for the first
/// epoch.
pub fn finish_join_with(
    transport: &mut TransportCrypto,
    line: &str,
    room: &RoomCryptoState,
    action: JoinAction,
    nickname: &str,
    group_secret: [u8; 32],
) -> (out: Result<RoomSession, HandshakeError>)
    requires
        old(transport).wf(),
    ensures
        final(transport).wf(),
        final(transport)@ == transport_opened(old(transport)@, line@).1,
        match (out, join_granted(old(transport)@, line@)) {
            (Ok(s), Ok(v)) => {
                &&& s.group_crypto.wf()
                &&& entered_group(
                    s.group_crypto@,
                    action,
                    room@,
                    v.0,
                    nickname@,
                    group_secret@,
                )
                &&& s.local_member@ == (IdentityView { member_id: v.0, nickname: nickname@ })
                &&& opt_text(s.owner_capability) == v.1
            },
            (Err(e), Err(v)) => e@ == v,
            _ => false,
        },
{
    let plain = match expect_fresh_transport_line(transport, line) {
        Some(plain) => plain,
        None => {
            return Err(HandshakeError::InvalidJoinResponse);
        },
    };
    let (member_id, owner_capability) = match parse_session_ok_line(plain.as_str()) {
        Some(granted) => granted,
        None => {
            return Err(HandshakeError::RefusedJoin(plain));
        },
    };
    let made = match action {
        JoinAction::Create => GroupCryptoState::new_single_epoch(
            room.room_id(),
            member_id.as_str(),
            nickname,
            0,
            group_secret,
            room.room_auth_key(),
        ),
        JoinAction::Join => GroupCryptoState::new_pending_epoch(
            room.room_id(),
            member_id.as_str(),
            nickname,
            0,
            room.room_auth_key(),
        ),
    };
    match made {
        Ok(group_crypto) => Ok(
            RoomSession {
                group_crypto,
                local_member: MemberIdentity { member_id, nickname: nickname.to_owned() },
                owner_capability,
            },
        ),
        Err(_) => {
            assert(false);
            Err(HandshakeError::TooLong)
        },
    }
}

/// Reads the server's answer to the command to enter a room.
pub fn finish_join(
    transport: &mut TransportCrypto,
    line: &str,
    room: &RoomCryptoState,
    action: JoinAction,
    nickname: &str,
) -> (out: Result<RoomSession, HandshakeError>)
    requires
        old(transport).wf(),
    ensures
        final(transport).wf(),
        final(transport)@ == transport_opened(old(transport)@, line@).1,
        match (out, join_granted(old(transport)@, line@)) {
            (Ok(s), Ok(v)) => {
                &&& s.group_crypto.wf()
                &&& exists|group_secret: Seq<u8>|
                    group_secret.len() == 32 && #[trigger] entered_group(
                        s.group_crypto@,
                        action,
                        room@,
                        v.0,
                        nickname@,
                        group_secret,
                    )
                &&& s.local_member@ == (IdentityView { member_id: v.0, nickname: nickname@ })
                &&& opt_text(s.owner_capability) == v.1
            },
            (Err(e), Err(v)) => e@ == v,
            _ => false,
        },
{
    let group_secret = random_group_secret_epoch_0();
    finish_join_with(transport, line, room, action, nickname, group_secret)
}

/// What an invitation gives.
#[derive(Debug)]
pub struct InviteTarget {
    pub server_addr: String,
    pub token_secret: Vec<u8>,
    pub token_id: [u8; 32],
    pub blob_key_b64: String,
}

/// What an invitation gives: the server, the secret and the key of the blob.
pub open spec fn invite_target(text: Seq<char>) -> Result<
    (Seq<char>, Seq<u8>, Seq<char>),
    HandshakeErrorView,
> {
    match invitation_parts(text) {
        None => Err(HandshakeErrorView::InvalidInvitation),
        Some((server, token, key)) => match base64url_bytes(token) {
            None => Err(HandshakeErrorView::InvalidToken),
            Some(secret) => Ok((server, secret, key)),
        },
    }
}

/// Reads an invitation.
pub fn read_invitation(text: &str) -> (out: Result<InviteTarget, HandshakeError>)
    ensures
        match (out, invite_target(text@)) {
            (Ok(o), Ok(v)) => {
                &&& o.server_addr@ == v.0
                &&& o.token_secret@ == v.1
                &&& o.blob_key_b64@ == v.2
                &&& o.token_id@ == invite_token_id(v.1)
            },
            (Err(e), Err(v)) => e@ == v,
            _ => false,
        },
{
    let (server_addr, token, blob_key_b64) = match parse_invitation(text) {
        Some(parts) => parts,
        None => {
            return Err(HandshakeError::InvalidInvitation);
        },
    };
    let token_secret = match base64url_decode(token.as_str()) {
        Some(secret) => secret,
        None => {
            return Err(HandshakeError::InvalidToken);
        },
    };
    let token_id = compute_invite_token_id(token_secret.as_slice());
    Ok(InviteTarget { server_addr, token_secret, token_id, blob_key_b64 })
}

/// The first line of one who was invited.
pub fn invite_hello(target: &InviteTarget, client_nonce: &[u8; 32]) -> (line: String)
    ensures
        line@ == invite_hello_line(hex_text(target.token_id@), hex_text(client_nonce@)),
{
    build_invite_hello_line(
        hex_encode(target.token_id.as_slice()).as_str(),
        hex_encode(client_nonce.as_slice()).as_str(),
    )
}

/// The answer to the challenge to one who was invited, and the key of the connection; or why
/// there is none.
pub open spec fn invite_answer(
    line: Seq<char>,
    secret: Seq<u8>,
    token_id: Seq<u8>,
    cn: Seq<u8>,
) -> Result<
    (Seq<char>, Seq<u8>),
    HandshakeErrorView,
> {
    if "ERR "@.is_prefix_of(line) {
        Err(HandshakeErrorView::InviteRefused)
    } else {
        match value_after(line, "/INVITE_CHALLENGE "@) {
            None => Err(HandshakeErrorView::InvalidInviteChallenge),
            Some(text) => match hex32(text) {
                None => Err(HandshakeErrorView::BadHex),
                Some(sn) => Ok(
                    (
                        "/INVITE_PROOF "@ + hex_text(
                            handshake_proof(secret, INVITE_PROOF_LABEL@, token_id + cn + sn),
                        ),
                        transport_key(secret, INVITE_TRANSPORT_LABEL@, token_id + cn + sn),
                    ),
                ),
            },
        }
    }
}

/// Answers the challenge to one who was invited.
pub fn answer_invite_challenge(line: &str, target: &InviteTarget, client_nonce: &[u8; 32]) -> (out:
    Result<(String, TransportCrypto), HandshakeError>)
    ensures
        match (
            out,
            invite_answer(line@, target.token_secret@, target.token_id@, client_nonce@),
        ) {
            (Ok(o), Ok(v)) => o.0@ == v.0 && o.1.wf() && o.1@ == new_transport(
                v.1,
                TransportSide::Client,
            ),
            (Err(e), Err(v)) => e@ == v,
            _ => false,
        },
{
    if starts_with(line, "ERR ") {
        return Err(HandshakeError::InviteRefused);
    }
    let text = match parse_invite_challenge_line(line) {
        Some(text) => text,
        None => {
            return Err(HandshakeError::InvalidInviteChallenge);
        },
    };
    let server_nonce = match decode_hex_32(text.as_str()) {
        Some(nonce) => nonce,
        None => {
            return Err(HandshakeError::BadHex);
        },
    };
    let key = derive_invite_transport_key(
        target.token_secret.as_slice(),
        target.token_id.as_slice(),
        client_nonce.as_slice(),
        server_nonce.as_slice(),
    );
    let tag = compute_invite_proof(
        target.token_secret.as_slice(),
        target.token_id.as_slice(),
        client_nonce.as_slice(),
        server_nonce.as_slice(),
    );
    let answer = build_invite_proof_line(hex_encode(tag.as_slice()).as_str());
    Ok((answer, TransportCrypto::new(key, TransportSide::Client)))
}

/// The room that one is invited to, when the server lets the client in and its blob opens.
pub open spec fn invited_room(t: TransportView, line: Seq<char>, key_text: Seq<char>) -> Result<
    (Seq<char>, Seq<char>),
    HandshakeErrorView,
> {
    match fresh_text(t, line) {
        None => Err(HandshakeErrorView::InvalidInviteResponse),
        Some(plain) => match invite_ok_parts(plain) {
            None => Err(HandshakeErrorView::InvalidInviteOk),
            Some((_, blob)) => match invite_room(blob, key_text) {
                None => Err(HandshakeErrorView::InvalidBlob),
                Some(room) => Ok(room),
            },
        },
    }
}

/// Reads the server's answer to the proof of one who was invited: the room.
pub fn accept_invite(transport: &mut TransportCrypto, line: &str, target: &InviteTarget) -> (out:
    Result<RoomCryptoState, HandshakeError>)
    requires
        old(transport).wf(),
    ensures
        final(transport).wf(),
        final(transport)@ == transport_opened(old(transport)@, line@).1,
        match (out, invited_room(old(transport)@, line@, target.blob_key_b64@)) {
            (Ok(room), Ok(v)) => room@ == (RoomKeyView {
                room_id: v.0,
                room_credential: v.1,
                room_key: room_key_of(v.0, v.1),
            }),
            (Err(e), Err(v)) => e@ == v,
            _ => false,
        },
{
    let plain = match expect_fresh_transport_line(transport, line) {
        Some(plain) => plain,
        None => {
            return Err(HandshakeError::InvalidInviteResponse);
        },
    };
    let blob = match parse_invite_ok_line(plain.as_str()) {
        Some((_, blob)) => blob,
        None => {
            return Err(HandshakeError::InvalidInviteOk);
        },
    };
    match open_invite_blob(blob.as_str(), target.blob_key_b64.as_str()) {
        Some((room_id, room_credential)) => Ok(
            RoomCryptoState::from_room_credential(room_id.as_str(), room_credential.as_str()),
        ),
        None => Err(HandshakeError::InvalidBlob),
    }
}

/// The sealed line that ends the handshake of one who was invited.
pub fn ready_request(transport: &mut TransportCrypto, nickname: &str) -> (out: Result<
    String,
    HandshakeError,
>)
    requires
        old(transport).wf(),
    ensures
        final(transport).wf(),
        ({
            let plain = "/INVITE_READY "@ + encoded_text(nickname@);
            match out {
                Ok(line) => {
                    &&& sealable(encode_utf8(plain))
                    &&& line@ == sealed_line(
                        old(transport)@.send_key,
                        old(transport)@.send_seq,
                        plain,
                    )
                    &&& opened_line(old(transport)@.send_key, line@) == Some(
                        (old(transport)@.send_seq, plain),
                    )
                    &&& final(transport)@ == (TransportView {
                        send_seq: wrapped_next(old(transport)@.send_seq),
                        ..old(transport)@
                    })
                },
                Err(e) => {
                    &&& !sealable(encode_utf8(plain))
                    &&& e@ == HandshakeErrorView::TooLong
                    &&& *final(transport) == *old(transport)
                },
            }
        }),
{
    let plain = build_invite_ready_line(nickname);
    match transport_seal_line(transport, plain.as_str()) {
        Some(line) => Ok(line),
        None => Err(HandshakeError::TooLong),
    }
}

/// What the server grants to one who was invited: never the room itself.
pub open spec fn invite_granted(t: TransportView, line: Seq<char>) -> Result<
    Seq<char>,
    HandshakeErrorView,
> {
    match fresh_text(t, line) {
        None => Err(HandshakeErrorView::InvalidFinalResponse),
        Some(plain) => match session_ok_parts(plain) {
            Some((member_id, None)) => Ok(member_id),
            _ => Err(HandshakeErrorView::RefusedInvite(plain)),
        },
    }
}

/// Reads the server's last answer to one who was invited.
pub fn finish_invite(
    transport: &mut TransportCrypto,
    line: &str,
    room: &RoomCryptoState,
    nickname: &str,
) -> (out: Result<RoomSession, HandshakeError>)
    requires
        old(transport).wf(),
    ensures
        final(transport).wf(),
        final(transport)@ == transport_opened(old(transport)@, line@).1,
        match (out, invite_granted(old(transport)@, line@)) {
            (Ok(s), Ok(v)) => {
                &&& s.group_crypto.wf()
                &&& entered_group(
                    s.group_crypto@,
                    JoinAction::Join,
                    room@,
                    v,
                    nickname@,
                    Seq::empty(),
                )
                &&& s.local_member@ == (IdentityView { member_id: v, nickname: nickname@ })
                &&& s.owner_capability is None
            },
            (Err(e), Err(v)) => e@ == v,
            _ => false,
        },
{
    let plain = match expect_fresh_transport_line(transport, line) {
        Some(plain) => plain,
        None => {
            return Err(HandshakeError::InvalidFinalResponse);
        },
    };
    let member_id = match parse_session_ok_line(plain.as_str()) {
        Some((member_id, None)) => member_id,
        _ => {
            return Err(HandshakeError::RefusedInvite(plain));
        },
    };
    match GroupCryptoState::new_pending_epoch(
        room.room_id(),
        member_id.as_str(),
        nickname,
        0,
        room.room_auth_key(),
    ) {
        Ok(group_crypto) => Ok(
            RoomSession {
                group_crypto,
                local_member: MemberIdentity { member_id, nickname: nickname.to_owned() },
                owner_capability: None,
            },
        ),
        Err(_) => {
            assert(false);
            Err(HandshakeError::TooLong)
        },
    }
}

/// The characters of a random key.
pub const KEY_CHARS: &'static str =
    "ABCDEFGHIJKLMNOPQRSTUVWXYZabcdefghijklmnopqrstuvwxyz0123456789-_@#";

/// How long a random key is.
pub const KEY_LEN: usize = 32;

/// A random name for a session: nine letters and digits.
pub fn random_session_id() -> (id: String)
    ensures
        id@.len() == 9,
        alphanumeric(id@),
{
    random_alphanumeric(9)
}

/// A random key for a session.
pub fn random_session_key() -> (key: String)
    ensures
        key@.len() == KEY_LEN,
        forall|i: int| 0 <= i < key@.len() ==> KEY_CHARS@.contains(#[trigger] key@[i]),
{
    let chars = chars_of(KEY_CHARS);
    proof {
        reveal_strlit(
            "ABCDEFGHIJKLMNOPQRSTUVWXYZabcdefghijklmnopqrstuvwxyz0123456789-_@#",
        );
    }
    assert(chars@.len() > 0);
    let mut key = String::new();
    let mut i: usize = 0;
    while i < KEY_LEN
        invariant
            i <= KEY_LEN,
            key@.len() == i,
            chars@ == KEY_CHARS@,
            chars@.len() > 0,
            forall|k: int| 0 <= k < key@.len() ==> KEY_CHARS@.contains(#[trigger] key@[k]),
        decreases KEY_LEN - i,
    {
        let at = random_below(chars.len());
        let c = chars[at];
        assert(KEY_CHARS@[at as int] == c);
        push_char(&mut key, c);
        i += 1;
    }
    key
}

/// What the answer to the question for a session asks for.
#[derive(Debug)]
pub enum SessionChoice {
    /// To leave the server.
    Leave,
    /// A new session under a random name.
    Random,
    /// To be asked again, after a notice.
    Again(&'static str),
    /// The session that is open to all.
    Public(JoinAction),
    /// A session whose key is still to be asked for.
    Private { session_id: String, action: JoinAction },
}

/// What the answer to the question for a session asks for.
pub ghost enum ChoiceView {
    Leave,
    Random,
    Again(Seq<char>),
    Public(JoinAction),
    Private { session_id: Seq<char>, action: JoinAction },
}

impl View for SessionChoice {
    type V = ChoiceView;

    open spec fn view(&self) -> ChoiceView {
        match self {
            SessionChoice::Leave => ChoiceView::Leave,
            SessionChoice::Random => ChoiceView::Random,
            SessionChoice::Again(notice) => ChoiceView::Again(notice@),
            SessionChoice::Public(action) => ChoiceView::Public(*action),
            SessionChoice::Private { session_id, action } => ChoiceView::Private {
                session_id: session_id@,
                action: *action,
            },
        }
    }
}

/// How a session is entered: one that is there is joined, any other is created.
pub open spec fn action_for(rooms: Seq<Seq<char>>, session_id: Seq<char>) -> JoinAction {
    if rooms.contains(session_id) {
        JoinAction::Join
    } else {
        JoinAction::Create
    }
}

/// The session that an answer names: by its name, by its number in the list, or the public one by
/// default.
pub open spec fn named_session(id: Seq<char>, rooms: Seq<Seq<char>>) -> Option<Seq<char>> {
    if id.len() == 0 {
        Some("Public"@)
    } else {
        match parsed_unsigned(id, usize::MAX as nat) {
            Some(n) => {
                let at = if n > 0 {
                    n - 1
                } else {
                    0
                };
                if at < rooms.len() {
                    Some(rooms[at])
                } else {
                    None
                }
            },
            None => Some(id),
        }
    }
}

/// What an answer asks for.
pub open spec fn session_choice(id: Seq<char>, rooms: Seq<Seq<char>>) -> ChoiceView {
    if ascii_lower_text(id) == "/q"@ {
        ChoiceView::Leave
    } else if ascii_lower_text(id) == "new"@ || id == "'"@ {
        ChoiceView::Random
    } else {
        match named_session(id, rooms) {
            None => ChoiceView::Again("Unknown session number."@),
            Some(session_id) => if trimmed(session_id).len() == 0 {
                ChoiceView::Again("Session ID cannot be empty."@)
            } else if session_id == "Public"@ {
                ChoiceView::Public(action_for(rooms, session_id))
            } else {
                ChoiceView::Private { session_id, action: action_for(rooms, session_id) }
            },
        }
    }
}

fn find_action(rooms: &Vec<String>, session_id: &str) -> (action: JoinAction)
    ensures
        action == action_for(views(rooms@), session_id@),
{
    let mut i: usize = 0;
    while i < rooms.len()
        invariant
            i <= rooms@.len(),
            forall|k: int| 0 <= k < i ==> (#[trigger] views(rooms@)[k]) != session_id@,
        decreases rooms.len() - i,
    {
        if same_text(rooms[i].as_str(), session_id) {
            assert(views(rooms@)[i as int] == session_id@);
            return JoinAction::Join;
        }
        i += 1;
    }
    JoinAction::Create
}

/// Reads the answer to the question for a session, without white space around it.
pub fn choose_session(id: &str, rooms: &Vec<String>) -> (choice: SessionChoice)
    ensures
        choice@ == session_choice(id@, views(rooms@)),
{
    let lower = to_ascii_lower(id);
    if same_text(lower.as_str(), "/q") {
        return SessionChoice::Leave;
    }
    if same_text(lower.as_str(), "new") || same_text(id, "'") {
        return SessionChoice::Random;
    }
    let session_id = if id.unicode_len() == 0 {
        "Public".to_owned()
    } else {
        match parse_usize(id) {
            Some(n) => {
                let at: usize = if n > 0 {
                    n - 1
                } else {
                    0
                };
                if at < rooms.len() {
                    assert(views(rooms@)[at as int] == rooms@[at as int]@);
                    rooms[at].clone()
                } else {
                    return SessionChoice::Again("Unknown session number.");
                }
            },
            None => id.to_owned(),
        }
    };
    if trim(session_id.as_str()).as_str().unicode_len() == 0 {
        return SessionChoice::Again("Session ID cannot be empty.");
    }
    let action = find_action(rooms, session_id.as_str());
    if same_text(session_id.as_str(), "Public") {
        SessionChoice::Public(action)
    } else {
        SessionChoice::Private { session_id, action }
    }
}

/// Whether a key can be used for a private session; if not, what the user is told.
pub fn check_session_key(key: &str) -> (notice: Option<&'static str>)
    ensures
        match notice {
            Some(text) => trimmed(key@).len() == 0 && text@ == "Private sessions need a key."@,
            None => trimmed(key@).len() > 0,
        },
{
    if trim(key).as_str().unicode_len() == 0 {
        Some("Private sessions need a key.")
    } else {
        None
    }
}

proof fn lemma_challenge(prefix: Seq<char>, sn: Seq<u8>)
    requires
        sn.len() == 32,
        prefix.len() > 0,
        prefix[0] == '/',
    ensures
        value_after(prefix + hex_text(sn), prefix) == Some(hex_text(sn)),
        hex32(hex_text(sn)) == Some(sn),
        !"ERR "@.is_prefix_of(prefix + hex_text(sn)),
{
    lemma_hex_round_trip(sn);
    lemma_value_after(prefix, hex_text(sn));
    reveal_strlit("ERR ");
    let line = prefix + hex_text(sn);
    if "ERR "@.is_prefix_of(line) {
        assert("ERR "@[0] == line.subrange(0, 4)[0]);
    }
}

/// A client that knows the server's password passes: its answer to the server's challenge is the
/// proof that the server expects, and both ends have the same key.
pub proof fn law_password_handshake_agrees(hash: Seq<u8>, cn: Seq<u8>, sn: Seq<u8>)
    requires
        cn.len() == 32,
        sn.len() == 32,
        handshake_proof(hash, AUTH_PROOF_LABEL@, cn + sn).len() == 32,
    ensures
        hello_of("/AUTH_HELLO "@ + hex_text(cn)) == (HelloView::Password { client_nonce: cn }),
        auth_answer("/AUTH_CHALLENGE "@ + hex_text(sn), hash, cn) matches Ok((answer, key))
            && password_proof(answer, hash, cn, sn) == ProofView::Right(key),
{
    reveal_strlit("/AUTH_HELLO ");
    reveal_strlit("/AUTH_CHALLENGE ");
    lemma_challenge("/AUTH_HELLO "@, cn);
    lemma_challenge("/AUTH_CHALLENGE "@, sn);
    lemma_hex_ends(cn, "/AUTH_HELLO "@);
    law_password_client_is_accepted(hash, cn, sn);
}

proof fn lemma_hex_ends(bytes: Seq<u8>, prefix: Seq<char>)
    requires
        bytes.len() == 32,
    ensures
        trimmed_end(prefix + hex_text(bytes)) == prefix + hex_text(bytes),
{
    lemma_hex_round_trip(bytes);
    let line = prefix + hex_text(bytes);
    assert(line.last() == hex_text(bytes).last());
    assert(!is_white(line.last()));
}

/// A client that holds an invitation passes: its answer to the server's challenge is the proof that
/// the server expects, and both ends have the same key.
pub proof fn law_invite_handshake_agrees(
    secret: Seq<u8>,
    token_id: Seq<u8>,
    cn: Seq<u8>,
    sn: Seq<u8>,
)
    requires
        sn.len() == 32,
        handshake_proof(secret, INVITE_PROOF_LABEL@, token_id + cn + sn).len() == 32,
    ensures
        invite_answer("/INVITE_CHALLENGE "@ + hex_text(sn), secret, token_id, cn) matches Ok(
            (answer, key),
        ) && invite_proof(answer, secret, token_id, cn, sn) == ProofView::Right(key),
{
    reveal_strlit("/INVITE_CHALLENGE ");
    lemma_challenge("/INVITE_CHALLENGE "@, sn);
    law_invited_client_is_accepted(secret, token_id, cn, sn);
}

/// The rooms that the server names are the ones that the client reads.
pub proof fn law_rooms_are_read(t: TransportView, line: Seq<char>, ids: Seq<Seq<char>>)
    requires
        forall|i: int| 0 <= i < ids.len() ==> is_word(#[trigger] ids[i]),
        fresh_text(t, line) == Some(spaced(seq!["ROOMS"@] + ids)),
    ensures
        announced_rooms(t, line) == Ok::<Seq<Seq<char>>, HandshakeErrorView>(ids),
{
    reveal_strlit("ROOMS");
    let parts = seq!["ROOMS"@] + ids;
    assert forall|i: int| 0 <= i < parts.len() implies is_word(#[trigger] parts[i]) by {
        if i > 0 {
            assert(parts[i] == ids[i - 1]);
        }
    }
    lemma_words_spaced(parts);
    assert(parts.skip(1) =~= ids);
    let plain = spaced(parts);
    assert("ROOMS"@.is_prefix_of(plain)) by {
        if parts.len() > 1 {
            crate::util::codec::lemma_spaced_head(parts);
            assert("ROOMS"@ =~= plain.subrange(0, 5));
        } else {
            assert(parts =~= seq!["ROOMS"@]);
            assert(plain =~= "ROOMS"@);
        }
    }
}

/// The server reads a command to enter a room as the client meant it.
pub proof fn law_join_command_is_read(
    action: JoinAction,
    room: RoomKeyView,
    nickname: Seq<char>,
)
    requires
        is_word(room.room_id),
        is_word(nickname),
        is_word(join_credential_of(room.room_key)),
    ensures
        words(join_command(action, room, nickname)) == seq![
            action_word(action),
            room.room_id,
            join_credential_of(room.room_key),
            nickname,
        ],
{
    reveal_strlit("CREATE");
    reveal_strlit("JOIN");
    let parts = seq![
        action_word(action),
        room.room_id,
        join_credential_of(room.room_key),
        nickname,
    ];
    assert forall|i: int| 0 <= i < parts.len() implies is_word(#[trigger] parts[i]) by {
        assert(is_word("CREATE"@));
        assert(is_word("JOIN"@));
    }
    lemma_words_spaced(parts);
}

/// Whoever knows a room's name and credential gets into the room that another created with them,
/// without becoming its owner.
pub proof fn law_same_credential_enters(
    m: RoomsView,
    room: RoomKeyView,
    owner: (Seq<char>, Seq<char>, Seq<char>),
    guest: (Seq<char>, Seq<char>, Seq<char>),
)
    requires
        is_word(room.room_id),
        is_word(join_credential_of(room.room_key)),
        is_word(owner.0),
        is_word(guest.0),
        !m.contains_key(room.room_id),
    ensures
        ({
            let (made, first) = admitted(
                m,
                join_command(JoinAction::Create, room, owner.0),
                owner.1,
                owner.2,
            );
            let (full, second) = admitted(
                made,
                join_command(JoinAction::Join, room, guest.0),
                guest.1,
                guest.2,
            );
            &&& first matches Ok(Some(o)) && o.owner_capability == Some(owner.2)
            &&& second matches Ok(Some(g)) && g.room_id == room.room_id && g.member_id == guest.1
                && g.nickname == guest.0 && g.owner_capability is None
        }),
{
    law_join_command_is_read(JoinAction::Create, room, owner.0);
    law_join_command_is_read(JoinAction::Join, room, guest.0);
    reveal_strlit("CREATE");
    reveal_strlit("JOIN");
    assert("CREATE"@.len() == 6);
    assert("JOIN"@.len() == 4);
}

/// Whoever has another credential does not get in, and nothing changes.
pub proof fn law_other_credential_is_refused(
    m: RoomsView,
    room: RoomKeyView,
    nickname: Seq<char>,
    member_id: Seq<char>,
    capability: Seq<char>,
)
    requires
        is_word(room.room_id),
        is_word(join_credential_of(room.room_key)),
        is_word(nickname),
        m.contains_key(room.room_id),
        m[room.room_id].join_credential != join_credential_of(room.room_key),
    ensures
        admitted(m, join_command(JoinAction::Join, room, nickname), member_id, capability) == (
            m,
            Err::<Option<HandshakeView>, Seq<char>>("BadCredential"@),
        ),
{
    law_join_command_is_read(JoinAction::Join, room, nickname);
    reveal_strlit("CREATE");
    reveal_strlit("JOIN");
    assert("CREATE"@.len() == 6);
    assert("JOIN"@.len() == 4);
}

} // verus!
