//! What the server answers at each stage of a connection.
use crate::attachments::sender::{chunk_packet_id, meta_packet_id};
use crate::crypto::handshake::invite_token_id;
use crate::crypto::transport::{transport_opened, OpenView, TransportSide, TransportView};
use crate::outside::encoding::{base64url_text, hex_text};
use crate::protocol::invite::{
    invite_hello_line, invite_ok_line, invite_request_parts, invite_token_line, ready_nickname,
    session_ok_line,
};
use crate::protocol::line::packet_parts;
use crate::server::broadcast::{delivered, priority_of, BroadcastPriority, EventView};
use crate::server::connection::{
    admitted, hello_of, invite_answer, invited, lemma_hex_round_trip, line_outcome, plain_outcome,
    proof_value, request_fault, HandshakeView, HelloView, OutcomeView, ProofView,
};
use crate::server::invite::{begun, consumed, normalized, reset, TokensView, UseView};
use crate::server::room::{left, RoomsView};
use crate::server::session::{
    command_step, ended, entry_step, first_step, invite_step, password_step, ready_step,
    session_step, session_transport, talk_step, with_transport, ChancesView, ReplyView, SessionView,
    StartView,
};
use crate::util::codec::{lemma_words_spaced, spaced};
use crate::util::text::{is_white, is_word, lemma_value_after, trimmed_end, value_after, words};
use vstd::prelude::*;

verus! {

/// The packets of an attachment wait behind everything else, the announcement as well as the pieces;
/// a text does not wait.
pub proof fn law_attachments_wait_behind_texts(id: Seq<char>, index: usize)
    ensures
        priority_of(meta_packet_id(id)) == BroadcastPriority::Low,
        priority_of(chunk_packet_id(id, index)) == BroadcastPriority::Low,
        priority_of("msg-"@ + id) == BroadcastPriority::High,
{
    let meta = meta_packet_id(id);
    let chunk = chunk_packet_id(id, index);
    let text = "msg-"@ + id;
    let n = "att-"@.len() as int;
    assert("att-"@ =~= meta.subrange(0, n));
    assert("att-"@ =~= chunk.subrange(0, n));
    reveal_strlit("att-");
    reveal_strlit("msg-");
    if "att-"@.is_prefix_of(text) {
        assert("att-"@[0] == text.subrange(0, n)[0]);
    }
}

/// A line of a room goes to everyone in it but the one it comes from; one that comes from nobody goes
/// to everyone.
pub proof fn law_everyone_else_is_told(plain: Seq<char>, from: Seq<char>, to: Seq<char>)
    ensures
        delivered(EventView { source: Some(from), plain }, from) is None,
        to != from ==> delivered(EventView { source: Some(from), plain }, to) == Some(plain),
        delivered(EventView { source: None, plain }, to) == Some(plain),
{
}

/// The server reads the nonce of a client that knows a password, and the token and the nonce of one
/// that was invited.
pub proof fn law_first_line_is_read(token_id: Seq<u8>, nonce: Seq<u8>)
    requires
        token_id.len() == 32,
        nonce.len() == 32,
    ensures
        hello_of("/AUTH_HELLO "@ + hex_text(nonce)) == (HelloView::Password {
            client_nonce: nonce,
        }),
        hello_of(invite_hello_line(hex_text(token_id), hex_text(nonce))) == (HelloView::Invite {
            token_id,
            client_nonce: nonce,
        }),
{
    lemma_hex_round_trip(token_id);
    lemma_hex_round_trip(nonce);
    let word = hex_text(nonce);
    let first = "/AUTH_HELLO "@ + word;
    lemma_value_after("/AUTH_HELLO "@, word);
    assert(first.last() == word.last());
    assert(word.len() > 0 && is_word(word) && !is_white(word.last()));
    assert(trimmed_end(first) == first);
    let parts = seq!["/INVITE_HELLO"@, hex_text(token_id), word];
    let second = spaced(parts);
    reveal_strlit("/INVITE_HELLO");
    reveal_strlit("/AUTH_HELLO ");
    reveal_strlit(" ");
    assert(is_word("/INVITE_HELLO"@));
    assert forall|i: int| 0 <= i < parts.len() implies is_word(#[trigger] parts[i]) by {}
    lemma_words_spaced(parts);
    assert(parts.drop_first() =~= seq![hex_text(token_id), word]);
    assert(parts.drop_first().drop_first() =~= seq![word]);
    reveal_with_fuel(crate::util::codec::join_texts, 4);
    assert(second =~= "/INVITE_HELLO"@ + " "@ + (hex_text(token_id) + " "@ + word));
    assert(second.last() == word.last());
    assert(trimmed_end(second) == second);
    if "/AUTH_HELLO "@.is_prefix_of(second) {
        assert("/AUTH_HELLO "@[1] == second.subrange(0, "/AUTH_HELLO "@.len() as int)[1]);
    }
    assert(value_after(second, "/AUTH_HELLO "@) is None);
}

/// A client that begins with its password is challenged with a fresh nonce, and both nonces are kept
/// for the proof. One that begins with something else is told so and the connection is over. Neither
/// changes a room or a token.
pub proof fn law_first_line_is_challenged(
    m: RoomsView,
    t: TokensView,
    line: Seq<char>,
    c: ChancesView,
    now: i64,
)
    ensures
        ({
            let v = first_step(m, t, line, c, now);
            &&& v.rooms == m
            &&& !v.entered
            &&& v.broadcast is None
            &&& hello_of(line) matches HelloView::Password { client_nonce } ==> {
                &&& v.next == (SessionView::PasswordProof {
                    client_nonce,
                    server_nonce: c.server_nonce,
                })
                &&& v.replies == seq![
                    ReplyView::Raw("/AUTH_CHALLENGE "@ + hex_text(c.server_nonce)),
                ]
                &&& v.tokens == t
            }
            &&& hello_of(line) is Unknown ==> v.next is Over && v.tokens == t && v.replies == seq![
                ReplyView::Raw("ERR NeedHandshake"@),
            ]
            &&& hello_of(line) is BadHex ==> v.next is Over && v.tokens == t && v.failed
        }),
{
}

/// A client that begins with a token that can be used is challenged, and the token is then under way;
/// one whose token cannot be used is refused.
pub proof fn law_token_is_challenged(
    m: RoomsView,
    t: TokensView,
    line: Seq<char>,
    c: ChancesView,
    now: i64,
)
    requires
        hello_of(line) is Invite,
    ensures
        ({
            let token_id = hello_of(line)->token_id;
            let cn = hello_of(line)->Invite_client_nonce;
            let (next, token) = begun(t, hex_text(token_id), cn, c.server_nonce, now);
            let v = first_step(m, t, line, c, now);
            &&& v.tokens == next
            &&& token is None ==> v.next is Over && v.replies == seq![
                ReplyView::Raw("ERR InviteInvalid"@),
            ]
            &&& token is Some ==> {
                &&& v.next matches SessionView::InviteProof { start }
                &&& start.token_id == token_id
                &&& start.token_id_hex == hex_text(token_id)
                &&& start.client_nonce == cn
                &&& start.server_nonce == c.server_nonce
                &&& start.token_secret == (token->0).token_secret
                &&& start.room_id == (token->0).room_id
                &&& start.blob_b64 == (token->0).blob_b64
                &&& v.replies == seq![
                    ReplyView::Raw("/INVITE_CHALLENGE "@ + hex_text(c.server_nonce)),
                ]
            }
        }),
{
}

/// A proof counts exactly when it is the one that is expected.
pub proof fn law_only_the_right_proof_counts(
    tag: Seq<u8>,
    expected: Seq<u8>,
    key: Seq<u8>,
)
    requires
        tag.len() == 32,
    ensures
        tag == expected ==> proof_value(Some(hex_text(tag)), expected, key) == ProofView::Right(
            key,
        ),
        tag != expected ==> proof_value(Some(hex_text(tag)), expected, key) == ProofView::Wrong,
        proof_value(None, expected, key) == ProofView::Missing,
{
    lemma_hex_round_trip(tag);
}

/// A client that has proved that it knows the password is told so and told the rooms, under the new
/// key of the connection. Without the right proof the connection is over.
pub proof fn law_proven_client_is_told_the_rooms(
    m: RoomsView,
    t: TokensView,
    verdict: ProofView,
    names: Seq<Seq<char>>,
)
    ensures
        ({
            let v = password_step(m, t, verdict, names);
            &&& v.rooms == m
            &&& v.tokens == t
            &&& !v.entered
            &&& v.next is Over <==> verdict !is Right
            &&& verdict matches ProofView::Right(key) ==> {
                &&& v.replies.len() == 2
                &&& v.replies[0] == ReplyView::Sealed("OK"@)
                &&& v.replies[1] == ReplyView::Sealed(spaced(seq!["ROOMS"@] + names))
                &&& v.next matches SessionView::Command { transport }
                &&& transport == crate::crypto::transport::new_transport(
                    key,
                    TransportSide::Server,
                )
            }
            &&& verdict is Wrong ==> v.replies == seq![ReplyView::Raw("ERR BadAuth"@)]
            &&& v.failed <==> verdict is BadHex
            &&& verdict is BadHex ==> v.replies.len() == 0
            &&& verdict is Missing ==> v.replies == seq![ReplyView::Raw("ERR NeedAuthProof"@)]
        }),
{
}

/// A client that has proved that it was invited is told the room, and its token stays under way; one
/// that gives a wrong proof or none is refused, and its token can be used again.
pub proof fn law_proven_guest_is_told_the_room(
    m: RoomsView,
    t: TokensView,
    start: StartView,
    verdict: ProofView,
    now: i64,
)
    ensures
        ({
            let v = invite_step(m, t, start, verdict, now);
            &&& v.rooms == m
            &&& !v.entered
            &&& verdict matches ProofView::Right(key) ==> {
                &&& v.tokens == t
                &&& v.next matches SessionView::InviteReady { transport, start: s }
                &&& s == start
                &&& transport == crate::crypto::transport::new_transport(
                    key,
                    TransportSide::Server,
                )
                &&& v.replies == seq![
                    ReplyView::Sealed(invite_ok_line(start.room_id, start.blob_b64)),
                ]
            }
            &&& verdict is Wrong || verdict is Missing ==> {
                &&& v.next is Over
                &&& v.replies.len() == 1
                &&& normalized(t, now).contains_key(start.token_id_hex)
                    ==> v.tokens[start.token_id_hex].state is Unused
            }
            &&& verdict is BadHex ==> v.next is Over && v.failed
        }),
{
}

/// The command for a room is answered: a new room is made for the one who asks, a room that is there
/// is not made again, one that is not there is not joined, and a wrong credential does not open it.
/// What is refused changes nothing.
pub proof fn law_room_commands_are_answered(
    m: RoomsView,
    cmd: Seq<char>,
    member_id: Seq<char>,
    capability: Seq<char>,
)
    ensures
        ({
            let w = words(cmd);
            let (next, entry) = admitted(m, cmd, member_id, capability);
            let create = w.len() >= 4 && w[0] == "CREATE"@;
            let join = w.len() >= 4 && w[0] == "JOIN"@;
            &&& create && !m.contains_key(w[1]) ==> {
                &&& next == m.insert(w[1], next[w[1]])
                &&& next[w[1]].join_credential == w[2]
                &&& next[w[1]].owner_member_id == Some(member_id)
                &&& next[w[1]].owner_capability == Some(capability)
                &&& next[w[1]].members.contains_key(member_id)
                &&& entry == Ok::<Option<HandshakeView>, Seq<char>>(
                    Some(
                        HandshakeView {
                            room_id: w[1],
                            member_id,
                            nickname: w[3],
                            owner_capability: Some(capability),
                        },
                    ),
                )
            }
            &&& create && m.contains_key(w[1]) ==> entry == Err::<
                Option<HandshakeView>,
                Seq<char>,
            >("RoomExists"@)
            &&& join && !m.contains_key(w[1]) ==> entry == Err::<Option<HandshakeView>, Seq<char>>(
                "NoSuchRoom"@,
            )
            &&& join && m.contains_key(w[1]) && m[w[1]].join_credential != w[2] ==> entry == Err::<
                Option<HandshakeView>,
                Seq<char>,
            >("BadCredential"@)
            &&& join && m.contains_key(w[1]) && m[w[1]].join_credential == w[2] ==> {
                &&& next == m.insert(w[1], next[w[1]])
                &&& next[w[1]].members.contains_key(member_id)
                &&& next[w[1]].members[member_id] == w[3]
                &&& next[w[1]].owner_member_id == m[w[1]].owner_member_id
                &&& next[w[1]].join_credential == m[w[1]].join_credential
                &&& entry == Ok::<Option<HandshakeView>, Seq<char>>(
                    Some(
                        HandshakeView {
                            room_id: w[1],
                            member_id,
                            nickname: w[3],
                            owner_capability: None,
                        },
                    ),
                )
            }
            &&& w.len() > 0 && w.len() < 4 && (w[0] == "CREATE"@ || w[0] == "JOIN"@) ==> entry
                == Ok::<Option<HandshakeView>, Seq<char>>(None)
            &&& w.len() == 0 || (w[0] != "CREATE"@ && w[0] != "JOIN"@) ==> entry == Err::<
                Option<HandshakeView>,
                Seq<char>,
            >("UnknownAction"@)
            &&& !(entry matches Ok(Some(_))) ==> next == m
        }),
{
    reveal_strlit("CREATE");
    reveal_strlit("JOIN");
    assert("CREATE"@.len() != "JOIN"@.len());
}

/// Whoever enters a room is told its identifier, and the capability where it owns the room; whoever is
/// refused is told why, and the connection is over.
pub proof fn law_entry_is_answered(
    m: RoomsView,
    t: TokensView,
    transport: TransportView,
    entry: Result<Option<HandshakeView>, Seq<char>>,
    nothing: Seq<ReplyView>,
)
    ensures
        ({
            let v = entry_step(m, t, transport, entry, nothing);
            &&& v.rooms == m
            &&& v.tokens == t
            &&& v.entered <==> (entry matches Ok(Some(_)))
            &&& !v.failed
            &&& v.broadcast is None
            &&& entry matches Ok(Some(member)) ==> {
                &&& v.next == (SessionView::InRoom { transport, member })
                &&& v.replies == seq![
                    ReplyView::Sealed(session_ok_line(member.member_id, member.owner_capability)),
                ]
            }
            &&& entry matches Err(reason) ==> v.next is Over && v.replies == seq![
                ReplyView::Sealed("ERR "@ + reason),
            ]
            &&& entry matches Ok(None) ==> v.next is Over && v.replies == nothing
        }),
{
}

/// A command that does not open as the next line of the connection lets nobody in and changes no room.
pub proof fn law_unopened_command_lets_nobody_in(
    m: RoomsView,
    t: TokensView,
    transport: TransportView,
    line: Seq<char>,
    c: ChancesView,
)
    requires
        !(transport_opened(transport, trimmed_end(line)).0 matches Some(OpenView::Fresh(_))),
    ensures
        ({
            let v = command_step(m, t, transport, line, c);
            &&& v.rooms == m
            &&& v.tokens == t
            &&& !v.entered
            &&& v.next is Over
        }),
{
}

/// A guest enters the room it was invited to, under its name and without owning it, and its token is
/// then used up. Without a name the token can be used again; with a token that is not under way, or
/// when the room is gone, nobody enters.
pub proof fn law_guest_enters_the_room(
    m: RoomsView,
    t: TokensView,
    id: Seq<char>,
    cn: Seq<u8>,
    sn: Seq<u8>,
    room: Seq<char>,
    nickname: Option<Seq<char>>,
    member_id: Seq<char>,
    now: i64,
)
    ensures
        ({
            let (rooms, tokens, entry) = invited(
                m,
                t,
                id,
                cn,
                sn,
                room,
                nickname,
                member_id,
                now,
            );
            let (used, ok) = consumed(t, id, cn, sn, now);
            &&& nickname is None ==> rooms == m && tokens == reset(t, id, now) && entry == Ok::<
                Option<HandshakeView>,
                Seq<char>,
            >(None)
            &&& nickname is Some ==> tokens == used
            &&& nickname is Some && !ok ==> rooms == m && entry is Err
            &&& nickname is Some && ok && !m.contains_key(room) ==> rooms == m && entry is Err
            &&& nickname is Some && ok && m.contains_key(room) ==> {
                &&& entry == Ok::<Option<HandshakeView>, Seq<char>>(
                    Some(
                        HandshakeView {
                            room_id: room,
                            member_id,
                            nickname: nickname->0,
                            owner_capability: None,
                        },
                    ),
                )
                &&& rooms[room].members.contains_key(member_id)
                &&& rooms[room].members[member_id] == nickname->0
                &&& rooms[room].owner_member_id == m[room].owner_member_id
                &&& tokens[id].state is Used
            }
        }),
{
}

/// The owner of a room, who holds its capability and asks for that room, gets a token for it; anyone
/// else is told why not.
pub proof fn law_owner_gets_a_token(
    m: RoomsView,
    member: HandshakeView,
    room: Seq<char>,
    capability: Seq<char>,
)
    ensures
        request_fault(m, member, room, capability) is None <==> {
            &&& room == member.room_id
            &&& m.contains_key(room)
            &&& m[room].owner_member_id == Some(member.member_id)
            &&& m[room].owner_capability == Some(capability)
            &&& member.owner_capability == Some(capability)
        },
        room != member.room_id ==> request_fault(m, member, room, capability) == Some(
            "RoomMismatch"@,
        ),
        room == member.room_id && !m.contains_key(room) ==> request_fault(
            m,
            member,
            room,
            capability,
        ) == Some("NoSuchRoom"@),
{
}

/// A sign of life is answered and goes to nobody; a line that does not open causes nothing.
pub proof fn law_sign_of_life_is_answered(
    m: RoomsView,
    t: TokensView,
    member: HandshakeView,
    duplicate: bool,
    secret: Seq<u8>,
    now: i64,
)
    ensures
        plain_outcome(m, t, member, "/ping"@, duplicate, secret, now) == (
            t,
            OutcomeView { replies: seq!["/ping_ack"@], broadcast: None },
        ),
        line_outcome(m, t, member, None, secret, now) == (
            t,
            OutcomeView { replies: Seq::empty(), broadcast: None },
        ),
{
}

/// What a member says goes out under the nickname of the member, and under no other; a request for an
/// invite is answered and goes to nobody.
pub proof fn law_packet_is_passed_on_or_answered(
    m: RoomsView,
    t: TokensView,
    member: HandshakeView,
    plain: Seq<char>,
    secret: Seq<u8>,
    now: i64,
)
    requires
        plain != "/ping"@,
        packet_parts(plain) is Some,
    ensures
        ({
            let (id, payload) = packet_parts(plain)->0;
            let (tokens, out) = plain_outcome(m, t, member, plain, false, secret, now);
            &&& out.replies.len() > 0
            &&& out.replies[0] == "/ACK "@ + id
            &&& invite_request_parts(payload) is None ==> {
                &&& tokens == t
                &&& out.replies.len() == 1
                &&& out.broadcast == Some(
                    (
                        priority_of(id),
                        EventView {
                            source: Some(member.member_id),
                            plain: "["@ + member.nickname + "] "@ + payload,
                        },
                    ),
                )
            }
            &&& invite_request_parts(payload) matches Some(request) ==> {
                let answer = invite_answer(m, t, member, request, secret, now);
                &&& out.broadcast is None
                &&& tokens == answer.0
                &&& out.replies == seq!["/ACK "@ + id, answer.1]
            }
        }),
{
    let (id, payload) = packet_parts(plain)->0;
    if let Some(request) = invite_request_parts(payload) {
        let answer = invite_answer(m, t, member, request, secret, now);
        assert(seq!["/ACK "@ + id].push(answer.1) =~= seq!["/ACK "@ + id, answer.1]);
    }
}

/// A member that talks stays in the room, under the same name, with the connection moved on.
pub proof fn law_talking_member_stays(
    m: RoomsView,
    t: TokensView,
    transport: TransportView,
    member: HandshakeView,
    line: Seq<char>,
    c: ChancesView,
    now: i64,
)
    ensures
        ({
            let v = talk_step(m, t, transport, member, line, c, now);
            &&& v.next == (SessionView::InRoom {
                transport: transport_opened(transport, trimmed_end(line)).1,
                member,
            })
            &&& v.rooms == m
            &&& !v.entered
            &&& !v.failed
            &&& transport_opened(transport, trimmed_end(line)).0 is None ==> v.tokens == t
                && v.broadcast is None && v.replies.len() == 0
        }),
{
}

/// A connection that is over stays over, and nothing comes of its lines.
pub proof fn law_over_is_over(
    last: Option<TransportView>,
    m: RoomsView,
    t: TokensView,
    names: Seq<Seq<char>>,
    hash: Seq<u8>,
    line: Seq<char>,
    c: ChancesView,
    now: i64,
)
    ensures
        ({
            let v = session_step(
                SessionView::Over { last },
                m,
                t,
                names,
                hash,
                line,
                c,
                now,
            );
            &&& v.next == (SessionView::Over { last })
            &&& v.rooms == m
            &&& v.tokens == t
            &&& v.replies.len() == 0
            &&& v.broadcast is None
            &&& !v.entered
        }),
{
}

/// When a connection ends, a member leaves its room, and a guest that closed it before entering can
/// use its token again. Nothing else changes.
pub proof fn law_end_of_a_connection(
    s: SessionView,
    m: RoomsView,
    t: TokensView,
    closed: bool,
    now: i64,
)
    ensures
        ({
            let (rooms, tokens) = ended(s, m, t, closed, now);
            &&& s matches SessionView::InRoom { member, .. } ==> tokens == t && rooms == left(
                m,
                member.room_id,
                member.member_id,
            )
            &&& s !is InRoom ==> rooms == m
            &&& s matches SessionView::InviteProof { start } ==> if closed {
                tokens == reset(t, start.token_id_hex, now)
            } else {
                tokens == t
            }
            &&& s matches SessionView::InviteReady { start, .. } ==> if closed {
                tokens == reset(t, start.token_id_hex, now)
            } else {
                tokens == t
            }
            &&& s is Fresh || s is PasswordProof || s is Command || s is Over ==> tokens == t
        }),
{
}

/// A token that is handed out is for the room of the one who asked, can be used for ten minutes, and
/// keeps the blob that came with the request. A handshake with it may take half a minute. No other
/// token is touched.
pub proof fn law_token_lasts_ten_minutes(
    m: RoomsView,
    t: TokensView,
    member: HandshakeView,
    request: (Seq<char>, Seq<char>, Seq<char>, Seq<char>),
    secret: Seq<u8>,
    now: i64,
    cn: Seq<u8>,
    sn: Seq<u8>,
    other: Seq<char>,
)
    requires
        request_fault(m, member, request.1, request.2) is None,
        now + 600 <= i64::MAX,
    ensures
        ({
            let (tokens, line) = invite_answer(m, t, member, request, secret, now);
            let id = hex_text(invite_token_id(secret));
            let (begun_tokens, got) = begun(tokens, id, cn, sn, now);
            &&& tokens.contains_key(id)
            &&& tokens[id].room_id == member.room_id
            &&& tokens[id].expires_at == now + 600
            &&& tokens[id].blob_b64 == request.3
            &&& tokens[id].token_secret == secret
            &&& tokens[id].state is Unused
            &&& line == invite_token_line(request.0, base64url_text(secret), tokens[id].expires_at)
            &&& got is Some
            &&& begun_tokens[id].state matches UseView::Pending { pending_until, .. }
            &&& pending_until == now + 30
            &&& other != id && t.contains_key(other) ==> tokens[other] == t[other]
        }),
{
}

/// A guest that is ready enters by the name in its next line. A line that does not open names nobody:
/// nobody enters, the connection is over, and the token can be used again.
pub proof fn law_ready_guest_enters_by_name(
    m: RoomsView,
    t: TokensView,
    transport: TransportView,
    start: StartView,
    line: Seq<char>,
    c: ChancesView,
    now: i64,
)
    ensures
        ({
            let v = ready_step(m, t, transport, start, line, c, now);
            let name = match transport_opened(transport, trimmed_end(line)).0 {
                Some(OpenView::Fresh(plain)) => ready_nickname(plain),
                _ => None,
            };
            let (rooms, tokens, entry) = invited(
                m,
                t,
                start.token_id_hex,
                start.client_nonce,
                start.server_nonce,
                start.room_id,
                name,
                c.member_id,
                now,
            );
            &&& v.rooms == rooms
            &&& v.tokens == tokens
            &&& v.entered <==> (entry matches Ok(Some(_)))
            &&& name is None ==> !v.entered && v.rooms == m && v.next is Over && v.tokens == reset(
                t,
                start.token_id_hex,
                now,
            )
            &&& v.entered ==> {
                &&& v.next matches SessionView::InRoom { transport: after, member }
                &&& after == transport_opened(transport, trimmed_end(line)).1
                &&& member.member_id == c.member_id
                &&& member.room_id == start.room_id
                &&& member.owner_capability is None
            }
        }),
{
}

/// What seals the answers of a connection is its own key, and putting a key in its place changes
/// nothing else.
pub proof fn law_connection_keeps_its_key(s: SessionView, t: TransportView)
    requires
        session_transport(s) is Some,
    ensures
        session_transport(with_transport(s, t)) == Some(t),
        with_transport(s, session_transport(s)->0) == s,
        s matches SessionView::InRoom { member, .. } ==> with_transport(s, t) == (
        SessionView::InRoom { transport: t, member }),
{
}

/// A line that is no packet is passed on at once, or answered when it asks for an invite.
pub proof fn law_bare_line_is_passed_on(
    m: RoomsView,
    t: TokensView,
    member: HandshakeView,
    plain: Seq<char>,
    secret: Seq<u8>,
    now: i64,
)
    requires
        plain != "/ping"@,
        packet_parts(plain) is None,
    ensures
        ({
            let (tokens, out) = plain_outcome(m, t, member, plain, false, secret, now);
            &&& invite_request_parts(plain) is None ==> {
                &&& tokens == t
                &&& out.replies.len() == 0
                &&& out.broadcast == Some(
                    (
                        BroadcastPriority::High,
                        EventView {
                            source: Some(member.member_id),
                            plain: "["@ + member.nickname + "] "@ + plain,
                        },
                    ),
                )
            }
            &&& invite_request_parts(plain) is Some ==> out.broadcast is None && out.replies.len()
                == 1
        }),
{
}

} // verus!
