//! A connection to the server, from its first line to its last.
use crate::crypto::aead::sealable;
use crate::crypto::transport::{
    new_transport, opened_line, sealed_line, transport_opened, wrapped_next, OpenView,
    TransportCrypto, TransportSide, TransportView,
};
use crate::outside::encoding::hex_text;
use crate::outside::random::{alphanumeric, random_alphanumeric, random_bytes32};
use crate::protocol::invite::{
    build_invite_ok_line, build_session_ok_line, invite_ok_line, session_ok_line, INVITE_TTL_SECS,
};
use crate::protocol::member::member_list_line;
use crate::server::broadcast::{
    delivered, delivered_line, BroadcastPriority, EventView, ServerEvent,
};
use crate::server::connection::{
    admitted, auth_challenge, begin_invite, check_password_proof, client_hello, entering_nickname,
    fresh_plain, hello_of, invite_challenge, invite_proof, invite_proof_step, invite_ready_step,
    invited, line_outcome, parse_join_command_with, password_proof, random_member_id,
    random_nonce32, room_line_step_with, rooms_line, ClientHello, HandshakeView, HelloView,
    InviteStart, ProofCheck, ProofView, RoomHandshake,
};
use crate::server::invite::{begun, reset, reset_invite_to_unused, tokens, Invites, TokensView};
use crate::server::room::{left, room_views, rooms_wf, roster, RoomGuard, Rooms, RoomsView};
use crate::transport::packet::transport_seal_line;
use crate::util::codec::spaced;
use crate::util::id_map::entry_ids;
use crate::util::text::{joined, opt_text, trimmed_end, views};
use vstd::prelude::*;
use vstd::utf8::encode_utf8;

verus! {

/// How far a connection has come.
#[derive(Debug)]
pub enum Session {
    /// Nothing has been said yet.
    Fresh,
    /// The client is to prove that it knows the password.
    PasswordProof { client_nonce: [u8; 32], server_nonce: [u8; 32] },
    /// The client is to name a room.
    Command { transport: TransportCrypto },
    /// The client is to prove that it was invited.
    InviteProof { start: InviteStart },
    /// The client is to name itself.
    InviteReady { transport: TransportCrypto, start: InviteStart },
    /// The client is in a room.
    InRoom { transport: TransportCrypto, member: RoomHandshake },
    /// The connection is over.
    Over { last: Option<TransportCrypto> },
}

/// An invite handshake that has begun.
#[verifier::ext_equal]
pub ghost struct StartView {
    pub token_id: Seq<u8>,
    pub token_id_hex: Seq<char>,
    pub client_nonce: Seq<u8>,
    pub server_nonce: Seq<u8>,
    pub token_secret: Seq<u8>,
    pub room_id: Seq<char>,
    pub blob_b64: Seq<char>,
}

impl View for InviteStart {
    type V = StartView;

    open spec fn view(&self) -> StartView {
        StartView {
            token_id: self.token_id@,
            token_id_hex: self.token_id_hex@,
            client_nonce: self.client_nonce@,
            server_nonce: self.server_nonce@,
            token_secret: self.token_secret@,
            room_id: self.room_id@,
            blob_b64: self.blob_b64@,
        }
    }
}

/// How far a connection has come.
pub ghost enum SessionView {
    Fresh,
    PasswordProof { client_nonce: Seq<u8>, server_nonce: Seq<u8> },
    Command { transport: TransportView },
    InviteProof { start: StartView },
    InviteReady { transport: TransportView, start: StartView },
    InRoom { transport: TransportView, member: HandshakeView },
    Over { last: Option<TransportView> },
}

impl View for Session {
    type V = SessionView;

    open spec fn view(&self) -> SessionView {
        match self {
            Session::Fresh => SessionView::Fresh,
            Session::PasswordProof { client_nonce, server_nonce } => SessionView::PasswordProof {
                client_nonce: client_nonce@,
                server_nonce: server_nonce@,
            },
            Session::Command { transport } => SessionView::Command { transport: transport@ },
            Session::InviteProof { start } => SessionView::InviteProof { start: start@ },
            Session::InviteReady { transport, start } => SessionView::InviteReady {
                transport: transport@,
                start: start@,
            },
            Session::InRoom { transport, member } => SessionView::InRoom {
                transport: transport@,
                member: member@,
            },
            Session::Over { last } => SessionView::Over {
                last: match last {
                    Some(t) => Some(t@),
                    None => None,
                },
            },
        }
    }
}

impl Session {
    pub open spec fn wf(&self) -> bool {
        match self {
            Session::Command { transport } => transport.wf(),
            Session::InviteReady { transport, .. } => transport.wf(),
            Session::InRoom { transport, .. } => transport.wf(),
            Session::Over { last: Some(transport) } => transport.wf(),
            _ => true,
        }
    }

    /// Whether the connection is over.
    pub fn is_over(&self) -> (yes: bool)
        ensures
            yes == (self@ is Over),
    {
        match self {
            Session::Over { .. } => true,
            _ => false,
        }
    }

    /// Whether the connection ends when an answer cannot be written: in a room only the answer to
    /// entering it has to arrive.
    pub fn needs_reply(&self, entered: bool) -> (yes: bool)
        ensures
            yes == (!(self@ is InRoom) || entered),
    {
        entered || self.member().is_none()
    }

    /// Who is in a room over this connection.
    pub fn member(&self) -> (member: Option<&RoomHandshake>)
        ensures
            match (member, self@) {
                (Some(m), SessionView::InRoom { member: v, .. }) => m@ == v,
                (None, SessionView::InRoom { .. }) => false,
                (Some(_), _) => false,
                (None, _) => true,
            },
    {
        match self {
            Session::InRoom { member, .. } => Some(member),
            _ => None,
        }
    }
}

/// A line for the client: as it is, or under the key of the connection.
#[derive(Debug)]
pub enum Reply {
    Raw(String),
    Sealed(String),
}

/// A line for the client.
pub ghost enum ReplyView {
    Raw(Seq<char>),
    Sealed(Seq<char>),
}

impl View for Reply {
    type V = ReplyView;

    open spec fn view(&self) -> ReplyView {
        match self {
            Reply::Raw(line) => ReplyView::Raw(line@),
            Reply::Sealed(line) => ReplyView::Sealed(line@),
        }
    }
}

pub open spec fn reply_views(v: Seq<Reply>) -> Seq<ReplyView> {
    v.map_values(|r: Reply| r@)
}

/// What a line causes beside the changes to the connection.
#[derive(Debug)]
pub struct SessionStep {
    pub replies: Vec<Reply>,
    /// What goes to the members of the room.
    pub broadcast: Option<(BroadcastPriority, ServerEvent)>,
    /// Whether the client has just entered a room.
    pub entered: bool,
    /// Whether the connection ends because a part of a handshake was not 32 bytes in hexadecimal.
    pub failed: bool,
}

/// The random values that a step may need.
#[derive(Debug)]
pub struct Chances {
    pub server_nonce: [u8; 32],
    pub member_id: String,
    pub capability: String,
    pub token_secret: [u8; 32],
}

/// The random values that a step may need.
#[verifier::ext_equal]
pub ghost struct ChancesView {
    pub server_nonce: Seq<u8>,
    pub member_id: Seq<char>,
    pub capability: Seq<char>,
    pub token_secret: Seq<u8>,
}

impl View for Chances {
    type V = ChancesView;

    open spec fn view(&self) -> ChancesView {
        ChancesView {
            server_nonce: self.server_nonce@,
            member_id: self.member_id@,
            capability: self.capability@,
            token_secret: self.token_secret@,
        }
    }
}

impl Chances {
    /// Fresh random values.
    pub fn fresh() -> (c: Self)
        ensures
            c.member_id@.len() == 12,
            alphanumeric(c.member_id@),
            c.capability@.len() == 32,
            alphanumeric(c.capability@),
    {
        Chances {
            server_nonce: random_nonce32(),
            member_id: random_member_id(),
            capability: random_alphanumeric(32),
            token_secret: random_bytes32(),
        }
    }
}

/// What a line leads to.
pub ghost struct StepView {
    pub next: SessionView,
    pub rooms: RoomsView,
    pub tokens: TokensView,
    pub replies: Seq<ReplyView>,
    pub broadcast: Option<(BroadcastPriority, EventView)>,
    pub entered: bool,
    pub failed: bool,
}

/// A step that changes no room and no token.
pub open spec fn quiet_step(
    next: SessionView,
    m: RoomsView,
    t: TokensView,
    replies: Seq<ReplyView>,
    failed: bool,
) -> StepView {
    StepView { next, rooms: m, tokens: t, replies, broadcast: None, entered: false, failed }
}

pub open spec fn over(last: Option<TransportView>) -> SessionView {
    SessionView::Over { last }
}

/// What the first line leads to.
pub open spec fn first_step(
    m: RoomsView,
    t: TokensView,
    line: Seq<char>,
    c: ChancesView,
    now: i64,
) -> StepView {
    match hello_of(line) {
        HelloView::Password { client_nonce } => quiet_step(
            SessionView::PasswordProof { client_nonce, server_nonce: c.server_nonce },
            m,
            t,
            seq![ReplyView::Raw("/AUTH_CHALLENGE "@ + hex_text(c.server_nonce))],
            false,
        ),
        HelloView::Invite { token_id, client_nonce } => {
            let (next, token) = begun(t, hex_text(token_id), client_nonce, c.server_nonce, now);
            match token {
                Some(token) => quiet_step(
                    SessionView::InviteProof {
                        start: StartView {
                            token_id,
                            token_id_hex: hex_text(token_id),
                            client_nonce,
                            server_nonce: c.server_nonce,
                            token_secret: token.token_secret,
                            room_id: token.room_id,
                            blob_b64: token.blob_b64,
                        },
                    },
                    m,
                    next,
                    seq![ReplyView::Raw("/INVITE_CHALLENGE "@ + hex_text(c.server_nonce))],
                    false,
                ),
                None => quiet_step(
                    over(None),
                    m,
                    next,
                    seq![ReplyView::Raw("ERR InviteInvalid"@)],
                    false,
                ),
            }
        },
        HelloView::BadHex => quiet_step(over(None), m, t, Seq::empty(), true),
        HelloView::Unknown => quiet_step(
            over(None),
            m,
            t,
            seq![ReplyView::Raw("ERR NeedHandshake"@)],
            false,
        ),
    }
}

/// What the line after the challenge for the password leads to. `names` are the rooms in the order
/// in which they are named.
pub open spec fn password_step(
    m: RoomsView,
    t: TokensView,
    verdict: ProofView,
    names: Seq<Seq<char>>,
) -> StepView {
    match verdict {
        ProofView::Missing => quiet_step(
            over(None),
            m,
            t,
            seq![ReplyView::Raw("ERR NeedAuthProof"@)],
            false,
        ),
        ProofView::BadHex => quiet_step(over(None), m, t, Seq::empty(), true),
        ProofView::Wrong => quiet_step(
            over(None),
            m,
            t,
            seq![ReplyView::Raw("ERR BadAuth"@)],
            false,
        ),
        ProofView::Right(key) => quiet_step(
            SessionView::Command { transport: new_transport(key, TransportSide::Server) },
            m,
            t,
            seq![ReplyView::Sealed("OK"@), ReplyView::Sealed(spaced(seq!["ROOMS"@] + names))],
            false,
        ),
    }
}

/// What the line after the challenge for the invite leads to.
pub open spec fn invite_step(
    m: RoomsView,
    t: TokensView,
    start: StartView,
    verdict: ProofView,
    now: i64,
) -> StepView {
    match verdict {
        ProofView::Missing => quiet_step(
            over(None),
            m,
            reset(t, start.token_id_hex, now),
            seq![ReplyView::Raw("ERR NeedInviteProof"@)],
            false,
        ),
        ProofView::BadHex => quiet_step(over(None), m, t, Seq::empty(), true),
        ProofView::Wrong => quiet_step(
            over(None),
            m,
            reset(t, start.token_id_hex, now),
            seq![ReplyView::Raw("ERR InviteInvalid"@)],
            false,
        ),
        ProofView::Right(key) => quiet_step(
            SessionView::InviteReady {
                transport: new_transport(key, TransportSide::Server),
                start,
            },
            m,
            t,
            seq![ReplyView::Sealed(invite_ok_line(start.room_id, start.blob_b64))],
            false,
        ),
    }
}

/// What entering a room leads to, or being refused.
pub open spec fn entry_step(
    m: RoomsView,
    t: TokensView,
    transport: TransportView,
    entry: Result<Option<HandshakeView>, Seq<char>>,
    nothing: Seq<ReplyView>,
) -> StepView {
    match entry {
        Ok(Some(member)) => StepView {
            next: SessionView::InRoom { transport, member },
            rooms: m,
            tokens: t,
            replies: seq![
                ReplyView::Sealed(session_ok_line(member.member_id, member.owner_capability)),
            ],
            broadcast: None,
            entered: true,
            failed: false,
        },
        Ok(None) => quiet_step(over(Some(transport)), m, t, nothing, false),
        Err(reason) => quiet_step(
            over(Some(transport)),
            m,
            t,
            seq![ReplyView::Sealed("ERR "@ + reason)],
            false,
        ),
    }
}

/// What the command to enter a room leads to.
pub open spec fn command_step(
    m: RoomsView,
    t: TokensView,
    transport: TransportView,
    line: Seq<char>,
    c: ChancesView,
) -> StepView {
    let (opened, next) = transport_opened(transport, trimmed_end(line));
    let refusal = seq![ReplyView::Sealed("ERR InvalidCmd"@)];
    match opened {
        Some(OpenView::Fresh(cmd)) => {
            let (rooms, entry) = admitted(m, cmd, c.member_id, c.capability);
            entry_step(rooms, t, next, entry, refusal)
        },
        _ => quiet_step(over(Some(next)), m, t, refusal, false),
    }
}

/// What the name of one who was invited leads to.
pub open spec fn ready_step(
    m: RoomsView,
    t: TokensView,
    transport: TransportView,
    start: StartView,
    line: Seq<char>,
    c: ChancesView,
    now: i64,
) -> StepView {
    let (rooms, next_tokens, entry) = invited(
        m,
        t,
        start.token_id_hex,
        start.client_nonce,
        start.server_nonce,
        start.room_id,
        entering_nickname(transport, line),
        c.member_id,
        now,
    );
    entry_step(
        rooms,
        next_tokens,
        transport_opened(transport, trimmed_end(line)).1,
        entry,
        Seq::empty(),
    )
}

/// What a line of one who is in a room leads to.
pub open spec fn talk_step(
    m: RoomsView,
    t: TokensView,
    transport: TransportView,
    member: HandshakeView,
    line: Seq<char>,
    c: ChancesView,
    now: i64,
) -> StepView {
    let (opened, next) = transport_opened(transport, trimmed_end(line));
    let (next_tokens, outcome) = line_outcome(m, t, member, opened, c.token_secret, now);
    StepView {
        next: SessionView::InRoom { transport: next, member },
        rooms: m,
        tokens: next_tokens,
        replies: outcome.replies.map_values(|r: Seq<char>| ReplyView::Sealed(r)),
        broadcast: outcome.broadcast,
        entered: false,
        failed: false,
    }
}

/// What a line leads to.
pub open spec fn session_step(
    s: SessionView,
    m: RoomsView,
    t: TokensView,
    names: Seq<Seq<char>>,
    hash: Seq<u8>,
    line: Seq<char>,
    c: ChancesView,
    now: i64,
) -> StepView {
    match s {
        SessionView::Fresh => first_step(m, t, line, c, now),
        SessionView::PasswordProof { client_nonce, server_nonce } => password_step(
            m,
            t,
            password_proof(line, hash, client_nonce, server_nonce),
            names,
        ),
        SessionView::Command { transport } => command_step(m, t, transport, line, c),
        SessionView::InviteProof { start } => invite_step(
            m,
            t,
            start,
            invite_proof(
                line,
                start.token_secret,
                start.token_id,
                start.client_nonce,
                start.server_nonce,
            ),
            now,
        ),
        SessionView::InviteReady { transport, start } => ready_step(
            m,
            t,
            transport,
            start,
            line,
            c,
            now,
        ),
        SessionView::InRoom { transport, member } => talk_step(
            m,
            t,
            transport,
            member,
            line,
            c,
            now,
        ),
        SessionView::Over { .. } => quiet_step(s, m, t, Seq::empty(), false),
    }
}

/// Whether a step, with the rooms and tokens after it, is the expected one.
pub open spec fn is_step(
    next: Session,
    step: SessionStep,
    rooms: RoomsView,
    tokens: TokensView,
    v: StepView,
) -> bool {
    &&& next@ == v.next
    &&& rooms == v.rooms
    &&& tokens == v.tokens
    &&& reply_views(step.replies@) == v.replies
    &&& (match step.broadcast {
        Some((priority, event)) => v.broadcast == Some((priority, event@)),
        None => v.broadcast is None,
    })
    &&& step.entered == v.entered
    &&& step.failed == v.failed
}

fn no_replies() -> (replies: Vec<Reply>)
    ensures
        reply_views(replies@) == Seq::<ReplyView>::empty(),
{
    let replies: Vec<Reply> = Vec::new();
    assert(reply_views(replies@) =~= Seq::<ReplyView>::empty());
    replies
}

fn one_reply(reply: Reply) -> (replies: Vec<Reply>)
    ensures
        reply_views(replies@) == seq![reply@],
{
    let mut replies: Vec<Reply> = Vec::new();
    let ghost r = reply@;
    replies.push(reply);
    assert(reply_views(replies@) =~= seq![r]);
    replies
}

fn quiet(replies: Vec<Reply>, failed: bool) -> (step: SessionStep)
    ensures
        step.replies == replies,
        step.broadcast is None,
        !step.entered,
        step.failed == failed,
{
    SessionStep { replies, broadcast: None, entered: false, failed }
}

fn take_first(
    invites: &mut Invites,
    line: &str,
    server_nonce: [u8; 32],
    now: i64,
) -> (out: (Session, SessionStep))
    requires
        old(invites).wf(),
        now + INVITE_TTL_SECS <= i64::MAX,
    ensures
        final(invites).wf(),
        out.0.wf(),
        forall|m: RoomsView, c: ChancesView| #[trigger]
            is_step(
                out.0,
                out.1,
                m,
                tokens(final(invites)),
                first_step(m, tokens(old(invites)), line@, c, now),
            ) || c.server_nonce != server_nonce@,
{
    match client_hello(line) {
        ClientHello::Password { client_nonce } => (
            Session::PasswordProof { client_nonce, server_nonce },
            quiet(one_reply(Reply::Raw(auth_challenge(&server_nonce))), false),
        ),
        ClientHello::Invite { token_id, client_nonce } => {
            match begin_invite(invites, token_id, client_nonce, server_nonce, now) {
                Some(start) => (
                    Session::InviteProof { start },
                    quiet(one_reply(Reply::Raw(invite_challenge(&server_nonce))), false),
                ),
                None => (
                    Session::Over { last: None },
                    quiet(one_reply(Reply::Raw("ERR InviteInvalid".to_owned())), false),
                ),
            }
        },
        ClientHello::BadHex => (Session::Over { last: None }, quiet(no_replies(), true)),
        ClientHello::Unknown => (
            Session::Over { last: None },
            quiet(one_reply(Reply::Raw("ERR NeedHandshake".to_owned())), false),
        ),
    }
}

fn take_password_proof(rooms: &Rooms, check: ProofCheck) -> (out: (Session, SessionStep))
    ensures
        out.0.wf(),
        forall|m: RoomsView, t: TokensView| #[trigger]
            is_step(
                out.0,
                out.1,
                m,
                t,
                password_step(m, t, check@, entry_ids(rooms.entries@)),
            ),
{
    match check {
        ProofCheck::Missing => (
            Session::Over { last: None },
            quiet(one_reply(Reply::Raw("ERR NeedAuthProof".to_owned())), false),
        ),
        ProofCheck::BadHex => (Session::Over { last: None }, quiet(no_replies(), true)),
        ProofCheck::Wrong => (
            Session::Over { last: None },
            quiet(one_reply(Reply::Raw("ERR BadAuth".to_owned())), false),
        ),
        ProofCheck::Right(key) => {
            let mut replies = one_reply(Reply::Sealed("OK".to_owned()));
            let banner = rooms_line(rooms);
            let ghost before = replies@;
            let ghost b = banner@;
            replies.push(Reply::Sealed(banner));
            assert(reply_views(replies@) =~= reply_views(before).push(ReplyView::Sealed(b)));
            assert(reply_views(replies@) =~= seq![
                ReplyView::Sealed("OK"@),
                ReplyView::Sealed(b),
            ]);
            (
                Session::Command { transport: TransportCrypto::new(key, TransportSide::Server) },
                quiet(replies, false),
            )
        },
    }
}

fn take_invite_proof(invites: &mut Invites, start: InviteStart, line: &str, now: i64) -> (out: (
    Session,
    SessionStep,
))
    requires
        old(invites).wf(),
    ensures
        final(invites).wf(),
        out.0.wf(),
        forall|m: RoomsView| #[trigger]
            is_step(
                out.0,
                out.1,
                m,
                tokens(final(invites)),
                invite_step(
                    m,
                    tokens(old(invites)),
                    start@,
                    invite_proof(
                        line@,
                        start.token_secret@,
                        start.token_id@,
                        start.client_nonce@,
                        start.server_nonce@,
                    ),
                    now,
                ),
            ),
{
    match invite_proof_step(invites, &start, Some(line), now) {
        ProofCheck::Missing => (
            Session::Over { last: None },
            quiet(one_reply(Reply::Raw("ERR NeedInviteProof".to_owned())), false),
        ),
        ProofCheck::BadHex => (Session::Over { last: None }, quiet(no_replies(), true)),
        ProofCheck::Wrong => (
            Session::Over { last: None },
            quiet(one_reply(Reply::Raw("ERR InviteInvalid".to_owned())), false),
        ),
        ProofCheck::Right(key) => {
            let ok = build_invite_ok_line(start.room_id.as_str(), start.blob_b64.as_str());
            (
                Session::InviteReady {
                    transport: TransportCrypto::new(key, TransportSide::Server),
                    start,
                },
                quiet(one_reply(Reply::Sealed(ok)), false),
            )
        },
    }
}

fn enter(
    transport: TransportCrypto,
    entry: Result<Option<RoomHandshake>, &'static str>,
    nothing: Vec<Reply>,
) -> (out: (Session, SessionStep))
    requires
        transport.wf(),
    ensures
        out.0.wf(),
        forall|m: RoomsView, t: TokensView, v: Result<Option<HandshakeView>, Seq<char>>| #[trigger]
            is_step(
                out.0,
                out.1,
                m,
                t,
                entry_step(m, t, transport@, v, reply_views(nothing@)),
            ) || v != entry_view(entry),
{
    match entry {
        Ok(Some(member)) => {
            let ok = match &member.owner_capability {
                Some(capability) => build_session_ok_line(
                    member.member_id.as_str(),
                    Some(capability.as_str()),
                ),
                None => build_session_ok_line(member.member_id.as_str(), None),
            };
            (
                Session::InRoom { transport, member },
                SessionStep {
                    replies: one_reply(Reply::Sealed(ok)),
                    broadcast: None,
                    entered: true,
                    failed: false,
                },
            )
        },
        Ok(None) => (Session::Over { last: Some(transport) }, quiet(nothing, false)),
        Err(reason) => (
            Session::Over { last: Some(transport) },
            quiet(one_reply(Reply::Sealed(joined("ERR ", reason))), false),
        ),
    }
}

/// An attempt to enter a room.
pub open spec fn entry_view(entry: Result<Option<RoomHandshake>, &'static str>) -> Result<
    Option<HandshakeView>,
    Seq<char>,
> {
    match entry {
        Ok(Some(member)) => Ok(Some(member@)),
        Ok(None) => Ok(None),
        Err(reason) => Err(reason@),
    }
}

fn sealed_replies(outcome: Vec<String>) -> (replies: Vec<Reply>)
    ensures
        reply_views(replies@) == views(outcome@).map_values(
            |r: Seq<char>| ReplyView::Sealed(r),
        ),
{
    let ghost want = views(outcome@).map_values(|r: Seq<char>| ReplyView::Sealed(r));
    let mut rest = outcome;
    let mut replies: Vec<Reply> = Vec::new();
    assert(reply_views(replies@) + views(rest@).map_values(|r: Seq<char>| ReplyView::Sealed(r))
        =~= want);
    while rest.len() > 0
        invariant
            reply_views(replies@) + views(rest@).map_values(
                |r: Seq<char>| ReplyView::Sealed(r),
            ) == want,
        decreases rest.len(),
    {
        let ghost before = replies@;
        let ghost rest_before = rest@;
        let line = rest.remove(0);
        let ghost l = line@;
        replies.push(Reply::Sealed(line));
        proof {
            assert(views(rest@) =~= views(rest_before).drop_first());
            assert(reply_views(replies@) =~= reply_views(before).push(ReplyView::Sealed(l)));
            assert(reply_views(replies@) + views(rest@).map_values(
                |r: Seq<char>| ReplyView::Sealed(r),
            ) =~= reply_views(before) + views(rest_before).map_values(
                |r: Seq<char>| ReplyView::Sealed(r),
            ));
        }
    }
    assert(reply_views(replies@) =~= want);
    replies
}

/// Takes a line of a connection, with given random values, at a given time.
pub fn session_line(
    session: Session,
    rooms: &mut Rooms,
    invites: &mut Invites,
    server_pwd_hash: &[u8; 32],
    line: &str,
    chances: Chances,
    now: i64,
) -> (out: (Session, SessionStep))
    requires
        session.wf(),
        rooms_wf(old(rooms)),
        old(invites).wf(),
        now + INVITE_TTL_SECS <= i64::MAX,
    ensures
        out.0.wf(),
        rooms_wf(final(rooms)),
        final(invites).wf(),
        is_step(
            out.0,
            out.1,
            room_views(final(rooms)),
            tokens(final(invites)),
            session_step(
                session@,
                room_views(old(rooms)),
                tokens(old(invites)),
                entry_ids(old(rooms).entries@),
                server_pwd_hash@,
                line@,
                chances@,
                now,
            ),
        ),
{
    match session {
        Session::Fresh => {
            let out = take_first(invites, line, chances.server_nonce, now);
            proof {
                let v = first_step(room_views(rooms), tokens(old(invites)), line@, chances@, now);
                assert(is_step(out.0, out.1, room_views(rooms), tokens(invites), v));
            }
            out
        },
        Session::PasswordProof { client_nonce, server_nonce } => {
            let check = check_password_proof(line, server_pwd_hash, &client_nonce, &server_nonce);
            let out = take_password_proof(rooms, check);
            proof {
                let v = password_step(
                    room_views(rooms),
                    tokens(invites),
                    check@,
                    entry_ids(rooms.entries@),
                );
                assert(is_step(out.0, out.1, room_views(rooms), tokens(invites), v));
            }
            out
        },
        Session::Command { transport } => {
            let mut transport = transport;
            let nothing = one_reply(Reply::Sealed("ERR InvalidCmd".to_owned()));
            match fresh_plain(&mut transport, line) {
                Some(cmd) => {
                    let ghost m = room_views(rooms);
                    let ghost a = admitted(m, cmd@, chances.member_id@, chances.capability@);
                    let entry = parse_join_command_with(
                        rooms,
                        cmd.as_str(),
                        chances.member_id,
                        chances.capability,
                    );
                    assert(entry_view(entry) == a.1);
                    let ghost t = transport@;
                    let ghost n = reply_views(nothing@);
                    let out = enter(transport, entry, nothing);
                    proof {
                        let v = entry_step(room_views(rooms), tokens(invites), t, a.1, n);
                        assert(is_step(out.0, out.1, room_views(rooms), tokens(invites), v));
                    }
                    out
                },
                None => (Session::Over { last: Some(transport) }, quiet(nothing, false)),
            }
        },
        Session::InviteProof { start } => {
            let ghost s = start@;
            let out = take_invite_proof(invites, start, line, now);
            proof {
                let v = invite_step(
                    room_views(rooms),
                    tokens(old(invites)),
                    s,
                    invite_proof(line@, s.token_secret, s.token_id, s.client_nonce, s.server_nonce),
                    now,
                );
                assert(is_step(out.0, out.1, room_views(rooms), tokens(invites), v));
            }
            out
        },
        Session::InviteReady { transport, start } => {
            let mut transport = transport;
            let ghost nickname = entering_nickname(transport@, line@);
            let ghost w = invited(
                room_views(rooms),
                tokens(invites),
                start.token_id_hex@,
                start.client_nonce@,
                start.server_nonce@,
                start.room_id@,
                nickname,
                chances.member_id@,
                now,
            );
            let entry = invite_ready_step(
                rooms,
                invites,
                &mut transport,
                &start,
                Some(line),
                chances.member_id,
                now,
            );
            assert(entry_view(entry) == w.2);
            let ghost t = transport@;
            let nothing = no_replies();
            let out = enter(transport, entry, nothing);
            proof {
                let v = entry_step(
                    room_views(rooms),
                    tokens(invites),
                    t,
                    w.2,
                    Seq::<ReplyView>::empty(),
                );
                assert(is_step(out.0, out.1, room_views(rooms), tokens(invites), v));
            }
            out
        },
        Session::InRoom { transport, member } => {
            let mut transport = transport;
            let outcome = room_line_step_with(
                rooms,
                invites,
                &mut transport,
                &member,
                line,
                chances.token_secret,
                now,
            );
            let replies = sealed_replies(outcome.replies);
            (
                Session::InRoom { transport, member },
                SessionStep {
                    replies,
                    broadcast: outcome.broadcast,
                    entered: false,
                    failed: false,
                },
            )
        },
        Session::Over { last } => (Session::Over { last }, quiet(no_replies(), false)),
    }
}

/// The key of a connection, once there is one.
pub open spec fn session_transport(s: SessionView) -> Option<TransportView> {
    match s {
        SessionView::Command { transport } => Some(transport),
        SessionView::InviteReady { transport, .. } => Some(transport),
        SessionView::InRoom { transport, .. } => Some(transport),
        SessionView::Over { last } => last,
        _ => None,
    }
}

/// A connection with another key.
pub open spec fn with_transport(s: SessionView, t: TransportView) -> SessionView {
    match s {
        SessionView::Command { .. } => SessionView::Command { transport: t },
        SessionView::InviteReady { start, .. } => SessionView::InviteReady { transport: t, start },
        SessionView::InRoom { member, .. } => SessionView::InRoom { transport: t, member },
        SessionView::Over { .. } => SessionView::Over { last: Some(t) },
        _ => s,
    }
}

/// Seals a line for the client, once there is a key and unless the line is too long. The client
/// opens it as the next one.
pub fn seal_for_client(session: &mut Session, plain: &str) -> (line: Option<String>)
    requires
        old(session).wf(),
    ensures
        final(session).wf(),
        line is Some <==> session_transport(old(session)@) is Some && sealable(encode_utf8(plain@)),
        match line {
            Some(l) => {
                let t = session_transport(old(session)@)->0;
                &&& l@ == sealed_line(t.send_key, t.send_seq, plain@)
                &&& opened_line(t.send_key, l@) == Some((t.send_seq, plain@))
                &&& final(session)@ == with_transport(
                    old(session)@,
                    TransportView { send_seq: wrapped_next(t.send_seq), ..t },
                )
            },
            None => final(session)@ == old(session)@,
        },
{
    match session {
        Session::Command { transport } => transport_seal_line(transport, plain),
        Session::InviteReady { transport, .. } => transport_seal_line(transport, plain),
        Session::InRoom { transport, .. } => transport_seal_line(transport, plain),
        Session::Over { last: Some(transport) } => transport_seal_line(transport, plain),
        _ => None,
    }
}

/// What a client is told of an event in its room.
pub fn session_event(session: &Session, event: ServerEvent) -> (plain: Option<String>)
    ensures
        opt_text(plain) == match session@ {
            SessionView::InRoom { member, .. } => delivered(event@, member.member_id),
            _ => None,
        },
{
    match session {
        Session::InRoom { member, .. } => delivered_line(event, member.member_id.as_str()),
        _ => None,
    }
}

/// What the end of a connection does to the rooms and the tokens. `closed` says whether the client
/// closed it; otherwise it broke.
pub open spec fn ended(
    s: SessionView,
    m: RoomsView,
    t: TokensView,
    closed: bool,
    now: i64,
) -> (RoomsView, TokensView) {
    match s {
        SessionView::InviteProof { start } => (
            m,
            if closed {
                reset(t, start.token_id_hex, now)
            } else {
                t
            },
        ),
        SessionView::InviteReady { start, .. } => (
            m,
            if closed {
                reset(t, start.token_id_hex, now)
            } else {
                t
            },
        ),
        SessionView::InRoom { member, .. } => (left(m, member.room_id, member.member_id), t),
        _ => (m, t),
    }
}

/// Ends a connection: the line that lists those who remain in the room that the client was in.
pub fn end_session(
    session: &Session,
    rooms: &mut Rooms,
    invites: &mut Invites,
    closed: bool,
    now: i64,
) -> (line: Option<String>)
    requires
        rooms_wf(old(rooms)),
        old(invites).wf(),
    ensures
        rooms_wf(final(rooms)),
        final(invites).wf(),
        (room_views(final(rooms)), tokens(final(invites))) == ended(
            session@,
            room_views(old(rooms)),
            tokens(old(invites)),
            closed,
            now,
        ),
        match line {
            Some(l) => session@ matches SessionView::InRoom { member, .. } && room_views(
                old(rooms),
            ).contains_key(member.room_id) && l@ == member_list_line(
                roster(room_views(old(rooms))[member.room_id].members.remove(member.member_id)),
            ),
            None => !(session@ matches SessionView::InRoom { member, .. } && room_views(
                old(rooms),
            ).contains_key(member.room_id)),
        },
{
    match session {
        Session::InviteProof { start } => {
            if closed {
                reset_invite_to_unused(invites, start.token_id_hex.as_str(), now);
            }
            None
        },
        Session::InviteReady { start, .. } => {
            if closed {
                reset_invite_to_unused(invites, start.token_id_hex.as_str(), now);
            }
            None
        },
        Session::InRoom { member, .. } => {
            let guard = RoomGuard {
                room_id: member.room_id.clone(),
                member_id: member.member_id.clone(),
                nickname: member.nickname.clone(),
            };
            guard.leave(rooms)
        },
        _ => None,
    }
}

/// Nobody gets into a room without a proof: only a client that was asked for a room, or for its
/// name, enters one; and it was asked only after the right proof of the password or of an invite.
pub proof fn law_only_proven_clients_enter(
    s: SessionView,
    m: RoomsView,
    t: TokensView,
    names: Seq<Seq<char>>,
    hash: Seq<u8>,
    line: Seq<char>,
    c: ChancesView,
    now: i64,
)
    ensures
        ({
            let v = session_step(s, m, t, names, hash, line, c, now);
            &&& v.next is InRoom ==> s is InRoom || s is Command || s is InviteReady
            &&& v.next is Command ==> (s matches SessionView::PasswordProof {
                client_nonce,
                server_nonce,
            } && password_proof(line, hash, client_nonce, server_nonce) is Right)
            &&& v.next is InviteReady ==> (s matches SessionView::InviteProof { start }
                && invite_proof(
                line,
                start.token_secret,
                start.token_id,
                start.client_nonce,
                start.server_nonce,
            ) is Right)
        }),
{
}

/// A client that gives a wrong password is told so, and nothing else changes.
pub proof fn law_wrong_password_changes_nothing(
    cn: Seq<u8>,
    sn: Seq<u8>,
    m: RoomsView,
    t: TokensView,
    names: Seq<Seq<char>>,
    hash: Seq<u8>,
    line: Seq<char>,
    c: ChancesView,
    now: i64,
)
    requires
        password_proof(line, hash, cn, sn) == ProofView::Wrong,
    ensures
        ({
            let s = SessionView::PasswordProof { client_nonce: cn, server_nonce: sn };
            let v = session_step(s, m, t, names, hash, line, c, now);
            &&& v.next is Over
            &&& v.rooms == m
            &&& v.tokens == t
            &&& v.replies == seq![ReplyView::Raw("ERR BadAuth"@)]
            &&& v.broadcast is None
        }),
{
}

/// What one says in a room goes to the others, and rooms change only when someone enters.
pub proof fn law_talk_changes_no_room(
    s: SessionView,
    m: RoomsView,
    t: TokensView,
    names: Seq<Seq<char>>,
    hash: Seq<u8>,
    line: Seq<char>,
    c: ChancesView,
    now: i64,
)
    requires
        s is InRoom,
    ensures
        session_step(s, m, t, names, hash, line, c, now).rooms == m,
        session_step(s, m, t, names, hash, line, c, now).next matches SessionView::InRoom {
            member,
            ..
        } && member == s->InRoom_member,
{
}

} // verus!
