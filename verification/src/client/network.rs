//! What a connected client does with the lines that come and go.
use crate::client::input::{
    about_attachment, classified, classify_outgoing_input, input_fault_text, OutgoingPayload,
    PayloadView,
};
use crate::client::keyboard::{notice, QUIT_LINE};
use crate::crypto::aead::sealable;
use crate::crypto::group::{encrypted, GroupCryptoState, GroupView};
use crate::crypto::invite::{
    create_invitation, create_invite_blob, invitation_text, invite_room, payload_bytes,
};
use crate::crypto::messages::{message_tree, SecureMessageType};
use crate::crypto::secure::encrypt_message_at;
use crate::crypto::transport::{
    transport_opened, OpenView, TransportCrypto, TransportOpenResult, TransportView,
};
use crate::outside::clock::unix_timestamp;
use crate::outside::json::json_bytes;
use crate::outside::random::{fresh_id, lower_hex};
use crate::protocol::invite::{
    build_server_invite_request_line, invite_error_parts, invite_request_line, invite_token_parts,
    parse_invite_error_line, parse_invite_token_line,
};
use crate::protocol::line::{build_rmsg_line, is_epoch_control_line, parse_ack_line, tagged_line};
use crate::protocol::local_event::{
    build_local_echo_text_line, build_local_notice_line, echo_text_line, local_event_of,
    local_invite_parts, parse_local_invite_request_line, parse_local_ui_event, LocalInviteRequest,
};
use crate::transport::packet::{
    is_control, should_drop_transport_control_message, transport_open_line, AckRegistry, AckView,
};
use crate::util::codec::base64url_chars;
use crate::util::id_map::{view_map, IdMap};
use crate::util::text::{joined, opt_text, same_text, value_after};
use vstd::prelude::*;
use vstd::utf8::encode_utf8;

verus! {

/// How often a sign of life is sent, in seconds.
pub const HEARTBEAT_SECS: u64 = 30;

/// How often an attachment's pieces are looked after, in milliseconds.
pub const SEND_PUMP_MS: u64 = 5;

/// How long the answer to a request for an invite is waited for, in seconds.
pub const INVITE_WAIT_SECS: u64 = 5;

/// A request for an invite that is waited for.
#[derive(Debug)]
pub struct PendingInvite {
    pub server_addr: String,
    pub blob_key_b64: String,
    pub response: Option<Result<(String, i64), String>>,
}

/// A request for an invite that is waited for.
#[verifier::ext_equal]
pub ghost struct PendingInviteView {
    pub server_addr: Seq<char>,
    pub blob_key_b64: Seq<char>,
    pub response: Option<Result<(Seq<char>, i64), Seq<char>>>,
}

/// The answer to a request for an invite.
pub open spec fn response_view(r: Option<Result<(String, i64), String>>) -> Option<
    Result<(Seq<char>, i64), Seq<char>>,
> {
    match r {
        Some(Ok((token, expires_at))) => Some(Ok((token@, expires_at))),
        Some(Err(reason)) => Some(Err(reason@)),
        None => None,
    }
}

impl View for PendingInvite {
    type V = PendingInviteView;

    open spec fn view(&self) -> PendingInviteView {
        PendingInviteView {
            server_addr: self.server_addr@,
            blob_key_b64: self.blob_key_b64@,
            response: response_view(self.response),
        }
    }
}

/// The requests for invites that are waited for, by their identifiers.
#[derive(Debug)]
pub struct InviteRegistry {
    pub pending: IdMap<PendingInvite>,
}

/// The requests for invites that are waited for.
pub type RequestsView = Map<Seq<char>, PendingInviteView>;

impl View for InviteRegistry {
    type V = Map<Seq<char>, PendingInviteView>;

    open spec fn view(&self) -> Map<Seq<char>, PendingInviteView> {
        view_map(self.pending.map())
    }
}

/// An answer that has come, for a request that is waited for.
pub open spec fn answered(
    m: RequestsView,
    request_id: Seq<char>,
    response: Result<(Seq<char>, i64), Seq<char>>,
) -> RequestsView {
    if m.contains_key(request_id) {
        m.insert(
            request_id,
            PendingInviteView { response: Some(response), ..m[request_id] },
        )
    } else {
        m
    }
}

impl InviteRegistry {
    pub open spec fn wf(&self) -> bool {
        self.pending.wf()
    }

    pub fn new() -> (r: Self)
        ensures
            r.wf(),
            r@ == Map::<Seq<char>, PendingInviteView>::empty(),
    {
        let r = InviteRegistry { pending: IdMap::new() };
        assert(r@ =~= Map::<Seq<char>, PendingInviteView>::empty());
        r
    }

    /// Waits for the answer to a request.
    pub fn register(&mut self, request_id: String, server_addr: String, blob_key_b64: String)
        requires
            old(self).wf(),
        ensures
            final(self).wf(),
            final(self)@ == old(self)@.insert(
                request_id@,
                PendingInviteView {
                    server_addr: server_addr@,
                    blob_key_b64: blob_key_b64@,
                    response: None,
                },
            ),
    {
        let entry = PendingInvite { server_addr, blob_key_b64, response: None };
        let ghost before = self@;
        let ghost v = entry@;
        let ghost id = request_id@;
        self.pending.insert(request_id, entry);
        assert(self@ =~= before.insert(id, v));
    }

    fn resolve(&mut self, request_id: &str, response: Result<(String, i64), String>)
        requires
            old(self).wf(),
        ensures
            final(self).wf(),
            final(self)@ == answered(
                old(self)@,
                request_id@,
                response_view(Some(response))->0,
            ),
    {
        let ghost before = self@;
        match self.pending.remove(request_id) {
            Some(entry) => {
                let next = PendingInvite { response: Some(response), ..entry };
                let ghost v = next@;
                self.pending.insert(request_id.to_owned(), next);
                assert(before.contains_key(request_id@));
                assert(self@ =~= before.insert(request_id@, v));
            },
            None => {
                assert(self@ =~= before);
            },
        }
    }

    /// A token has come.
    pub fn resolve_success(&mut self, request_id: &str, token: String, expires_at: i64)
        requires
            old(self).wf(),
        ensures
            final(self).wf(),
            final(self)@ == answered(old(self)@, request_id@, Ok((token@, expires_at))),
    {
        self.resolve(request_id, Ok((token, expires_at)))
    }

    /// The request was refused.
    pub fn resolve_error(&mut self, request_id: &str, reason: String)
        requires
            old(self).wf(),
        ensures
            final(self).wf(),
            final(self)@ == answered(old(self)@, request_id@, Err(reason@)),
    {
        self.resolve(request_id, Err(reason))
    }

    /// Whether an answer has come.
    pub fn has_response(&self, request_id: &str) -> (yes: bool)
        requires
            self.wf(),
        ensures
            yes == (self@.contains_key(request_id@) && self@[request_id@].response is Some),
    {
        match self.pending.get(request_id) {
            Some(entry) => match &entry.response {
                Some(Ok((_, _))) => true,
                Some(Err(_)) => true,
                None => false,
            },
            None => false,
        }
    }

    /// The answer to a request, which is no longer waited for.
    pub fn take_result(&mut self, request_id: &str) -> (out: Option<
        (String, String, Result<(String, i64), String>),
    >)
        requires
            old(self).wf(),
        ensures
            final(self).wf(),
            final(self)@ == old(self)@.remove(request_id@),
            match out {
                Some((server_addr, blob_key_b64, response)) => old(self)@.contains_key(request_id@)
                    && old(self)@[request_id@] == (PendingInviteView {
                    server_addr: server_addr@,
                    blob_key_b64: blob_key_b64@,
                    response: response_view(Some(response)),
                }),
                None => !(old(self)@.contains_key(request_id@)
                    && old(self)@[request_id@].response is Some),
            },
    {
        let ghost before = self@;
        let taken = self.pending.remove(request_id);
        assert(self@ =~= before.remove(request_id@));
        match taken {
            Some(entry) => match entry.response {
                Some(response) => Some((entry.server_addr, entry.blob_key_b64, response)),
                None => None,
            },
            None => None,
        }
    }

    /// A request is no longer waited for.
    pub fn drop_request(&mut self, request_id: &str)
        requires
            old(self).wf(),
        ensures
            final(self).wf(),
            final(self)@ == old(self)@.remove(request_id@),
    {
        let ghost before = self@;
        self.pending.remove(request_id);
        assert(self@ =~= before.remove(request_id@));
    }
}

impl Default for InviteRegistry {
    fn default() -> (r: Self)
        ensures
            r.wf(),
            r@ == Map::<Seq<char>, PendingInviteView>::empty(),
    {
        InviteRegistry::new()
    }
}

/// What becomes of a line from the server: the acknowledgements, the requests for invites, and
/// the line that is shown.
pub open spec fn routed(a: AckView, m: RequestsView, plain: Seq<char>) -> (
    AckView,
    RequestsView,
    Option<Seq<char>>,
) {
    if is_control(plain) {
        (a, m, None)
    } else if let Some(packet_id) = value_after(plain, "/ACK "@) {
        (AckView { acked: a.acked.insert(packet_id), ..a }, m, None)
    } else if let Some((request_id, token, expires_at)) = invite_token_parts(plain) {
        (a, answered(m, request_id, Ok((token, expires_at))), None)
    } else if let Some((request_id, reason)) = invite_error_parts(plain) {
        (a, answered(m, request_id, Err(reason)), None)
    } else {
        (a, m, Some(plain))
    }
}

/// What a line from the connection does: one that does not open, or that came before, does
/// nothing.
pub open spec fn received(t: TransportView, a: AckView, m: RequestsView, line: Seq<char>) -> (
    AckView,
    RequestsView,
    Option<Seq<char>>,
) {
    match transport_opened(t, line).0 {
        Some(OpenView::Fresh(plain)) => routed(a, m, plain),
        _ => (a, m, None),
    }
}

fn route(acks: &mut AckRegistry, invites: &mut InviteRegistry, plain: String) -> (shown: Option<
    String,
>)
    requires
        old(acks).wf(),
        old(invites).wf(),
    ensures
        final(acks).wf(),
        final(invites).wf(),
        (final(acks)@, final(invites)@, opt_text(shown)) == routed(
            old(acks)@,
            old(invites)@,
            plain@,
        ),
{
    if should_drop_transport_control_message(plain.as_str()) {
        return None;
    }
    match parse_ack_line(plain.as_str()) {
        Some(packet_id) => {
            acks.mark_acked(packet_id);
            return None;
        },
        None => {},
    }
    match parse_invite_token_line(plain.as_str()) {
        Some((request_id, token, expires_at)) => {
            invites.resolve_success(request_id.as_str(), token, expires_at);
            return None;
        },
        None => {},
    }
    match parse_invite_error_line(plain.as_str()) {
        Some((request_id, reason)) => {
            invites.resolve_error(request_id.as_str(), reason);
            return None;
        },
        None => {},
    }
    Some(plain)
}

/// Takes a line from the connection; gives the line that is shown, if any.
pub fn incoming_line(
    transport: &mut TransportCrypto,
    acks: &mut AckRegistry,
    invites: &mut InviteRegistry,
    line: &str,
) -> (shown: Option<String>)
    requires
        old(transport).wf(),
        old(acks).wf(),
        old(invites).wf(),
    ensures
        final(transport).wf(),
        final(acks).wf(),
        final(invites).wf(),
        final(transport)@ == transport_opened(old(transport)@, line@).1,
        (final(acks)@, final(invites)@, opt_text(shown)) == received(
            old(transport)@,
            old(acks)@,
            old(invites)@,
            line@,
        ),
{
    match transport_open_line(transport, line) {
        Some(TransportOpenResult::Fresh(plain)) => route(acks, invites, plain),
        _ => None,
    }
}

/// A line that comes again shows nothing and changes nothing.
pub proof fn law_repeated_line_shows_nothing(
    t: TransportView,
    a: AckView,
    m: RequestsView,
    line: Seq<char>,
)
    requires
        !(transport_opened(t, line).0 matches Some(OpenView::Fresh(_))),
    ensures
        received(t, a, m, line) == (a, m, None::<Seq<char>>),
{
}

/// What a line that goes out asks for.
#[derive(Debug)]
pub enum Outgoing {
    /// The connection is to be closed.
    Quit,
    /// A line is shown here and sent nowhere.
    Show(String),
    /// An invite is to be requested.
    Invite(LocalInviteRequest),
    /// A packet is to be sent; once it is acknowledged, a line is shown.
    Send { packet_id: String, payload: String, echo: Option<String> },
    /// An attachment is to be sent, after those that wait already; a line is shown.
    Queue { path: String, shown: String },
}

/// What a line that goes out asks for.
pub ghost enum OutgoingView {
    Quit,
    Show(Seq<char>),
    Invite(Seq<char>, Seq<char>, Seq<char>, Seq<char>, Seq<char>),
    Send { packet_id: Seq<char>, payload: Seq<char>, echo: Option<Seq<char>> },
    Queue { path: Seq<char>, shown: Seq<char> },
}

impl View for Outgoing {
    type V = OutgoingView;

    open spec fn view(&self) -> OutgoingView {
        match self {
            Outgoing::Quit => OutgoingView::Quit,
            Outgoing::Show(line) => OutgoingView::Show(line@),
            Outgoing::Invite(r) => OutgoingView::Invite(
                r.request_id@,
                r.server_addr@,
                r.room_id@,
                r.room_credential@,
                r.owner_capability@,
            ),
            Outgoing::Send { packet_id, payload, echo } => OutgoingView::Send {
                packet_id: packet_id@,
                payload: payload@,
                echo: opt_text(*echo),
            },
            Outgoing::Queue { path, shown } => OutgoingView::Queue { path: path@, shown: shown@ },
        }
    }
}

/// What is shown when a line could not be sent.
pub open spec fn send_failed(reason: Seq<char>) -> Seq<char> {
    notice("发送失败: "@ + reason)
}

/// What a text that goes out asks for, and the group that results: a line about the group's keys
/// goes as it is, any other is encrypted for the group.
pub open spec fn text_sent(g: GroupView, plain: Seq<char>, id: Seq<char>, now: i64) -> (
    GroupView,
    OutgoingView,
) {
    if "/KEY_ANNOUNCE "@.is_prefix_of(plain) || "/EPOCH_COMMIT "@.is_prefix_of(plain) {
        (g, OutgoingView::Send { packet_id: "msg-"@ + id, payload: plain, echo: None })
    } else {
        let (out, next) = encrypted(g, SecureMessageType::Text, encode_utf8(plain), now);
        match out {
            Ok(m) => (
                next,
                OutgoingView::Send {
                    packet_id: "msg-"@ + id,
                    payload: tagged_line("/RMSG"@, json_bytes(message_tree(m))),
                    echo: Some("/LOCALECHO "@ + echo_text_line(plain)),
                },
            ),
            Err(e) => (next, OutgoingView::Show(send_failed(e.message_text()))),
        }
    }
}

/// What a line that goes out asks for, and the group that results. `is_file` says whether the path
/// that the line may name is that of a file.
pub open spec fn outgoing(
    g: GroupView,
    text: Seq<char>,
    is_file: bool,
    id: Seq<char>,
    now: i64,
) -> (
    GroupView,
    OutgoingView,
) {
    if text == QUIT_LINE@ {
        (g, OutgoingView::Quit)
    } else if local_event_of(text) is Some {
        (g, OutgoingView::Show(text))
    } else if let Some((request_id, server, room, credential, capability)) = local_invite_parts(
        text,
    ) {
        (g, OutgoingView::Invite(request_id, server, room, credential, capability))
    } else {
        match classified(text, about_attachment(text), is_file) {
            Err(fault) => (g, OutgoingView::Show(send_failed(input_fault_text(fault)))),
            Ok(PayloadView::AttachmentPath(path)) => (
                g,
                OutgoingView::Queue { path, shown: notice("附件已加入发送队列"@) },
            ),
            Ok(PayloadView::Text(plain)) => text_sent(g, plain, id, now),
        }
    }
}

/// The line that is shown when a line could not be sent.
pub fn send_failed_line(reason: &str) -> (line: String)
    ensures
        line@ == send_failed(reason@),
{
    let text = joined("发送失败: ", reason);
    build_local_notice_line(text.as_str())
}

/// The line that is shown when the connection is lost.
pub fn disconnected_line(reason: &str) -> (line: String)
    ensures
        line@ == notice("连接断开: "@ + reason@),
{
    let text = joined("连接断开: ", reason);
    build_local_notice_line(text.as_str())
}

fn send_text(group: &mut GroupCryptoState, plain: String, id: &str, now: i64) -> (out: Outgoing)
    requires
        old(group).wf(),
    ensures
        final(group).wf(),
        (final(group)@, out@) == text_sent(old(group)@, plain@, id@, now),
{
    let packet_id = joined("msg-", id);
    if is_epoch_control_line(plain.as_str()) {
        return Outgoing::Send { packet_id, payload: plain, echo: None };
    }
    let made = encrypt_message_at(
        group,
        SecureMessageType::Text,
        plain.as_str().as_bytes(),
        now,
    );
    match made {
        Ok(message) => {
            match build_rmsg_line(&message) {
                Ok(payload) => Outgoing::Send {
                    packet_id,
                    payload,
                    echo: Some(build_local_echo_text_line(plain.as_str())),
                },
                Err(_) => {
                    assert(false);
                    Outgoing::Quit
                },
            }
        },
        Err(e) => Outgoing::Show(send_failed_line(e.message())),
    }
}

/// Takes a line that goes out.
pub fn outgoing_line(
    group: &mut GroupCryptoState,
    text: &str,
    is_file: bool,
    id: &str,
    now: i64,
) -> (out: Outgoing)
    requires
        old(group).wf(),
    ensures
        final(group).wf(),
        (final(group)@, out@) == outgoing(old(group)@, text@, is_file, id@, now),
{
    if same_text(text, QUIT_LINE) {
        return Outgoing::Quit;
    }
    if parse_local_ui_event(text).is_some() {
        return Outgoing::Show(text.to_owned());
    }
    match parse_local_invite_request_line(text) {
        Some(request) => {
            return Outgoing::Invite(request);
        },
        None => {},
    }
    match classify_outgoing_input(text, is_file) {
        Err(fault) => Outgoing::Show(send_failed_line(fault.message().as_str())),
        Ok(OutgoingPayload::AttachmentPath(path)) => Outgoing::Queue {
            path,
            shown: build_local_notice_line("附件已加入发送队列"),
        },
        Ok(OutgoingPayload::Text(plain)) => send_text(group, plain, id, now),
    }
}

/// Takes a line that goes out now, under a fresh identifier.
pub fn outgoing_line_now(group: &mut GroupCryptoState, text: &str, is_file: bool) -> (out: Outgoing)
    requires
        old(group).wf(),
    ensures
        final(group).wf(),
        exists|id: Seq<char>, now: i64|
            id.len() == 32 && lower_hex(id) && (final(group)@, out@) == #[trigger] outgoing(
                old(group)@,
                text@,
                is_file,
                id,
                now,
            ),
{
    let id = fresh_id();
    let now = unix_timestamp();
    outgoing_line(group, text, is_file, id.as_str(), now)
}

/// Why there is no invitation.
#[derive(Debug)]
pub enum InviteFailure {
    /// The blob could not be made.
    NoBlob,
    TimedOut,
    Missing,
    Rejected(String),
}

/// Why there is no invitation.
pub ghost enum InviteFailureView {
    NoBlob,
    TimedOut,
    Missing,
    Rejected(Seq<char>),
}

impl View for InviteFailure {
    type V = InviteFailureView;

    open spec fn view(&self) -> InviteFailureView {
        match self {
            InviteFailure::NoBlob => InviteFailureView::NoBlob,
            InviteFailure::TimedOut => InviteFailureView::TimedOut,
            InviteFailure::Missing => InviteFailureView::Missing,
            InviteFailure::Rejected(reason) => InviteFailureView::Rejected(reason@),
        }
    }
}

/// What the user is told.
pub open spec fn invite_failure_text(f: InviteFailureView) -> Seq<char> {
    match f {
        InviteFailureView::NoBlob => "Failed to encrypt invite blob"@,
        InviteFailureView::TimedOut => "Invite token timeout"@,
        InviteFailureView::Missing => "Invite response missing"@,
        InviteFailureView::Rejected(reason) => "Invite request rejected: "@ + reason,
    }
}

impl InviteFailure {
    pub fn message(&self) -> (text: String)
        ensures
            text@ == invite_failure_text(self@),
    {
        match self {
            InviteFailure::NoBlob => "Failed to encrypt invite blob".to_owned(),
            InviteFailure::TimedOut => "Invite token timeout".to_owned(),
            InviteFailure::Missing => "Invite response missing".to_owned(),
            InviteFailure::Rejected(reason) => joined("Invite request rejected: ", reason.as_str()),
        }
    }
}

/// Begins a request for an invite with a given blob and key: the line for the server. From now on
/// the answer is waited for.
pub fn begin_invite_request_with(
    invites: &mut InviteRegistry,
    request: &LocalInviteRequest,
    blob_b64: &str,
    blob_key_b64: String,
) -> (line: String)
    requires
        old(invites).wf(),
    ensures
        final(invites).wf(),
        final(invites)@ == old(invites)@.insert(
            request.request_id@,
            PendingInviteView {
                server_addr: request.server_addr@,
                blob_key_b64: blob_key_b64@,
                response: None,
            },
        ),
        line@ == invite_request_line(
            request.request_id@,
            request.room_id@,
            request.owner_capability@,
            blob_b64@,
        ),
{
    invites.register(request.request_id.clone(), request.server_addr.clone(), blob_key_b64);
    build_server_invite_request_line(
        request.request_id.as_str(),
        request.room_id.as_str(),
        request.owner_capability.as_str(),
        blob_b64,
    )
}

/// Whether a line asks the server for an invite whose blob gives the room to the holder of the
/// key that is kept here.
pub open spec fn requested(
    before: RequestsView,
    after: RequestsView,
    request: LocalInviteRequest,
    line: Seq<char>,
    blob: Seq<char>,
    key_text: Seq<char>,
) -> bool {
    &&& after == before.insert(
        request.request_id@,
        PendingInviteView {
            server_addr: request.server_addr@,
            blob_key_b64: key_text,
            response: None,
        },
    )
    &&& line == invite_request_line(
        request.request_id@,
        request.room_id@,
        request.owner_capability@,
        blob,
    )
    &&& base64url_chars(blob)
    &&& base64url_chars(key_text)
    &&& invite_room(blob, key_text) == Some((request.room_id@, request.room_credential@))
}

/// Whether a line asks the server for an invite to the room, under some blob and key.
pub open spec fn invite_requested(
    before: RequestsView,
    after: RequestsView,
    request: LocalInviteRequest,
    line: Seq<char>,
) -> bool {
    exists|blob: Seq<char>, key_text: Seq<char>| #[trigger]
        requested(before, after, request, line, blob, key_text)
}

/// Begins a request for an invite: the line for the server. The blob in it gives the room to the
/// holder of the key, which stays here.
pub fn begin_invite_request(
    invites: &mut InviteRegistry,
    request: &LocalInviteRequest,
) -> (out: Result<
    String,
    InviteFailure,
>)
    requires
        old(invites).wf(),
    ensures
        final(invites).wf(),
        out is Ok <==> sealable(payload_bytes(request.room_id@, request.room_credential@)),
        match out {
            Ok(line) => invite_requested(old(invites)@, final(invites)@, *request, line@),
            Err(e) => e@ == InviteFailureView::NoBlob && final(invites)@ == old(invites)@,
        },
{
    match create_invite_blob(request.room_id.as_str(), request.room_credential.as_str()) {
        Ok((blob_b64, blob_key_b64)) => {
            let ghost key_text = blob_key_b64@;
            let line = begin_invite_request_with(
                invites,
                request,
                blob_b64.as_str(),
                blob_key_b64,
            );
            assert(requested(
                old(invites)@,
                invites@,
                *request,
                line@,
                blob_b64@,
                key_text,
            ));
            assert(invite_requested(old(invites)@, invites@, *request, line@));
            Ok(line)
        },
        Err(_) => Err(InviteFailure::NoBlob),
    }
}

/// The invitation that comes of a request, or why there is none. `in_time` says whether an answer
/// came before the wait was over.
pub open spec fn invite_result(m: RequestsView, request_id: Seq<char>, in_time: bool) -> Result<
    Seq<char>,
    InviteFailureView,
> {
    if !in_time {
        Err(InviteFailureView::TimedOut)
    } else if !(m.contains_key(request_id) && m[request_id].response is Some) {
        Err(InviteFailureView::Missing)
    } else {
        match m[request_id].response->0 {
            Ok((token, _)) => Ok(
                invitation_text(m[request_id].server_addr, token, m[request_id].blob_key_b64),
            ),
            Err(reason) => Err(InviteFailureView::Rejected(reason)),
        }
    }
}

/// Ends a request for an invite, which is no longer waited for: the line that shows the
/// invitation.
pub fn finish_invite_request(
    invites: &mut InviteRegistry,
    request_id: &str,
    in_time: bool,
) -> (out: Result<
    String,
    InviteFailure,
>)
    requires
        old(invites).wf(),
    ensures
        final(invites).wf(),
        final(invites)@ == old(invites)@.remove(request_id@),
        match (out, invite_result(old(invites)@, request_id@, in_time)) {
            (Ok(line), Ok(invitation)) => line@ == notice(invitation),
            (Err(e), Err(v)) => e@ == v,
            _ => false,
        },
{
    if !in_time {
        invites.drop_request(request_id);
        return Err(InviteFailure::TimedOut);
    }
    match invites.take_result(request_id) {
        None => Err(InviteFailure::Missing),
        Some((server_addr, blob_key_b64, response)) => match response {
            Ok((token, _)) => {
                match create_invitation(
                    server_addr.as_str(),
                    token.as_str(),
                    blob_key_b64.as_str(),
                ) {
                    Ok(invitation) => Ok(build_local_notice_line(invitation.as_str())),
                    Err(_) => {
                        assert(false);
                        Err(InviteFailure::Missing)
                    },
                }
            },
            Err(reason) => Err(InviteFailure::Rejected(reason)),
        },
    }
}

/// A token that the server hands out for a request becomes an invitation with the key that was
/// kept; the request is then over.
pub proof fn law_token_becomes_invitation(
    m: RequestsView,
    request_id: Seq<char>,
    token: Seq<char>,
    expires_at: i64,
)
    requires
        m.contains_key(request_id),
    ensures
        invite_result(answered(m, request_id, Ok((token, expires_at))), request_id, true) == Ok::<
            Seq<char>,
            InviteFailureView,
        >(invitation_text(m[request_id].server_addr, token, m[request_id].blob_key_b64)),
{
}

} // verus!
