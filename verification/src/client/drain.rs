//! Taking in the lines of the connection, one at a time.
use crate::attachments::receiver::{
    append_encrypted_chunk_with, appended_encrypted, event_views, receive_result_is, received_as,
    register_attachment_with, registered, AttachmentReceiveEvent, IncomingMap, ReceiveError,
    ReceiveEventView, ReceiveFault,
};
use crate::attachments::store::{
    fresh_keys_shape, fresh_store_keys, AttachmentStore, KeysView, StoreKeys, StoreView,
};
use crate::client::receiver::{
    attachment_result_to_message, commit_views, event_shown, format_text_message,
    handle_local_ui_event, is_unframed_control, message_is, message_views, push_message, pushed,
    queue_pending_epoch_commit, queued, receive_shown, retried, retry_pending_epoch_commits,
    secret_views, should_drop_unframed_control_line, text_line, ChatMessage, ChatMessageView,
    ReceiverState, TransferUiState, TransfersView, DRAIN_BATCH_LIMIT, PENDING_EPOCH_COMMIT_LIMIT,
};
use crate::crypto::group::{
    announced, committed, decrypted, pair_views, with_members, GroupCryptoState, GroupView,
};
use crate::crypto::messages::CommitView;
use crate::crypto::secure::decrypt_message_at;
use crate::outside::clock::{is_time_of_day, local_time_of_day, unix_timestamp};
use crate::outside::random::{fresh_id, lower_hex, random_bytes32};
use crate::outside::text::string_from_utf8;
use crate::protocol::attachment::{
    frame_of, parse_attachment_frame, AttachmentFrame, ChunkView, EncryptedAttachmentChunk,
    FrameView,
};
use crate::protocol::line::{
    display_parts, epoch_commit_of_line, key_announce_of_line, parse_display_body,
    parse_epoch_commit_line, parse_key_announce_line, parse_rmsg_line, rmsg_of_line,
};
use crate::protocol::local_event::{local_event_of, parse_local_ui_event};
use crate::protocol::member::{
    identity_views, listed_members, parse_member_list_line, IdentityView, MemberIdentity,
};
use crate::util::path::{lemma_slash_names, path_rule, slash_names, PathNames};
use crate::util::text::{opt_text, same_text, starts_with, views};
use vstd::prelude::*;
use vstd::utf8::{decode_utf8, valid_utf8};

verus! {

/// All that the lines of the connection change.
#[derive(Debug)]
pub struct ChatState {
    pub my_name: String,
    pub messages: Vec<ChatMessage>,
    pub members: Vec<MemberIdentity>,
    pub group: GroupCryptoState,
    pub store: AttachmentStore,
    pub receiver: ReceiverState,
    pub transfers: TransferUiState,
    /// An attachment that is complete and is shown once it has been written.
    pub awaited: Option<AwaitedWrite>,
}

/// An attachment that is complete and is shown once it has been written.
#[derive(Debug)]
pub struct AwaitedWrite {
    pub events: Vec<AttachmentReceiveEvent>,
    /// When it was complete, as it is shown.
    pub hms: String,
    /// Whether it came from this user.
    pub from_me: bool,
}

/// An attachment that is complete and is shown once it has been written.
#[verifier::ext_equal]
pub ghost struct AwaitedView {
    pub events: Seq<ReceiveEventView>,
    pub hms: Seq<char>,
    pub from_me: bool,
}

impl View for AwaitedWrite {
    type V = AwaitedView;

    open spec fn view(&self) -> AwaitedView {
        AwaitedView { events: event_views(self.events@), hms: self.hms@, from_me: self.from_me }
    }
}

/// All that the lines of the connection change.
#[verifier::ext_equal]
pub ghost struct ChatView {
    pub my_name: Seq<char>,
    pub messages: Seq<ChatMessageView>,
    pub members: Seq<IdentityView>,
    pub group: GroupView,
    pub store: StoreView,
    pub incoming: IncomingMap,
    pub commits: Seq<CommitView>,
    pub transfers: TransfersView,
    pub awaited: Option<AwaitedView>,
}

impl View for ChatState {
    type V = ChatView;

    open spec fn view(&self) -> ChatView {
        ChatView {
            my_name: self.my_name@,
            messages: message_views(self.messages@),
            members: identity_views(self.members@),
            group: self.group@,
            store: self.store@,
            incoming: self.receiver.attachments@,
            commits: commit_views(self.receiver.pending_epoch_commits@),
            transfers: self.transfers@,
            awaited: match self.awaited {
                Some(a) => Some(a@),
                None => None,
            },
        }
    }
}

impl ChatState {
    pub open spec fn wf(&self) -> bool {
        self.group.wf() && self.store.wf() && self.receiver.wf() && self.transfers.wf()
    }

    /// A conversation that has not begun.
    pub fn new(my_name: String, group: GroupCryptoState, store: AttachmentStore) -> (state: Self)
        requires
            group.wf(),
            store.wf(),
        ensures
            state.wf(),
            state@ == (ChatView {
                my_name: my_name@,
                messages: Seq::empty(),
                members: Seq::empty(),
                group: group@,
                store: store@,
                incoming: Map::empty(),
                commits: Seq::empty(),
                transfers: TransfersView { order: Seq::empty(), transfers: Map::empty() },
                awaited: None,
            }),
    {
        let state = ChatState {
            my_name,
            messages: Vec::new(),
            members: Vec::new(),
            group,
            store,
            receiver: ReceiverState::new(),
            transfers: TransferUiState::new(),
            awaited: None,
        };
        assert(state@.messages =~= Seq::<ChatMessageView>::empty());
        assert(state@.members =~= Seq::<IdentityView>::empty());
        assert(state@.commits =~= Seq::<CommitView>::empty());
        state
    }

    /// Whether an attachment is to be written before more lines are taken in.
    pub fn awaits_write(&self) -> (yes: bool)
        ensures
            yes == (self@.awaited is Some),
    {
        self.awaited.is_some()
    }
}

/// What a line needs beside its text: the time, and random values.
#[derive(Debug)]
pub struct DrainEnv {
    /// The time of day as it is shown.
    pub hms: String,
    /// The time in seconds.
    pub now: i64,
    /// A new key for each commit that may be applied.
    pub commit_secrets: Vec<[u8; 32]>,
    /// The random parts of an attachment that may be stored.
    pub keys: StoreKeys,
    /// An identifier for an attachment without a name.
    pub name_id: String,
}

/// What a line needs beside its text.
pub ghost struct EnvView {
    pub hms: Seq<char>,
    pub now: i64,
    pub secrets: Seq<Seq<u8>>,
    pub keys: KeysView,
    pub name_id: Seq<char>,
    /// What this machine takes for the names of files.
    pub names: PathNames,
}

/// What a line needs beside its text, with other names of files.
pub open spec fn with_names(e: EnvView, names: PathNames) -> EnvView {
    EnvView { names, ..e }
}

impl View for DrainEnv {
    type V = EnvView;

    open spec fn view(&self) -> EnvView {
        EnvView {
            hms: self.hms@,
            now: self.now,
            secrets: secret_views(self.commit_secrets@),
            keys: self.keys@,
            name_id: self.name_id@,
            names: slash_names(),
        }
    }
}

/// What holds of every time and of all fresh random values.
pub open spec fn may_be_fresh(e: EnvView) -> bool {
    &&& is_time_of_day(e.hms)
    &&& e.secrets.len() == PENDING_EPOCH_COMMIT_LIMIT
    &&& fresh_keys_shape(e.keys)
    &&& e.name_id.len() == 32
    &&& lower_hex(e.name_id)
    &&& path_rule(e.names)
}

impl DrainEnv {
    /// There is a key for every commit that may wait.
    pub open spec fn wf(&self) -> bool {
        self.commit_secrets@.len() >= PENDING_EPOCH_COMMIT_LIMIT
    }

    /// The time, and fresh random values.
    pub fn fresh() -> (env: Self)
        ensures
            env.wf(),
            may_be_fresh(env@),
    {
        let mut commit_secrets: Vec<[u8; 32]> = Vec::new();
        let mut i: usize = 0;
        while i < PENDING_EPOCH_COMMIT_LIMIT
            invariant
                i <= PENDING_EPOCH_COMMIT_LIMIT,
                commit_secrets@.len() == i,
            decreases PENDING_EPOCH_COMMIT_LIMIT - i,
        {
            commit_secrets.push(random_bytes32());
            i += 1;
        }
        proof {
            lemma_slash_names();
        }
        DrainEnv {
            hms: local_time_of_day(),
            now: unix_timestamp(),
            commit_secrets,
            keys: fresh_store_keys(),
            name_id: fresh_id(),
        }
    }
}

/// What a line causes beside the changes to the conversation.
#[derive(Debug, Clone, Copy, PartialEq, Eq, Structural)]
pub struct DrainOutcome {
    /// The list of members has changed.
    pub member_list_changed: bool,
    /// The group may need a key or a commit from here.
    pub phase2_action_needed: bool,
    /// The user is to be notified.
    pub notify: bool,
    /// The line came from this machine.
    pub local: bool,
}

/// Nothing but the changes to the conversation.
pub open spec fn quiet() -> DrainOutcome {
    DrainOutcome {
        member_list_changed: false,
        phase2_action_needed: false,
        notify: false,
        local: false,
    }
}

/// The identifiers and nicknames of members.
pub open spec fn member_pairs(members: Seq<IdentityView>) -> Seq<(Seq<char>, Seq<char>)> {
    members.map_values(|m: IdentityView| (m.member_id, m.nickname))
}

/// The conversation with a message, if there is one.
pub open spec fn with_message(c: ChatView, m: Option<ChatMessageView>) -> ChatView {
    match m {
        Some(m) => ChatView { messages: pushed(c.messages, m), ..c },
        None => c,
    }
}

/// What a list of members does.
pub open spec fn members_taken(c: ChatView, members: Seq<IdentityView>, e: EnvView) -> ChatView {
    let r = retried(with_members(c.group, member_pairs(members)), c.commits, e.now, e.secrets);
    ChatView { members, group: r.0, commits: r.1, ..c }
}

/// Whether events tell of an attachment that is complete.
pub open spec fn completes(events: Seq<ReceiveEventView>) -> bool {
    events.len() > 0 && events.last() is Complete
}

/// What the outcome of a line about an attachment does, and whether the user is to be notified. An
/// attachment that is complete has to be written first.
pub open spec fn attachment_taken(
    c: ChatView,
    r: (IncomingMap, StoreView, Result<Seq<ReceiveEventView>, ReceiveFault>),
    hms: Seq<char>,
    from_me: bool,
) -> (ChatView, bool) {
    let next = ChatView { incoming: r.0, store: r.1, ..c };
    match r.2 {
        Ok(events) => if completes(events) {
            (
                ChatView { awaited: Some(AwaitedView { events, hms, from_me }), ..next },
                false,
            )
        } else {
            told(next, r.2, hms, from_me)
        },
        Err(_) => told(next, r.2, hms, from_me),
    }
}

/// What is shown of the outcome of a line about an attachment, and whether the user is to be
/// notified.
pub open spec fn told(
    c: ChatView,
    result: Result<Seq<ReceiveEventView>, ReceiveFault>,
    hms: Seq<char>,
    from_me: bool,
) -> (ChatView, bool) {
    let s = receive_shown(c.transfers, result, hms);
    (with_message(ChatView { transfers: s.0, ..c }, s.1), s.1 is Some && !from_me)
}

/// What the writing of the awaited attachment does, and whether the user is to be notified: it is
/// shown, or, with the reason why it could not be written, it is not and the reason is said.
pub open spec fn settled(c: ChatView, failure: Option<Seq<char>>) -> (ChatView, bool) {
    match c.awaited {
        None => (c, false),
        Some(a) => told(
            ChatView { awaited: None, ..c },
            match failure {
                None => Ok(a.events),
                Some(reason) => Err(ReceiveFault::NotWritten(reason)),
            },
            a.hms,
            a.from_me,
        ),
    }
}

/// What is said in the group, and by whom: the text of a message that opens.
pub open spec fn heard(g: GroupView, body: Seq<char>, outer: Seq<char>, now: i64) -> (
    GroupView,
    Option<(Seq<char>, Seq<char>)>,
) {
    match rmsg_of_line(body) {
        None => (g, None),
        Some(message) => {
            let d = decrypted(g, message, now);
            let sender = if d.1.members.contains_key(message.header.sender_id) {
                d.1.members[message.header.sender_id].nickname
            } else {
                outer
            };
            (
                d.1,
                match d.0 {
                    Ok(plaintext) => if valid_utf8(plaintext) {
                        Some((sender, decode_utf8(plaintext)))
                    } else {
                        None
                    },
                    Err(_) => None,
                },
            )
        },
    }
}

/// What something said does, and whether the user is to be notified: an attachment is announced or a
/// piece of it comes, or a text is shown.
pub open spec fn said(
    c: ChatView,
    sender: Seq<char>,
    body: Seq<char>,
    e: EnvView,
) -> (ChatView, bool) {
    let from_me = sender == c.my_name;
    match frame_of(body) {
        Some(FrameView::Meta(meta)) => attachment_taken(
            c,
            registered(c.incoming, c.store, sender, meta, e.keys, e.name_id, e.names),
            e.hms,
            from_me,
        ),
        Some(FrameView::EncryptedChunk(chunk)) => chunk_taken(c, chunk, e, from_me),
        None => (
            with_message(c, Some(ChatMessageView::Text(text_line(sender, body, e.hms)))),
            !from_me,
        ),
    }
}

/// What a line from another member or from the server does.
pub open spec fn remote_taken(
    c: ChatView,
    line: Seq<char>,
    e: EnvView,
) -> (ChatView, DrainOutcome) {
    let (outer, body) = display_parts(line);
    if let Some(announce) = key_announce_of_line(body) {
        let a = announced(c.group, announce);
        let r = retried(a.1, c.commits, e.now, e.secrets);
        (
            ChatView { group: r.0, commits: r.1, ..c },
            DrainOutcome {
                phase2_action_needed: a.0 == Ok::<bool, crate::crypto::error::CryptoError>(true)
                    || r.2,
                ..quiet()
            },
        )
    } else if let Some(commit) = epoch_commit_of_line(body) {
        let r = committed(c.group, commit, e.now, e.secrets[0]);
        (
            ChatView {
                group: r.1,
                commits: if r.0 is Err {
                    queued(c.commits, commit)
                } else {
                    c.commits
                },
                ..c
            },
            DrainOutcome {
                phase2_action_needed: r.0 == Ok::<bool, crate::crypto::error::CryptoError>(true),
                ..quiet()
            },
        )
    } else if let Some(FrameView::EncryptedChunk(chunk)) = frame_of(body) {
        let t = chunk_taken(c, chunk, e, outer == c.my_name);
        (t.0, DrainOutcome { notify: t.1, ..quiet() })
    } else {
        let h = heard(c.group, body, outer, e.now);
        let c1 = ChatView { group: h.0, ..c };
        match h.1 {
            Some((sender, text)) => {
                let s = said(c1, sender, text, e);
                (s.0, DrainOutcome { notify: s.1, ..quiet() })
            },
            None => if !"/RMSG "@.is_prefix_of(body) && "⚡ "@.is_prefix_of(line) {
                let s = said(c1, "System"@, line, e);
                (s.0, DrainOutcome { notify: s.1, ..quiet() })
            } else {
                (c1, quiet())
            },
        }
    }
}

/// What a line does.
pub open spec fn line_taken(c: ChatView, line: Seq<char>, e: EnvView) -> (ChatView, DrainOutcome) {
    if is_unframed_control(line) {
        (c, quiet())
    } else if let Some(members) = listed_members(line) {
        (
            members_taken(c, members, e),
            DrainOutcome { member_list_changed: true, phase2_action_needed: true, ..quiet() },
        )
    } else if let Some(event) = local_event_of(line) {
        let s = event_shown(c.transfers, event, c.my_name, e.hms);
        (
            with_message(ChatView { transfers: s.0, ..c }, s.1),
            DrainOutcome { local: true, ..quiet() },
        )
    } else {
        remote_taken(c, line, e)
    }
}

fn show(state: &mut ChatState, message: Option<ChatMessage>) -> (shown: bool)
    requires
        old(state).wf(),
    ensures
        final(state).wf(),
        shown == message is Some,
        forall|v: Option<ChatMessageView>| #[trigger]
            message_is(message, v) ==> final(state)@ == with_message(old(state)@, v),
{
    match message {
        Some(m) => {
            push_message(&mut state.messages, m);
            true
        },
        None => false,
    }
}

fn tell(
    state: &mut ChatState,
    result: Result<Vec<AttachmentReceiveEvent>, ReceiveError>,
    hms: &str,
    from_me: bool,
) -> (notify: bool)
    requires
        old(state).wf(),
    ensures
        final(state).wf(),
        forall|v: Result<Seq<ReceiveEventView>, ReceiveFault>| #[trigger]
            receive_result_is(result, v) ==> (final(state)@, notify) == told(
                old(state)@,
                v,
                hms@,
                from_me,
            ),
{
    let ghost c = state@;
    let message = attachment_result_to_message(result, &mut state.transfers, hms);
    let ghost mid = state@;
    let shown = show(state, message);
    proof {
        assert forall|v: Result<Seq<ReceiveEventView>, ReceiveFault>| #[trigger]
            receive_result_is(result, v) implies (state@, shown && !from_me) == told(
            c,
            v,
            hms@,
            from_me,
        ) by {
            let s = receive_shown(c.transfers, v, hms@);
            assert(message_is(message, s.1));
            assert(mid == (ChatView { transfers: s.0, ..c }));
        }
    }
    shown && !from_me
}

fn take_attachment_result(
    state: &mut ChatState,
    result: Result<Vec<AttachmentReceiveEvent>, ReceiveError>,
    hms: &str,
    from_me: bool,
    Ghost(r): Ghost<(IncomingMap, StoreView, Result<Seq<ReceiveEventView>, ReceiveFault>)>,
    Ghost(before): Ghost<ChatView>,
) -> (notify: bool)
    requires
        old(state).wf(),
        receive_result_is(result, r.2),
        old(state)@ == (ChatView { incoming: r.0, store: r.1, ..before }),
    ensures
        final(state).wf(),
        (final(state)@, notify) == attachment_taken(before, r, hms@, from_me),
{
    let complete = match &result {
        Ok(events) => {
            assert(event_views(events@).len() == events@.len());
            if events.len() > 0 {
                assert(event_views(events@).last() == events@[events@.len() - 1]@);
                match &events[events.len() - 1] {
                    AttachmentReceiveEvent::Complete(_) => true,
                    _ => false,
                }
            } else {
                false
            }
        },
        Err(_) => false,
    };
    match result {
        Ok(events) => {
            if complete {
                state.awaited = Some(AwaitedWrite { events, hms: hms.to_owned(), from_me });
                return false;
            }
            tell(state, Ok(events), hms, from_me)
        },
        Err(e) => tell(state, Err(e), hms, from_me),
    }
}

/// Shows the awaited attachment once it has been written, or says why it could not be; true when the
/// user is to be notified.
pub fn settle_write(state: &mut ChatState, failure: Option<String>) -> (notify: bool)
    requires
        old(state).wf(),
    ensures
        final(state).wf(),
        (final(state)@, notify) == settled(old(state)@, opt_text(failure)),
{
    let mut awaited: Option<AwaitedWrite> = None;
    std::mem::swap(&mut state.awaited, &mut awaited);
    match awaited {
        None => {
            assert(state@ =~= old(state)@);
            false
        },
        Some(a) => {
            let ghost c = old(state)@;
            let ghost fault = opt_text(failure);
            assert(state@ =~= (ChatView { awaited: None, ..c }));
            let result = match failure {
                None => Ok(a.events),
                Some(reason) => Err(ReceiveError::NotWritten(reason)),
            };
            let ghost v = match fault {
                None => Ok(a@.events),
                Some(reason) => Err(ReceiveFault::NotWritten(reason)),
            };
            assert(receive_result_is(result, v));
            tell(state, result, a.hms.as_str(), a.from_me)
        },
    }
}

/// An attachment that could not be written leaves its transfer as it was before the last piece and
/// is not shown: the reason is said instead.
pub proof fn law_unwritten_attachment_is_not_shown(c: ChatView, reason: Seq<char>)
    requires
        c.awaited is Some,
    ensures
        settled(c, Some(reason)).0 == with_message(
            ChatView { awaited: None, ..c },
            Some(ChatMessageView::Text(text_line("System"@, reason, c.awaited->0.hms))),
        ),
        settled(c, Some(reason)).1 == !c.awaited->0.from_me,
{
}

fn take_said(state: &mut ChatState, sender: String, body: &str, env: &DrainEnv) -> (notify: bool)
    requires
        old(state).wf(),
    ensures
        final(state).wf(),
        exists|names: PathNames|
            path_rule(names) && (final(state)@, notify) == #[trigger] said(
                old(state)@,
                sender@,
                body@,
                with_names(env@, names),
            ),
{
    let ghost c = state@;
    let ghost s0 = said(c, sender@, body@, with_names(env@, slash_names()));
    proof {
        lemma_slash_names();
    }
    let from_me = same_text(sender.as_str(), state.my_name.as_str());
    match parse_attachment_frame(body) {
        Some(AttachmentFrame::Meta(meta)) => {
            let result = register_attachment_with(
                &mut state.receiver.attachments,
                sender,
                meta,
                &mut state.store,
                &env.keys,
                env.name_id.as_str(),
            );
            let ghost names = choose|names: PathNames|
                path_rule(names) && received_as(
                    state@.incoming,
                    state@.store,
                    result,
                    #[trigger] registered(
                        c.incoming,
                        c.store,
                        sender@,
                        meta@,
                        env@.keys,
                        env@.name_id,
                        names,
                    ),
                );
            let ghost r = registered(
                c.incoming,
                c.store,
                sender@,
                meta@,
                env@.keys,
                env@.name_id,
                names,
            );
            let ghost s1 = said(c, sender@, body@, with_names(env@, names));
            take_attachment_result(
                state,
                result,
                env.hms.as_str(),
                from_me,
                Ghost(r),
                Ghost(c),
            )
        },
        Some(AttachmentFrame::EncryptedChunk(chunk)) => {
            let notify = take_chunk(state, chunk, env, from_me);
            proof {
                let names = choose|names: PathNames|
                    path_rule(names) && (state@, notify) == #[trigger] chunk_taken(
                        c,
                        chunk@,
                        with_names(env@, names),
                        from_me,
                    );
                let s1 = said(c, sender@, body@, with_names(env@, names));
                assert((state@, notify) == s1);
            }
            notify
        },
        None => {
            let line = format_text_message(sender.as_str(), body, env.hms.as_str());
            push_message(&mut state.messages, ChatMessage::Text(line));
            !from_me
        },
    }
}

/// What an encrypted piece of an attachment does, and whether the user is to be notified.
pub open spec fn chunk_taken(
    c: ChatView,
    chunk: ChunkView,
    e: EnvView,
    from_me: bool,
) -> (ChatView, bool) {
    attachment_taken(
        c,
        appended_encrypted(c.incoming, c.store, chunk, e.keys, e.name_id, e.names),
        e.hms,
        from_me,
    )
}

fn take_chunk(
    state: &mut ChatState,
    chunk: EncryptedAttachmentChunk,
    env: &DrainEnv,
    from_me: bool,
) -> (notify: bool)
    requires
        old(state).wf(),
    ensures
        final(state).wf(),
        exists|names: PathNames|
            path_rule(names) && (final(state)@, notify) == #[trigger] chunk_taken(
                old(state)@,
                chunk@,
                with_names(env@, names),
                from_me,
            ),
{
    let ghost c = state@;
    let result = append_encrypted_chunk_with(
        &mut state.receiver.attachments,
        chunk,
        &mut state.store,
        &env.keys,
        env.name_id.as_str(),
    );
    let ghost names = choose|names: PathNames|
        path_rule(names) && received_as(
            state@.incoming,
            state@.store,
            result,
            #[trigger] appended_encrypted(
                c.incoming,
                c.store,
                chunk@,
                env@.keys,
                env@.name_id,
                names,
            ),
        );
    let ghost r = appended_encrypted(
        c.incoming,
        c.store,
        chunk@,
        env@.keys,
        env@.name_id,
        names,
    );
    let ghost t = chunk_taken(c, chunk@, with_names(env@, names), from_me);
    take_attachment_result(state, result, env.hms.as_str(), from_me, Ghost(r), Ghost(c))
}

fn hear(group: &mut GroupCryptoState, body: &str, outer: &str, now: i64) -> (out: Option<
    (String, String),
>)
    requires
        old(group).wf(),
    ensures
        final(group).wf(),
        final(group)@ == heard(old(group)@, body@, outer@, now).0,
        match (out, heard(old(group)@, body@, outer@, now).1) {
            (Some(o), Some(v)) => o.0@ == v.0 && o.1@ == v.1,
            (None, None) => true,
            _ => false,
        },
{
    match parse_rmsg_line(body) {
        None => None,
        Some(message) => {
            match decrypt_message_at(group, &message, now) {
                Ok(opened) => {
                    let sender = match group.member_display_name(
                        opened.header.sender_id.as_str(),
                    ) {
                        Some(name) => name,
                        None => outer.to_owned(),
                    };
                    match string_from_utf8(opened.plaintext) {
                        Some(text) => Some((sender, text)),
                        None => None,
                    }
                },
                Err(_) => None,
            }
        },
    }
}

fn pairs_of(members: &Vec<MemberIdentity>) -> (pairs: Vec<(String, String)>)
    ensures
        pair_views(pairs@) == member_pairs(identity_views(members@)),
{
    let mut pairs: Vec<(String, String)> = Vec::new();
    let mut i: usize = 0;
    while i < members.len()
        invariant
            i <= members@.len(),
            pairs@.len() == i,
            forall|k: int|
                0 <= k < i ==> (#[trigger] pairs@[k]).0@ == members@[k].member_id@ && pairs@[k].1@
                    == members@[k].nickname@,
        decreases members.len() - i,
    {
        pairs.push((members[i].member_id.clone(), members[i].nickname.clone()));
        i += 1;
    }
    assert(pair_views(pairs@) =~= member_pairs(identity_views(members@)));
    pairs
}

fn take_remote(state: &mut ChatState, line: &str, env: &DrainEnv) -> (out: DrainOutcome)
    requires
        old(state).wf(),
        env.wf(),
    ensures
        final(state).wf(),
        exists|names: PathNames|
            path_rule(names) && (final(state)@, out) == #[trigger] remote_taken(
                old(state)@,
                line@,
                with_names(env@, names),
            ),
{
    let ghost c = state@;
    let ghost t0 = remote_taken(c, line@, with_names(env@, slash_names()));
    proof {
        lemma_slash_names();
    }
    let mut out = DrainOutcome {
        member_list_changed: false,
        phase2_action_needed: false,
        notify: false,
        local: false,
    };
    let (outer, body) = parse_display_body(line);
    match parse_key_announce_line(body.as_str()) {
        Some(announce) => {
            let applied = match state.group.apply_key_announce(&announce) {
                Ok(applied) => applied,
                Err(_) => false,
            };
            let retried_one = retry_pending_epoch_commits(
                &mut state.receiver,
                &mut state.group,
                env.now,
                &env.commit_secrets,
            );
            out.phase2_action_needed = applied || retried_one;
            return out;
        },
        None => {},
    }
    match parse_epoch_commit_line(body.as_str()) {
        Some(commit) => {
            assert(env@.secrets[0] == env.commit_secrets@[0]@);
            match state.group.apply_epoch_commit_with(&commit, env.now, env.commit_secrets[0]) {
                Ok(applied) => {
                    out.phase2_action_needed = applied;
                },
                Err(_) => {
                    queue_pending_epoch_commit(&mut state.receiver, commit);
                },
            }
            return out;
        },
        None => {},
    }
    match parse_attachment_frame(body.as_str()) {
        Some(AttachmentFrame::EncryptedChunk(chunk)) => {
            let from_me = same_text(outer.as_str(), state.my_name.as_str());
            out.notify = take_chunk(state, chunk, env, from_me);
            proof {
                let names = choose|names: PathNames|
                    path_rule(names) && (state@, out.notify) == #[trigger] chunk_taken(
                        c,
                        chunk@,
                        with_names(env@, names),
                        from_me,
                    );
                let t1 = remote_taken(c, line@, with_names(env@, names));
                assert((state@, out) == t1);
            }
            return out;
        },
        _ => {},
    }
    match hear(&mut state.group, body.as_str(), outer.as_str(), env.now) {
        Some((sender, text)) => {
            let ghost c1 = state@;
            out.notify = take_said(state, sender, text.as_str(), env);
            proof {
                let names = choose|names: PathNames|
                    path_rule(names) && (state@, out.notify) == #[trigger] said(
                        c1,
                        sender@,
                        text@,
                        with_names(env@, names),
                    );
                let t1 = remote_taken(c, line@, with_names(env@, names));
                assert((state@, out) == t1);
            }
        },
        None => {
            if !starts_with(body.as_str(), "/RMSG ") && starts_with(line, "⚡ ") {
                let ghost c1 = state@;
                let sender = "System".to_owned();
                out.notify = take_said(state, sender, line, env);
                proof {
                    let names = choose|names: PathNames|
                        path_rule(names) && (state@, out.notify) == #[trigger] said(
                            c1,
                            "System"@,
                            line@,
                            with_names(env@, names),
                        );
                    let t1 = remote_taken(c, line@, with_names(env@, names));
                    assert((state@, out) == t1);
                }
            }
        },
    }
    out
}

/// Takes in a line, with a given time and given random values. No attachment may be waiting to be
/// written.
pub fn drain_line(state: &mut ChatState, line: &str, env: &DrainEnv) -> (out: DrainOutcome)
    requires
        old(state).wf(),
        env.wf(),
        old(state)@.awaited is None,
    ensures
        final(state).wf(),
        exists|names: PathNames|
            path_rule(names) && (final(state)@, out) == #[trigger] line_taken(
                old(state)@,
                line@,
                with_names(env@, names),
            ),
{
    let ghost c = state@;
    let ghost t0 = line_taken(c, line@, with_names(env@, slash_names()));
    proof {
        lemma_slash_names();
    }
    let quiet = DrainOutcome {
        member_list_changed: false,
        phase2_action_needed: false,
        notify: false,
        local: false,
    };
    if should_drop_unframed_control_line(line) {
        return quiet;
    }
    match parse_member_list_line(line) {
        Some(members) => {
            let pairs = pairs_of(&members);
            state.members = members;
            let _ = state.group.replace_members(pairs);
            let _ = retry_pending_epoch_commits(
                &mut state.receiver,
                &mut state.group,
                env.now,
                &env.commit_secrets,
            );
            return DrainOutcome {
                member_list_changed: true,
                phase2_action_needed: true,
                notify: false,
                local: false,
            };
        },
        None => {},
    }
    match parse_local_ui_event(line) {
        Some(event) => {
            let ghost s = event_shown(
                state@.transfers,
                event@,
                state@.my_name,
                env@.hms,
            );
            let message = handle_local_ui_event(
                event,
                state.my_name.as_str(),
                &mut state.transfers,
                env.hms.as_str(),
            );
            assert(message_is(message, s.1));
            show(state, message);
            return DrainOutcome {
                member_list_changed: false,
                phase2_action_needed: false,
                notify: false,
                local: true,
            };
        },
        None => {},
    }
    let out = take_remote(state, line, env);
    proof {
        let names = choose|names: PathNames|
            path_rule(names) && (state@, out) == #[trigger] remote_taken(
                c,
                line@,
                with_names(env@, names),
            );
        let t1 = line_taken(c, line@, with_names(env@, names));
        assert((state@, out) == t1);
    }
    out
}

/// What lines have done, one after the other.
#[verifier::ext_equal]
pub ghost struct BatchView {
    pub chat: ChatView,
    pub member_list_changed: bool,
    pub phase2_action_needed: bool,
    /// How many times the user is to be notified.
    pub notifications: nat,
    /// Whether the last line came from this machine.
    pub last_local: bool,
}

/// What one more line does.
#[verifier::opaque]
pub open spec fn with_line(b: BatchView, line: Seq<char>, e: EnvView) -> BatchView {
    let (chat, out) = line_taken(b.chat, line, e);
    BatchView {
        chat,
        member_list_changed: b.member_list_changed || out.member_list_changed,
        phase2_action_needed: b.phase2_action_needed || out.phase2_action_needed,
        notifications: if out.notify {
            b.notifications + 1
        } else {
            b.notifications
        },
        last_local: out.local,
    }
}

/// What lines do, one after the other, each with a time and random values of its own.
pub open spec fn lines_taken(c: ChatView, lines: Seq<Seq<char>>, envs: Seq<EnvView>) -> BatchView
    decreases lines.len(),
{
    if lines.len() == 0 {
        BatchView {
            chat: c,
            member_list_changed: false,
            phase2_action_needed: false,
            notifications: 0,
            last_local: false,
        }
    } else {
        with_line(
            lines_taken(c, lines.drop_last(), envs.drop_last()),
            lines.last(),
            envs.last(),
        )
    }
}

/// Whether a batch that has taken `done` lines before ends after `n` more although more are waiting:
/// an attachment is to be written, or it is full and the last line did not come from this machine.
pub open spec fn batch_ends(
    c: ChatView,
    lines: Seq<Seq<char>>,
    envs: Seq<EnvView>,
    done: nat,
    n: int,
) -> bool {
    let b = lines_taken(c, lines.take(n), envs.take(n));
    b.chat.awaited is Some || (done + n >= DRAIN_BATCH_LIMIT && !b.last_local)
}

/// What a batch of lines causes beside the changes to the conversation.
#[derive(Debug, Clone, Copy, PartialEq, Eq, Structural)]
pub struct BatchOutcome {
    /// The list of members has changed.
    pub member_list_changed: bool,
    /// The group may need a key or a commit from here.
    pub phase2_action_needed: bool,
    /// How many times the user is to be notified.
    pub notifications: usize,
    /// How many lines were taken in.
    pub taken: usize,
}

/// Whether a batch that has taken `done` lines before has taken more of the waiting lines, with times
/// and random values that may have come up, and caused the given outcome.
pub open spec fn is_batch(
    before: ChatView,
    after: ChatView,
    lines: Seq<Seq<char>>,
    done: nat,
    out: BatchOutcome,
    envs: Seq<EnvView>,
) -> bool {
    let n = out.taken as int;
    let b = lines_taken(before, lines.take(n), envs);
    &&& 0 <= n <= lines.len()
    &&& envs.len() == n
    &&& forall|i: int| 0 <= i < n ==> may_be_fresh(#[trigger] envs[i])
    &&& forall|k: int| 0 <= k < n ==> !#[trigger] batch_ends(before, lines, envs, done, k)
    &&& n < lines.len() ==> batch_ends(before, lines, envs, done, n)
    &&& has_come_to(after, out, b)
}

/// Whether a conversation and an outcome are those of a batch so far.
pub open spec fn has_come_to(chat: ChatView, out: BatchOutcome, b: BatchView) -> bool {
    &&& chat == b.chat
    &&& out.member_list_changed == b.member_list_changed
    &&& out.phase2_action_needed == b.phase2_action_needed
    &&& out.notifications == b.notifications
}

/// Whether a conversation, an outcome and the place that the last line came from are those of a batch.
pub open spec fn came_to_next(
    chat: ChatView,
    out: BatchOutcome,
    local: bool,
    b: BatchView,
) -> bool {
    has_come_to(chat, out, b) && local == b.last_local
}

/// Takes in one more line of a batch, and tells whether it came from this machine.
fn drain_next(
    state: &mut ChatState,
    out: &mut BatchOutcome,
    line: &str,
    env: &DrainEnv,
    Ghost(b): Ghost<BatchView>,
) -> (local: bool)
    requires
        old(state).wf(),
        env.wf(),
        has_come_to(old(state)@, *old(out), b),
        old(state)@.awaited is None,
        old(out).notifications < usize::MAX,
    ensures
        final(state).wf(),
        exists|names: PathNames|
            path_rule(names) && came_to_next(
                final(state)@,
                *final(out),
                local,
                #[trigger] with_line(b, line@, with_names(env@, names)),
            ),
        final(out).notifications <= old(out).notifications + 1,
        final(out).taken == old(out).taken,
{
    reveal(with_line);
    let ghost c = state@;
    let taken = drain_line(state, line, env);
    let ghost names = choose|names: PathNames|
        path_rule(names) && (state@, taken) == #[trigger] line_taken(
            c,
            line@,
            with_names(env@, names),
        );
    let ghost next = with_line(b, line@, with_names(env@, names));
    out.member_list_changed = out.member_list_changed || taken.member_list_changed;
    out.phase2_action_needed = out.phase2_action_needed || taken.phase2_action_needed;
    if taken.notify {
        out.notifications += 1;
    }
    taken.local
}

/// Takes in the waiting lines in order, until none is left, the batch is full, or an attachment is to
/// be written; those that are not taken in go on waiting.
pub fn drain_messages(state: &mut ChatState, waiting: &mut Vec<String>) -> (out: BatchOutcome)
    requires
        old(state).wf(),
    ensures
        final(state).wf(),
        exists|envs: Seq<EnvView>| #[trigger]
            is_batch(old(state)@, final(state)@, views(old(waiting)@), 0, out, envs),
        views(final(waiting)@) == views(old(waiting)@).skip(out.taken as int),
{
    drain_more(state, waiting, 0)
}

/// Goes on with a batch that has taken `done` lines.
pub fn drain_more(state: &mut ChatState, waiting: &mut Vec<String>, done: usize) -> (out:
    BatchOutcome)
    requires
        old(state).wf(),
    ensures
        final(state).wf(),
        exists|envs: Seq<EnvView>| #[trigger]
            is_batch(
                old(state)@,
                final(state)@,
                views(old(waiting)@),
                done as nat,
                out,
                envs,
            ),
        views(final(waiting)@) == views(old(waiting)@).skip(out.taken as int),
{
    let ghost before = state@;
    let ghost lines = views(waiting@);
    let ghost mut envs: Seq<EnvView> = Seq::empty();
    let ghost mut b = lines_taken(before, Seq::empty(), envs);
    let total = waiting.len();
    let mut out = BatchOutcome {
        member_list_changed: false,
        phase2_action_needed: false,
        notifications: 0,
        taken: 0,
    };
    let mut taken: usize = 0;
    let mut ends = state.awaits_write() || done >= DRAIN_BATCH_LIMIT;
    proof {
        assert(lines.take(0) =~= Seq::<Seq<char>>::empty());
        assert(envs.take(0) =~= envs);
    }
    while taken < total && !ends
        invariant
            state.wf(),
            lines == views(waiting@),
            total == waiting@.len(),
            taken <= total,
            out.notifications <= taken,
            out.taken == 0,
            envs.len() == taken,
            envs.take(taken as int) == envs,
            forall|i: int| 0 <= i < taken ==> may_be_fresh(#[trigger] envs[i]),
            forall|k: int|
                0 <= k < taken ==> !#[trigger] batch_ends(before, lines, envs, done as nat, k),
            ends == batch_ends(before, lines, envs, done as nat, taken as int),
            b == lines_taken(before, lines.take(taken as int), envs),
            has_come_to(state@, out, b),
        decreases total - taken,
    {
        let env = DrainEnv::fresh();
        let local = drain_next(state, &mut out, waiting[taken].as_str(), &env, Ghost(b));
        proof {
            let at = taken as int;
            let names = choose|names: PathNames|
                path_rule(names) && came_to_next(
                    state@,
                    out,
                    local,
                    #[trigger] with_line(b, waiting@[at]@, with_names(env@, names)),
                );
            let earlier = envs;
            envs = envs.push(with_names(env@, names));
            assert(lines.take(at + 1).drop_last() =~= lines.take(at));
            assert(envs.drop_last() =~= earlier);
            assert(lines.take(at + 1).last() == waiting@[at]@);
            b = lines_taken(before, lines.take(at + 1), envs);
            assert(envs.take(at + 1) =~= envs);
            assert forall|k: int| 0 <= k < at + 1 implies !#[trigger] batch_ends(
                before,
                lines,
                envs,
                done as nat,
                k,
            ) by {
                assert(envs.take(k) =~= earlier.take(k));
                assert(!batch_ends(before, lines, earlier, done as nat, k));
            }
        }
        taken += 1;
        ends = state.awaits_write() || ((done >= DRAIN_BATCH_LIMIT || taken
            >= DRAIN_BATCH_LIMIT - done) && !local);
    }
    out.taken = taken;
    let rest = waiting.split_off(taken);
    proof {
        assert(views(rest@) =~= lines.skip(taken as int));
        assert(is_batch(before, state@, lines, done as nat, out, envs));
    }
    *waiting = rest;
    out
}

/// A line that only serves the connection changes nothing.
pub proof fn law_control_line_changes_nothing(c: ChatView, line: Seq<char>, e: EnvView)
    requires
        is_unframed_control(line),
    ensures
        line_taken(c, line, e) == (c, quiet()),
{
}

/// However many lines come in, the conversation and the waiting commits stay bounded.
pub proof fn law_line_keeps_bounds(c: ChatView, line: Seq<char>, e: EnvView)
    requires
        c.messages.len() <= crate::client::receiver::MESSAGE_LIMIT,
        c.commits.len() <= PENDING_EPOCH_COMMIT_LIMIT,
    ensures
        line_taken(c, line, e).0.messages.len() <= crate::client::receiver::MESSAGE_LIMIT,
        line_taken(c, line, e).0.commits.len() <= PENDING_EPOCH_COMMIT_LIMIT,
{
    if let Some(members) = listed_members(line) {
        lemma_retried_len(
            with_members(c.group, member_pairs(members)),
            c.commits,
            e.now,
            e.secrets,
        );
    }
    lemma_remote_keeps_bounds(c, line, e);
}

/// Whether the conversation and the waiting commits are bounded.
spec fn bounded(c: ChatView) -> bool {
    c.messages.len() <= crate::client::receiver::MESSAGE_LIMIT && c.commits.len()
        <= PENDING_EPOCH_COMMIT_LIMIT
}

proof fn lemma_attachment_keeps_bounds(
    c: ChatView,
    r: (IncomingMap, StoreView, Result<Seq<ReceiveEventView>, ReceiveFault>),
    hms: Seq<char>,
    from_me: bool,
)
    requires
        bounded(c),
    ensures
        bounded(attachment_taken(c, r, hms, from_me).0),
{
}

proof fn lemma_said_keeps_bounds(c: ChatView, sender: Seq<char>, body: Seq<char>, e: EnvView)
    requires
        bounded(c),
    ensures
        bounded(said(c, sender, body, e).0),
{
    let from_me = sender == c.my_name;
    match frame_of(body) {
        Some(FrameView::Meta(meta)) => {
            let r = registered(c.incoming, c.store, sender, meta, e.keys, e.name_id, e.names);
            lemma_attachment_keeps_bounds(c, r, e.hms, from_me);
        },
        Some(FrameView::EncryptedChunk(chunk)) => {
            let r = appended_encrypted(c.incoming, c.store, chunk, e.keys, e.name_id, e.names);
            lemma_attachment_keeps_bounds(c, r, e.hms, from_me);
        },
        None => {},
    }
}

#[verifier::spinoff_prover]
proof fn lemma_remote_keeps_bounds(c: ChatView, line: Seq<char>, e: EnvView)
    requires
        bounded(c),
    ensures
        bounded(remote_taken(c, line, e).0),
{
    let (outer, body) = display_parts(line);
    if let Some(announce) = key_announce_of_line(body) {
        lemma_retried_len(announced(c.group, announce).1, c.commits, e.now, e.secrets);
    } else if let Some(commit) = epoch_commit_of_line(body) {
    } else if let Some(FrameView::EncryptedChunk(chunk)) = frame_of(body) {
        let r = appended_encrypted(c.incoming, c.store, chunk, e.keys, e.name_id, e.names);
        lemma_attachment_keeps_bounds(c, r, e.hms, outer == c.my_name);
    } else {
        let h = heard(c.group, body, outer, e.now);
        let c1 = ChatView { group: h.0, ..c };
        if let Some((sender, text)) = h.1 {
            lemma_said_keeps_bounds(c1, sender, text, e);
        }
        lemma_said_keeps_bounds(c1, "System"@, line, e);
    }
}

proof fn lemma_retried_len(g: GroupView, commits: Seq<CommitView>, now: i64, fresh: Seq<Seq<u8>>)
    ensures
        retried(g, commits, now, fresh).1.len() <= commits.len(),
    decreases commits.len(),
{
    if commits.len() > 0 {
        lemma_retried_len(g, commits.drop_last(), now, fresh);
    }
}

} // verus!
