//! What comes in: each line changes the conversation, the group, or the list of transfers.
pub use crate::ui::help::{TransferDirection, TransferStage};
use crate::attachments::receiver::{
    event_views, fault_text, receive_result_is, AttachmentReceiveEvent, AttachmentReceiveState,
    IncomingMap, ReceiveError, ReceiveEventView, ReceiveFault,
};
use crate::crypto::group::{committed, GroupCryptoState, GroupView};
use crate::crypto::messages::{CommitView, EpochCommit, WrappedEpochSecret};
use crate::protocol::attachment::AttachmentKind;
use crate::protocol::local_event::{LocalEventView, LocalUiEvent};
use crate::ui::help::{render_transfer_line, transfer_text};
use crate::util::id_map::{view_map, IdMap};
use crate::util::order::same_bytes;
use crate::util::text::{joined, opt_text, same_text, starts_with, views};
use vstd::prelude::*;

verus! {

/// How many lines are taken in at a time.
pub const DRAIN_BATCH_LIMIT: usize = 128;

/// How many commits that could not be applied yet are kept.
pub const PENDING_EPOCH_COMMIT_LIMIT: usize = 8;

/// How many messages are kept.
pub const MESSAGE_LIMIT: usize = 500;

/// How many messages are dropped when there are too many.
pub const MESSAGE_DROP: usize = 100;

/// A message of the conversation.
#[derive(Debug)]
pub enum ChatMessage {
    Text(String),
    Attachment {
        attachment_id: String,
        sender: String,
        ts: String,
        name: String,
        size: u64,
        kind: AttachmentKind,
    },
}

/// A message of the conversation.
pub ghost enum ChatMessageView {
    Text(Seq<char>),
    Attachment {
        attachment_id: Seq<char>,
        sender: Seq<char>,
        ts: Seq<char>,
        name: Seq<char>,
        size: u64,
        kind: AttachmentKind,
    },
}

impl View for ChatMessage {
    type V = ChatMessageView;

    open spec fn view(&self) -> ChatMessageView {
        match self {
            ChatMessage::Text(s) => ChatMessageView::Text(s@),
            ChatMessage::Attachment { attachment_id, sender, ts, name, size, kind } => {
                ChatMessageView::Attachment {
                    attachment_id: attachment_id@,
                    sender: sender@,
                    ts: ts@,
                    name: name@,
                    size: *size,
                    kind: *kind,
                }
            },
        }
    }
}

pub open spec fn message_views(messages: Seq<ChatMessage>) -> Seq<ChatMessageView> {
    messages.map_values(|m: ChatMessage| m@)
}

/// The conversation with one more message. When there are too many, the oldest go.
pub open spec fn pushed(messages: Seq<ChatMessageView>, m: ChatMessageView) -> Seq<
    ChatMessageView,
> {
    let all = messages.push(m);
    if all.len() > MESSAGE_LIMIT {
        all.skip(MESSAGE_DROP as int)
    } else {
        all
    }
}

pub fn push_message(messages: &mut Vec<ChatMessage>, message: ChatMessage)
    ensures
        message_views(final(messages)@) == pushed(message_views(old(messages)@), message@),
{
    let ghost before = messages@;
    let ghost m = message@;
    messages.push(message);
    assert(message_views(messages@) =~= message_views(before).push(m));
    if messages.len() > MESSAGE_LIMIT {
        let ghost all = messages@;
        let mut tail = messages.split_off(MESSAGE_DROP);
        std::mem::swap(messages, &mut tail);
        assert(message_views(messages@) =~= message_views(all).skip(MESSAGE_DROP as int));
    }
}

/// The conversation never holds too many messages, and the latest is always there.
pub proof fn law_conversation_is_bounded(messages: Seq<ChatMessageView>, m: ChatMessageView)
    requires
        messages.len() <= MESSAGE_LIMIT,
    ensures
        pushed(messages, m).len() <= MESSAGE_LIMIT,
        pushed(messages, m).last() == m,
{
}

/// A transfer as it is shown.
#[derive(Debug)]
pub struct TransferStatus {
    pub transfer_id: String,
    pub file_name: String,
    pub total_chunks: usize,
    pub acked_chunks: usize,
    pub total_size: u64,
    pub direction: TransferDirection,
    pub stage: TransferStage,
    pub detail: Option<String>,
}

/// A transfer as it is shown.
#[verifier::ext_equal]
pub ghost struct StatusView {
    pub transfer_id: Seq<char>,
    pub file_name: Seq<char>,
    pub total_chunks: usize,
    pub acked_chunks: usize,
    pub total_size: u64,
    pub direction: TransferDirection,
    pub stage: TransferStage,
    pub detail: Option<Seq<char>>,
}

impl View for TransferStatus {
    type V = StatusView;

    open spec fn view(&self) -> StatusView {
        StatusView {
            transfer_id: self.transfer_id@,
            file_name: self.file_name@,
            total_chunks: self.total_chunks,
            acked_chunks: self.acked_chunks,
            total_size: self.total_size,
            direction: self.direction,
            stage: self.stage,
            detail: opt_text(self.detail),
        }
    }
}

/// The transfers, in the order in which they began.
#[derive(Debug)]
pub struct TransferUiState {
    pub order: Vec<String>,
    pub transfers: IdMap<TransferStatus>,
}

/// The transfers, in the order in which they began.
#[verifier::ext_equal]
pub ghost struct TransfersView {
    pub order: Seq<Seq<char>>,
    pub transfers: Map<Seq<char>, StatusView>,
}

impl View for TransferUiState {
    type V = TransfersView;

    open spec fn view(&self) -> TransfersView {
        TransfersView { order: views(self.order@), transfers: view_map(self.transfers.map()) }
    }
}

/// A transfer that has just begun.
pub open spec fn begun_status(
    transfer_id: Seq<char>,
    file_name: Seq<char>,
    total_chunks: usize,
    total_size: u64,
    direction: TransferDirection,
) -> StatusView {
    StatusView {
        transfer_id,
        file_name,
        total_chunks,
        acked_chunks: 0,
        total_size,
        direction,
        stage: TransferStage::Active,
        detail: None,
    }
}

/// The transfers with one that begins.
pub open spec fn with_begun(t: TransfersView, status: StatusView) -> TransfersView {
    TransfersView {
        order: if t.order.contains(status.transfer_id) {
            t.order
        } else {
            t.order.push(status.transfer_id)
        },
        transfers: t.transfers.insert(status.transfer_id, status),
    }
}

/// The transfers with another status for one that is known.
pub open spec fn with_status(t: TransfersView, id: Seq<char>, status: StatusView) -> TransfersView {
    if t.transfers.contains_key(id) {
        TransfersView { transfers: t.transfers.insert(id, status), ..t }
    } else {
        t
    }
}

/// The transfers after news of progress.
pub open spec fn with_progress(
    t: TransfersView,
    id: Seq<char>,
    done: usize,
    total: usize,
) -> TransfersView {
    with_status(
        t,
        id,
        StatusView {
            acked_chunks: done,
            total_chunks: total,
            stage: TransferStage::Active,
            detail: None,
            ..t.transfers[id]
        },
    )
}

/// The transfers after one is complete.
pub open spec fn with_done(t: TransfersView, id: Seq<char>, detail: Seq<char>) -> TransfersView {
    with_status(
        t,
        id,
        StatusView {
            acked_chunks: t.transfers[id].total_chunks,
            stage: TransferStage::Done,
            detail: Some(detail),
            ..t.transfers[id]
        },
    )
}

/// The transfers after one has failed.
pub open spec fn with_failed(t: TransfersView, id: Seq<char>, reason: Seq<char>) -> TransfersView {
    with_status(
        t,
        id,
        StatusView {
            stage: TransferStage::Failed,
            detail: Some(reason),
            ..t.transfers[id]
        },
    )
}

/// What an event does to the transfers, and what the user is told of it.
pub open spec fn applied(t: TransfersView, event: LocalEventView) -> (
    TransfersView,
    Option<Seq<char>>,
) {
    match event {
        LocalEventView::TransferBegin { transfer_id, file_name, total_chunks, total_size } => (
            with_begun(
                t,
                begun_status(
                    transfer_id,
                    file_name,
                    total_chunks,
                    total_size,
                    TransferDirection::Sending,
                ),
            ),
            None,
        ),
        LocalEventView::TransferProgress { transfer_id, acked_chunks, total_chunks } => (
            with_progress(t, transfer_id, acked_chunks, total_chunks),
            None,
        ),
        LocalEventView::TransferDone { transfer_id } => (
            with_done(t, transfer_id, "server acked"@),
            None,
        ),
        LocalEventView::TransferFailed { transfer_id, reason } => (
            with_failed(t, transfer_id, reason),
            Some(
                "传输失败: "@ + (if t.transfers.contains_key(transfer_id) {
                    t.transfers[transfer_id].file_name
                } else {
                    transfer_id
                }) + " - "@ + reason,
            ),
        ),
        LocalEventView::EchoText { .. } => (t, None),
        LocalEventView::EchoAttachment { .. } => (t, None),
        LocalEventView::Notice(message) => (t, Some(message)),
    }
}

/// Every transfer that is listed is listed once and has a status, and no other has one.
pub open spec fn listed(t: TransfersView) -> bool {
    t.order.no_duplicates() && t.order.to_set() == t.transfers.dom()
}

/// A transfer that begins leaves every transfer listed once.
proof fn lemma_listed_begun(t: TransfersView, status: StatusView)
    requires
        listed(t),
    ensures
        listed(with_begun(t, status)),
{
    let next = with_begun(t, status);
    let id = status.transfer_id;
    assert forall|x: Seq<char>| next.order.to_set().contains(x) == next.transfers.dom().contains(
        x,
    ) by {
        assert(t.order.to_set().contains(x) == t.transfers.dom().contains(x));
        assert(t.order.to_set().contains(x) == t.order.contains(x));
        if t.order.contains(x) {
            let k = choose|k: int| 0 <= k < t.order.len() && t.order[k] == x;
            assert(next.order[k] == x);
        }
        if next.order.contains(x) && !t.order.contains(x) {
            let k = choose|k: int| 0 <= k < next.order.len() && next.order[k] == x;
            if k < t.order.len() {
                assert(t.order[k] == x);
            }
        }
        if x == id && !t.order.contains(id) {
            assert(next.order[t.order.len() as int] == x);
        }
    }
    assert(next.order.to_set() =~= next.transfers.dom());
}

/// News of a transfer leave every transfer listed once.
proof fn lemma_listed_status(t: TransfersView, id: Seq<char>, status: StatusView)
    requires
        listed(t),
    ensures
        listed(with_status(t, id, status)),
{
    let next = with_status(t, id, status);
    assert(next.transfers.dom() =~= t.transfers.dom());
}

fn list_contains(list: &Vec<String>, text: &str) -> (yes: bool)
    ensures
        yes == views(list@).contains(text@),
{
    let mut i: usize = 0;
    while i < list.len()
        invariant
            i <= list@.len(),
            forall|k: int| 0 <= k < i ==> (#[trigger] list@[k])@ != text@,
        decreases list.len() - i,
    {
        if same_text(list[i].as_str(), text) {
            assert(views(list@)[i as int] == text@);
            return true;
        }
        i += 1;
    }
    proof {
        if views(list@).contains(text@) {
            let k = choose|k: int| 0 <= k < views(list@).len() && views(list@)[k] == text@;
            assert(list@[k]@ == text@);
        }
    }
    false
}

/// The lines of the latest transfers of an order, the latest first.
pub open spec fn transfer_lines(
    order: Seq<Seq<char>>,
    transfers: Map<Seq<char>, StatusView>,
    limit: nat,
) -> Seq<Seq<char>>
    decreases order.len(),
{
    if order.len() == 0 || limit == 0 {
        Seq::empty()
    } else {
        let rest = transfer_lines(order.drop_last(), transfers, (limit - 1) as nat);
        if transfers.contains_key(order.last()) {
            seq![status_text(transfers[order.last()])] + rest
        } else {
            rest
        }
    }
}

/// The line of a transfer.
pub open spec fn status_text(s: StatusView) -> Seq<char> {
    transfer_text(
        s.file_name,
        s.total_size,
        s.direction,
        s.stage,
        s.acked_chunks,
        s.total_chunks,
        s.detail,
    )
}

/// There is one line for each of the latest transfers, the latest first.
pub proof fn law_one_line_per_transfer(t: TransfersView, limit: nat)
    requires
        listed(t),
    ensures
        ({
            let lines = transfer_lines(t.order, t.transfers, limit);
            &&& lines.len() == if limit < t.order.len() {
                limit
            } else {
                t.order.len()
            }
            &&& forall|j: int|
                0 <= j < lines.len() ==> #[trigger] lines[j] == status_text(
                    t.transfers[t.order[t.order.len() - 1 - j]],
                )
        }),
{
    assert forall|k: int| 0 <= k < t.order.len() implies t.transfers.contains_key(
        #[trigger] t.order[k],
    ) by {
        assert(t.order.to_set().contains(t.order[k]));
    }
    lemma_lines_of_known(t.order, t.transfers, limit);
}

proof fn lemma_lines_of_known(
    order: Seq<Seq<char>>,
    transfers: Map<Seq<char>, StatusView>,
    limit: nat,
)
    requires
        forall|k: int| 0 <= k < order.len() ==> transfers.contains_key(#[trigger] order[k]),
    ensures
        ({
            let lines = transfer_lines(order, transfers, limit);
            &&& lines.len() == if limit < order.len() {
                limit
            } else {
                order.len()
            }
            &&& forall|j: int|
                0 <= j < lines.len() ==> #[trigger] lines[j] == status_text(
                    transfers[order[order.len() - 1 - j]],
                )
        }),
    decreases order.len(),
{
    if order.len() > 0 && limit > 0 {
        let front = order.drop_last();
        assert forall|k: int| 0 <= k < front.len() implies transfers.contains_key(
            #[trigger] front[k],
        ) by {
            assert(front[k] == order[k]);
        }
        lemma_lines_of_known(front, transfers, (limit - 1) as nat);
        let rest = transfer_lines(front, transfers, (limit - 1) as nat);
        let lines = transfer_lines(order, transfers, limit);
        assert(transfers.contains_key(order[order.len() - 1]));
        assert forall|j: int| 0 <= j < lines.len() implies #[trigger] lines[j] == status_text(
            transfers[order[order.len() - 1 - j]],
        ) by {
            if j > 0 {
                assert(lines[j] == rest[j - 1]);
                assert(front[front.len() - 1 - (j - 1)] == order[order.len() - 1 - j]);
            }
        }
    }
}

/// Transfers are listed in the order in which they first began. Beginning again neither moves nor
/// repeats a transfer, and news of a transfer that never began add nothing. Every transfer stays
/// listed once.
pub proof fn law_transfers_keep_their_order(
    t: TransfersView,
    event: LocalEventView,
    status: StatusView,
    id: Seq<char>,
    done: usize,
    total: usize,
    text: Seq<char>,
)
    requires
        listed(t),
    ensures
        listed(TransfersView { order: Seq::empty(), transfers: Map::empty() }),
        listed(applied(t, event).0),
        listed(with_begun(t, status)),
        listed(with_progress(t, id, done, total)),
        listed(with_done(t, id, text)),
        listed(with_failed(t, id, text)),
        t.order.contains(status.transfer_id) ==> with_begun(t, status).order == t.order,
        !t.order.contains(status.transfer_id) ==> with_begun(t, status).order == t.order.push(
            status.transfer_id,
        ),
        with_progress(t, id, done, total).order == t.order,
        with_done(t, id, text).order == t.order,
        with_failed(t, id, text).order == t.order,
        !t.order.contains(id) ==> {
            &&& with_progress(t, id, done, total) == t
            &&& with_done(t, id, text) == t
            &&& with_failed(t, id, text) == t
        },
        !(event is TransferBegin) ==> applied(t, event).0.order == t.order,
{
    let none = TransfersView { order: Seq::empty(), transfers: Map::empty() };
    assert(none.order.to_set() =~= none.transfers.dom());
    assert(t.order.contains(id) == t.order.to_set().contains(id));
    lemma_listed_begun(t, status);
    assert forall|x: Seq<char>, s: StatusView| listed(#[trigger] with_status(t, x, s)) by {
        lemma_listed_status(t, x, s);
    }
    match event {
        LocalEventView::TransferBegin { transfer_id, file_name, total_chunks, total_size } => {
            lemma_listed_begun(
                t,
                begun_status(
                    transfer_id,
                    file_name,
                    total_chunks,
                    total_size,
                    TransferDirection::Sending,
                ),
            );
        },
        _ => {},
    }
}

impl TransferUiState {
    /// Every transfer that is listed is listed once and has a status, and no other has one.
    pub open spec fn wf(&self) -> bool {
        self.transfers.wf() && listed(self@)
    }

    pub fn new() -> (state: Self)
        ensures
            state.wf(),
            state@ == (TransfersView { order: Seq::empty(), transfers: Map::empty() }),
    {
        let state = TransferUiState { order: Vec::new(), transfers: IdMap::new() };
        assert(state@.order =~= Seq::<Seq<char>>::empty());
        assert(state@.transfers =~= Map::<Seq<char>, StatusView>::empty());
        assert(state@.order.to_set() =~= state@.transfers.dom());
        state
    }

    fn begin(
        &mut self,
        transfer_id: String,
        file_name: String,
        total_chunks: usize,
        total_size: u64,
        direction: TransferDirection,
    )
        requires
            old(self).wf(),
        ensures
            final(self).wf(),
            final(self)@ == with_begun(
                old(self)@,
                begun_status(transfer_id@, file_name@, total_chunks, total_size, direction),
            ),
    {
        let ghost t = self@;
        if !list_contains(&self.order, transfer_id.as_str()) {
            let ghost before = self.order@;
            self.order.push(transfer_id.clone());
            assert(views(self.order@) =~= views(before).push(transfer_id@));
        }
        let status = TransferStatus {
            transfer_id: transfer_id.clone(),
            file_name,
            total_chunks,
            acked_chunks: 0,
            total_size,
            direction,
            stage: TransferStage::Active,
            detail: None,
        };
        let ghost key = transfer_id@;
        let ghost view = status@;
        self.transfers.insert(transfer_id, status);
        proof {
            assert(self@.transfers =~= t.transfers.insert(key, view));
            assert(self@ =~= with_begun(t, view));
            lemma_listed_begun(t, view);
        }
    }

    /// Takes an event in: what the user is told of it.
    pub fn apply(&mut self, event: LocalUiEvent) -> (told: Option<String>)
        requires
            old(self).wf(),
        ensures
            final(self).wf(),
            final(self)@ == applied(old(self)@, event@).0,
            match (told, applied(old(self)@, event@).1) {
                (Some(o), Some(v)) => o@ == v,
                (None, None) => true,
                _ => false,
            },
    {
        match event {
            LocalUiEvent::TransferBegin { transfer_id, file_name, total_chunks, total_size } => {
                self.begin(
                    transfer_id,
                    file_name,
                    total_chunks,
                    total_size,
                    TransferDirection::Sending,
                );
                None
            },
            LocalUiEvent::TransferProgress { transfer_id, acked_chunks, total_chunks } => {
                self.progress_incoming(transfer_id.as_str(), acked_chunks, total_chunks);
                None
            },
            LocalUiEvent::TransferDone { transfer_id } => {
                self.finish(transfer_id.as_str(), "server acked");
                None
            },
            LocalUiEvent::TransferFailed { transfer_id, reason } => {
                let file_name = match self.transfers.get(transfer_id.as_str()) {
                    Some(status) => status.file_name.clone(),
                    None => transfer_id.clone(),
                };
                self.fail_incoming(transfer_id.as_str(), reason.as_str());
                let mut told = joined("传输失败: ", file_name.as_str());
                told.append(" - ");
                told.append(reason.as_str());
                Some(told)
            },
            LocalUiEvent::EchoText { .. } => None,
            LocalUiEvent::EchoAttachment { .. } => None,
            LocalUiEvent::Notice(message) => Some(message),
        }
    }

    pub fn begin_incoming(
        &mut self,
        transfer_id: String,
        file_name: String,
        total_chunks: usize,
        total_size: u64,
    )
        requires
            old(self).wf(),
        ensures
            final(self).wf(),
            final(self)@ == with_begun(
                old(self)@,
                begun_status(
                    transfer_id@,
                    file_name@,
                    total_chunks,
                    total_size,
                    TransferDirection::Receiving,
                ),
            ),
    {
        self.begin(transfer_id, file_name, total_chunks, total_size, TransferDirection::Receiving);
    }

    pub fn progress_incoming(
        &mut self,
        transfer_id: &str,
        received_chunks: usize,
        total_chunks: usize,
    )
        requires
            old(self).wf(),
        ensures
            final(self).wf(),
            final(self)@ == with_progress(
                old(self)@,
                transfer_id@,
                received_chunks,
                total_chunks,
            ),
    {
        let ghost t = self@;
        match self.transfers.get_mut(transfer_id) {
            Some(status) => {
                status.acked_chunks = received_chunks;
                status.total_chunks = total_chunks;
                status.stage = TransferStage::Active;
                status.detail = None;
            },
            None => {},
        }
        assert(self@.transfers =~= with_progress(
            t,
            transfer_id@,
            received_chunks,
            total_chunks,
        ).transfers);
        assert(self@.transfers.dom() =~= t.transfers.dom());
    }

    fn finish(&mut self, transfer_id: &str, detail: &str)
        requires
            old(self).wf(),
        ensures
            final(self).wf(),
            final(self)@ == with_done(old(self)@, transfer_id@, detail@),
    {
        let ghost t = self@;
        match self.transfers.get_mut(transfer_id) {
            Some(status) => {
                status.acked_chunks = status.total_chunks;
                status.stage = TransferStage::Done;
                status.detail = Some(detail.to_owned());
            },
            None => {},
        }
        assert(self@.transfers =~= with_done(t, transfer_id@, detail@).transfers);
        assert(self@.transfers.dom() =~= t.transfers.dom());
    }

    pub fn finish_incoming(&mut self, transfer_id: &str)
        requires
            old(self).wf(),
        ensures
            final(self).wf(),
            final(self)@ == with_done(old(self)@, transfer_id@, "received"@),
    {
        self.finish(transfer_id, "received");
    }

    pub fn fail_incoming(&mut self, transfer_id: &str, reason: &str)
        requires
            old(self).wf(),
        ensures
            final(self).wf(),
            final(self)@ == with_failed(old(self)@, transfer_id@, reason@),
    {
        let ghost t = self@;
        match self.transfers.get_mut(transfer_id) {
            Some(status) => {
                status.stage = TransferStage::Failed;
                status.detail = Some(reason.to_owned());
            },
            None => {},
        }
        assert(self@.transfers =~= with_failed(t, transfer_id@, reason@).transfers);
        assert(self@.transfers.dom() =~= t.transfers.dom());
    }

    /// The lines of the latest transfers, the latest first.
    pub fn lines(&self, limit: usize) -> (lines: Vec<String>)
        requires
            self.wf(),
        ensures
            views(lines@) == transfer_lines(self@.order, self@.transfers, limit as nat),
    {
        let ghost order = self@.order;
        let ghost all = transfer_lines(order, self@.transfers, limit as nat);
        let mut lines: Vec<String> = Vec::new();
        let mut i: usize = self.order.len();
        let mut left: usize = limit;
        assert(order.take(i as int) =~= order);
        assert(views(lines@) + all =~= all);
        while i > 0 && left > 0
            invariant
                i <= self.order@.len(),
                self.wf(),
                order == views(self.order@),
                views(lines@) + transfer_lines(
                    order.take(i as int),
                    self@.transfers,
                    left as nat,
                ) == all,
            decreases i,
        {
            let ghost before = lines@;
            let id = self.order[i - 1].as_str();
            proof {
                assert(order[i - 1] == id@);
                assert(order.take(i as int).last() == id@);
                assert(order.take(i as int).drop_last() =~= order.take(i - 1));
            }
            let ghost rest = transfer_lines(order.take(i - 1), self@.transfers, (left - 1) as nat);
            match self.transfers.get(id) {
                Some(s) => {
                    let detail = match &s.detail {
                        Some(d) => Some(d.as_str()),
                        None => None,
                    };
                    let line = render_transfer_line(
                        s.file_name.as_str(),
                        s.total_size,
                        s.direction,
                        s.stage,
                        s.acked_chunks,
                        s.total_chunks,
                        detail,
                    );
                    let ghost l = line@;
                    lines.push(line);
                    assert(self@.transfers[id@] == s@);
                    assert(views(lines@) =~= views(before).push(l));
                    assert(views(before).push(l) + rest =~= views(before) + (seq![l] + rest));
                },
                None => {},
            }
            i -= 1;
            left -= 1;
        }
        proof {
            let rest = transfer_lines(order.take(i as int), self@.transfers, left as nat);
            assert(rest =~= Seq::<Seq<char>>::empty());
            assert(views(lines@) + rest =~= views(lines@));
        }
        lines
    }
}

impl Default for TransferUiState {
    fn default() -> (state: Self)
        ensures
            state.wf(),
            state@ == (TransfersView { order: Seq::empty(), transfers: Map::empty() }),
    {
        TransferUiState::new()
    }
}

/// What is being received, and the commits that wait for their turn.
#[derive(Debug)]
pub struct ReceiverState {
    pub attachments: AttachmentReceiveState,
    pub pending_epoch_commits: Vec<EpochCommit>,
}

pub open spec fn commit_views(v: Seq<EpochCommit>) -> Seq<CommitView> {
    v.map_values(|c: EpochCommit| c@)
}

impl ReceiverState {
    pub open spec fn wf(&self) -> bool {
        self.attachments.wf() && self.pending_epoch_commits@.len() <= PENDING_EPOCH_COMMIT_LIMIT
    }

    pub fn new() -> (state: Self)
        ensures
            state.wf(),
            state.attachments@ == IncomingMap::empty(),
            state.pending_epoch_commits@.len() == 0,
    {
        ReceiverState {
            attachments: AttachmentReceiveState::new(),
            pending_epoch_commits: Vec::new(),
        }
    }
}

impl Default for ReceiverState {
    fn default() -> (state: Self)
        ensures
            state.wf(),
            state.attachments@ == IncomingMap::empty(),
            state.pending_epoch_commits@.len() == 0,
    {
        ReceiverState::new()
    }
}

fn same_wrapped(a: &WrappedEpochSecret, b: &WrappedEpochSecret) -> (same: bool)
    ensures
        same == (a@ == b@),
{
    let same = same_text(a.recipient_id.as_str(), b.recipient_id.as_str()) && same_bytes(
        a.proposer_x25519_pub.as_slice(),
        b.proposer_x25519_pub.as_slice(),
    ) && same_bytes(a.nonce.as_slice(), b.nonce.as_slice()) && same_bytes(
        a.ciphertext.as_slice(),
        b.ciphertext.as_slice(),
    );
    proof {
        if same {
            assert(a@ =~= b@);
        }
    }
    same
}

fn same_commit(a: &EpochCommit, b: &EpochCommit) -> (same: bool)
    ensures
        same == (a@ == b@),
{
    if a.old_epoch != b.old_epoch || a.new_epoch != b.new_epoch || a.event_type != b.event_type
        || a.proposer_attempt != b.proposer_attempt || !same_text(
        a.group_id.as_str(),
        b.group_id.as_str(),
    ) || !same_text(a.affected_member_id.as_str(), b.affected_member_id.as_str()) || !same_text(
        a.old_roster_hash.as_str(),
        b.old_roster_hash.as_str(),
    ) || !same_text(a.new_roster_hash.as_str(), b.new_roster_hash.as_str()) || !same_text(
        a.proposer_id.as_str(),
        b.proposer_id.as_str(),
    ) || a.wrapped_secrets.len() != b.wrapped_secrets.len() {
        assert(a@.wrapped_secrets.len() == a.wrapped_secrets@.len());
        assert(b@.wrapped_secrets.len() == b.wrapped_secrets@.len());
        return false;
    }
    let mut i: usize = 0;
    while i < a.wrapped_secrets.len()
        invariant
            i <= a.wrapped_secrets@.len(),
            a.wrapped_secrets@.len() == b.wrapped_secrets@.len(),
            forall|k: int|
                0 <= k < i ==> (#[trigger] a.wrapped_secrets@[k])@ == b.wrapped_secrets@[k]@,
        decreases a.wrapped_secrets.len() - i,
    {
        if !same_wrapped(&a.wrapped_secrets[i], &b.wrapped_secrets[i]) {
            assert(a@.wrapped_secrets[i as int] != b@.wrapped_secrets[i as int]);
            return false;
        }
        i += 1;
    }
    assert(a@.wrapped_secrets =~= b@.wrapped_secrets);
    assert(a@ =~= b@);
    true
}

/// The waiting commits with one more, unless it waits already. When there are too many, the oldest
/// goes.
pub open spec fn queued(commits: Seq<CommitView>, c: CommitView) -> Seq<CommitView> {
    if commits.contains(c) {
        commits
    } else if commits.push(c).len() > PENDING_EPOCH_COMMIT_LIMIT {
        commits.push(c).remove(0)
    } else {
        commits.push(c)
    }
}

pub fn queue_pending_epoch_commit(state: &mut ReceiverState, commit: EpochCommit)
    requires
        old(state).wf(),
    ensures
        final(state).wf(),
        final(state).attachments == old(state).attachments,
        commit_views(final(state).pending_epoch_commits@) == queued(
            commit_views(old(state).pending_epoch_commits@),
            commit@,
        ),
{
    let ghost before = state.pending_epoch_commits@;
    let mut i: usize = 0;
    while i < state.pending_epoch_commits.len()
        invariant
            i <= before.len(),
            *state == *old(state),
            state.wf(),
            before == state.pending_epoch_commits@,
            forall|k: int| 0 <= k < i ==> (#[trigger] before[k])@ != commit@,
        decreases before.len() - i,
    {
        if same_commit(&state.pending_epoch_commits[i], &commit) {
            assert(commit_views(before)[i as int] == commit@);
            return ;
        }
        i += 1;
    }
    let ghost c = commit@;
    proof {
        if commit_views(before).contains(c) {
            let k = choose|k: int| 0 <= k < commit_views(before).len()
                && commit_views(before)[k] == c;
            assert(before[k]@ == c);
        }
    }
    state.pending_epoch_commits.push(commit);
    assert(commit_views(state.pending_epoch_commits@) =~= commit_views(before).push(c));
    if state.pending_epoch_commits.len() > PENDING_EPOCH_COMMIT_LIMIT {
        let ghost all = state.pending_epoch_commits@;
        state.pending_epoch_commits.remove(0);
        assert(commit_views(state.pending_epoch_commits@) =~= commit_views(all).remove(0));
    }
}

/// What trying the waiting commits in turn does: the group that results, the commits that still
/// wait, and whether one was applied. `fresh` holds a new key for each commit.
pub open spec fn retried(g: GroupView, commits: Seq<CommitView>, now: i64, fresh: Seq<Seq<u8>>) -> (
    GroupView,
    Seq<CommitView>,
    bool,
)
    decreases commits.len(),
{
    if commits.len() == 0 {
        (g, Seq::empty(), false)
    } else {
        let before = retried(g, commits.drop_last(), now, fresh);
        let r = committed(before.0, commits.last(), now, fresh[commits.len() - 1]);
        match r.0 {
            Ok(true) => (r.1, before.1, true),
            Ok(false) => (r.1, before.1, before.2),
            Err(_) => (r.1, before.1.push(commits.last()), before.2),
        }
    }
}

pub open spec fn secret_views(v: Seq<[u8; 32]>) -> Seq<Seq<u8>> {
    v.map_values(|k: [u8; 32]| k@)
}

/// Tries the waiting commits: whether one was applied.
pub fn retry_pending_epoch_commits(
    state: &mut ReceiverState,
    group: &mut GroupCryptoState,
    now: i64,
    fresh: &Vec<[u8; 32]>,
) -> (applied: bool)
    requires
        old(state).wf(),
        old(group).wf(),
        fresh@.len() >= PENDING_EPOCH_COMMIT_LIMIT,
    ensures
        final(state).wf(),
        final(group).wf(),
        final(state).attachments == old(state).attachments,
        (final(group)@, commit_views(final(state).pending_epoch_commits@), applied) == retried(
            old(group)@,
            commit_views(old(state).pending_epoch_commits@),
            now,
            secret_views(fresh@),
        ),
{
    let ghost all = commit_views(state.pending_epoch_commits@);
    let ghost g0 = group@;
    let ghost f = secret_views(fresh@);
    let mut rest: Vec<EpochCommit> = Vec::new();
    std::mem::swap(&mut rest, &mut state.pending_epoch_commits);
    let mut applied = false;
    let mut i: usize = 0;
    proof {
        assert(all.take(0) =~= Seq::<CommitView>::empty());
        assert(commit_views(state.pending_epoch_commits@) =~= Seq::<CommitView>::empty());
    }
    while rest.len() > 0
        invariant
            i + rest@.len() == all.len(),
            all.len() <= PENDING_EPOCH_COMMIT_LIMIT,
            fresh@.len() >= PENDING_EPOCH_COMMIT_LIMIT,
            f == secret_views(fresh@),
            group.wf(),
            state.wf(),
            state.attachments == old(state).attachments,
            state.pending_epoch_commits@.len() <= i,
            commit_views(rest@) == all.skip(i as int),
            (group@, commit_views(state.pending_epoch_commits@), applied) == retried(
                g0,
                all.take(i as int),
                now,
                f,
            ),
        decreases rest.len(),
    {
        let ghost before = rest@;
        let ghost kept = state.pending_epoch_commits@;
        let commit = rest.remove(0);
        proof {
            assert(commit_views(before)[0] == commit@);
            assert(all.skip(i as int)[0] == all[i as int]);
            assert(commit_views(rest@) =~= commit_views(before).drop_first());
            assert(all.skip(i as int).drop_first() =~= all.skip(i + 1));
            assert(all.take(i + 1).drop_last() =~= all.take(i as int));
            assert(all.take(i + 1).last() == commit@);
            assert(f[i as int] == fresh@[i as int]@);
        }
        match group.apply_epoch_commit_with(&commit, now, fresh[i]) {
            Ok(done) => {
                if done {
                    applied = true;
                }
            },
            Err(_) => {
                let ghost c = commit@;
                state.pending_epoch_commits.push(commit);
                assert(commit_views(state.pending_epoch_commits@) =~= commit_views(kept).push(c));
            },
        }
        i += 1;
    }
    assert(all.take(i as int) =~= all);
    applied
}

/// A text message as it is shown.
pub open spec fn text_line(sender: Seq<char>, body: Seq<char>, hms: Seq<char>) -> Seq<char> {
    "["@ + sender + "] ["@ + hms + "] "@ + body
}

pub fn format_text_message(sender: &str, body: &str, hms: &str) -> (line: String)
    ensures
        line@ == text_line(sender@, body@, hms@),
{
    let mut line = joined("[", sender);
    line.append("] [");
    line.append(hms);
    line.append("] ");
    line.append(body);
    line
}

/// What an event shows in the conversation, and what it does to the transfers.
pub open spec fn event_shown(
    t: TransfersView,
    event: LocalEventView,
    my_name: Seq<char>,
    hms: Seq<char>,
) -> (TransfersView, Option<ChatMessageView>) {
    match event {
        LocalEventView::EchoText { body } => (
            t,
            Some(ChatMessageView::Text(text_line(my_name, body, hms))),
        ),
        LocalEventView::EchoAttachment { attachment_id, file_name, total_size, kind } => (
            t,
            Some(
                ChatMessageView::Attachment {
                    attachment_id,
                    sender: my_name,
                    ts: hms,
                    name: file_name,
                    size: total_size,
                    kind,
                },
            ),
        ),
        other => {
            let a = applied(t, other);
            (
                a.0,
                match a.1 {
                    Some(notice) => Some(
                        ChatMessageView::Text(text_line("System"@, notice, hms)),
                    ),
                    None => None,
                },
            )
        },
    }
}

/// Whether a message is the expected one.
pub open spec fn message_is(m: Option<ChatMessage>, v: Option<ChatMessageView>) -> bool {
    match (m, v) {
        (Some(o), Some(x)) => o@ == x,
        (None, None) => true,
        _ => false,
    }
}

pub fn handle_local_ui_event(
    event: LocalUiEvent,
    my_name: &str,
    transfers: &mut TransferUiState,
    hms: &str,
) -> (message: Option<ChatMessage>)
    requires
        old(transfers).wf(),
    ensures
        final(transfers).wf(),
        final(transfers)@ == event_shown(old(transfers)@, event@, my_name@, hms@).0,
        message_is(message, event_shown(old(transfers)@, event@, my_name@, hms@).1),
{
    match event {
        LocalUiEvent::EchoText { body } => Some(
            ChatMessage::Text(format_text_message(my_name, body.as_str(), hms)),
        ),
        LocalUiEvent::EchoAttachment { attachment_id, file_name, total_size, kind } => Some(
            ChatMessage::Attachment {
                attachment_id,
                sender: my_name.to_owned(),
                ts: hms.to_owned(),
                name: file_name,
                size: total_size,
                kind,
            },
        ),
        other => {
            match transfers.apply(other) {
                Some(notice) => Some(
                    ChatMessage::Text(format_text_message("System", notice.as_str(), hms)),
                ),
                None => None,
            }
        },
    }
}

/// What one event of a transfer does to the list, and what it shows.
pub open spec fn receive_event_shown(
    t: TransfersView,
    shown: Option<ChatMessageView>,
    event: ReceiveEventView,
    hms: Seq<char>,
) -> (TransfersView, Option<ChatMessageView>) {
    match event {
        ReceiveEventView::Begin { transfer_id, file_name, total_chunks, total_size } => (
            with_begun(
                t,
                begun_status(
                    transfer_id,
                    file_name,
                    total_chunks as usize,
                    total_size,
                    TransferDirection::Receiving,
                ),
            ),
            shown,
        ),
        ReceiveEventView::Progress { transfer_id, received_chunks, total_chunks } => (
            with_progress(t, transfer_id, received_chunks as usize, total_chunks as usize),
            shown,
        ),
        ReceiveEventView::Complete(c) => (
            with_done(t, c.transfer_id, "received"@),
            Some(
                ChatMessageView::Attachment {
                    attachment_id: c.attachment_id,
                    sender: c.sender,
                    ts: hms,
                    name: c.file_name,
                    size: c.total_size,
                    kind: c.kind,
                },
            ),
        ),
    }
}

/// What the events of a transfer do to the list, and what they show.
pub open spec fn receive_events_shown(
    t: TransfersView,
    events: Seq<ReceiveEventView>,
    hms: Seq<char>,
) -> (TransfersView, Option<ChatMessageView>)
    decreases events.len(),
{
    if events.len() == 0 {
        (t, None)
    } else {
        let before = receive_events_shown(t, events.drop_last(), hms);
        receive_event_shown(before.0, before.1, events.last(), hms)
    }
}

/// What the outcome of a line about an attachment does to the list, and what it shows.
pub open spec fn receive_shown(
    t: TransfersView,
    result: Result<Seq<ReceiveEventView>, ReceiveFault>,
    hms: Seq<char>,
) -> (TransfersView, Option<ChatMessageView>) {
    match result {
        Ok(events) => receive_events_shown(t, events, hms),
        Err(fault) => (
            t,
            Some(ChatMessageView::Text(text_line("System"@, fault_text(fault), hms))),
        ),
    }
}

pub fn apply_attachment_events(
    events: Vec<AttachmentReceiveEvent>,
    transfers: &mut TransferUiState,
    hms: &str,
) -> (message: Option<ChatMessage>)
    requires
        old(transfers).wf(),
    ensures
        final(transfers).wf(),
        final(transfers)@ == receive_events_shown(old(transfers)@, event_views(events@), hms@).0,
        message_is(
            message,
            receive_events_shown(old(transfers)@, event_views(events@), hms@).1,
        ),
{
    let ghost all = event_views(events@);
    let ghost t0 = transfers@;
    let mut rest = events;
    let mut message: Option<ChatMessage> = None;
    let ghost mut i: int = 0;
    proof {
        assert(all.take(0) =~= Seq::<ReceiveEventView>::empty());
        assert(all.skip(0) =~= all);
    }
    while rest.len() > 0
        invariant
            0 <= i <= all.len(),
            i + rest@.len() == all.len(),
            event_views(rest@) == all.skip(i),
            transfers.wf(),
            transfers@ == receive_events_shown(t0, all.take(i), hms@).0,
            message_is(message, receive_events_shown(t0, all.take(i), hms@).1),
        decreases rest.len(),
    {
        let ghost before = rest@;
        let event = rest.remove(0);
        proof {
            assert(event_views(before)[0] == event@);
            assert(all.skip(i)[0] == all[i]);
            assert(event_views(rest@) =~= event_views(before).drop_first());
            assert(all.skip(i).drop_first() =~= all.skip(i + 1));
            assert(all.take(i + 1).drop_last() =~= all.take(i));
            assert(all.take(i + 1).last() == event@);
            i = i + 1;
        }
        match event {
            AttachmentReceiveEvent::Begin { transfer_id, file_name, total_chunks, total_size } => {
                transfers.begin_incoming(transfer_id, file_name, total_chunks, total_size);
            },
            AttachmentReceiveEvent::Progress { transfer_id, received_chunks, total_chunks } => {
                transfers.progress_incoming(transfer_id.as_str(), received_chunks, total_chunks);
            },
            AttachmentReceiveEvent::Complete(complete) => {
                transfers.finish_incoming(complete.transfer_id.as_str());
                message = Some(
                    ChatMessage::Attachment {
                        attachment_id: complete.attachment_id,
                        sender: complete.sender,
                        ts: hms.to_owned(),
                        name: complete.file_name,
                        size: complete.total_size,
                        kind: complete.kind,
                    },
                );
            },
        }
    }
    assert(all.take(i) =~= all);
    message
}

pub fn attachment_result_to_message(
    result: Result<Vec<AttachmentReceiveEvent>, ReceiveError>,
    transfers: &mut TransferUiState,
    hms: &str,
) -> (message: Option<ChatMessage>)
    requires
        old(transfers).wf(),
    ensures
        final(transfers).wf(),
        forall|v: Result<Seq<ReceiveEventView>, ReceiveFault>| #[trigger]
            receive_result_is(result, v) ==> final(transfers)@ == receive_shown(
                old(transfers)@,
                v,
                hms@,
            ).0 && message_is(message, receive_shown(old(transfers)@, v, hms@).1),
{
    match result {
        Ok(events) => apply_attachment_events(events, transfers, hms),
        Err(e) => {
            let text = e.message();
            Some(ChatMessage::Text(format_text_message("System", text.as_str(), hms)))
        },
    }
}

/// Whether a line only serves the connection.
pub open spec fn is_unframed_control(line: Seq<char>) -> bool {
    !"["@.is_prefix_of(line) && (line == "/ping_ack"@ || line == "/ping"@ || line == "OK"@
        || "OK "@.is_prefix_of(line) || "/ACK "@.is_prefix_of(line) || "INVITE_OK "@.is_prefix_of(
        line,
    ))
}

pub fn should_drop_unframed_control_line(line: &str) -> (yes: bool)
    ensures
        yes == is_unframed_control(line@),
{
    !starts_with(line, "[") && (same_text(line, "/ping_ack") || same_text(line, "/ping")
        || same_text(line, "OK") || starts_with(line, "OK ") || starts_with(line, "/ACK ")
        || starts_with(line, "INVITE_OK "))
}

} // verus!
