//! What the lines of a conversation do, coming in and going out.
use crate::attachments::receiver::{fault_text, IncomingMap, ReceiveEventView, ReceiveFault};
use crate::attachments::store::StoreView;
use crate::client::drain::{
    attachment_taken, batch_ends, line_taken, lines_taken, member_pairs, quiet, remote_taken, said,
    settled, with_line, ChatView, EnvView,
};
use crate::client::input::{about_attachment, classified, PayloadView};
use crate::client::keyboard::QUIT_LINE;
use crate::client::network::{
    answered, outgoing, received, routed, text_sent, OutgoingView, RequestsView,
};
use crate::client::receiver::{
    applied, event_shown, is_unframed_control, pushed, queued, receive_event_shown, receive_shown,
    retried, text_line, with_begun, with_done, with_failed, with_progress, ChatMessageView,
    StatusView, TransfersView,
};
use crate::crypto::error::CryptoError;
use crate::crypto::group::{
    announced, committed, decrypted, encrypted, sound, with_members, GroupView,
};
use crate::crypto::laws::law_roster_follows_list;
use crate::crypto::messages::{message_tree, CommitView, SecureMessageType};
use crate::crypto::transport::{transport_opened, OpenView, TransportView};
use crate::outside::json::json_bytes;
use crate::protocol::attachment::frame_of;
use crate::protocol::invite::{invite_error_parts, invite_token_parts};
use crate::protocol::line::{
    display_parts, epoch_commit_of_line, key_announce_of_line, rmsg_of_line, tagged_line,
};
use crate::protocol::local_event::{
    echo_text_line, local_event_of, local_invite_parts, LocalEventView,
};
use crate::protocol::member::listed_members;
use crate::transport::packet::{is_control, AckView};
use crate::ui::help::{TransferDirection, TransferStage};
use crate::ui::laws::lemma_occurs_inside;
use crate::ui::row_laws::lemma_occurs_between;
use crate::util::text::{occurs, value_after};
use vstd::prelude::*;
use vstd::utf8::encode_utf8;

verus! {

/// A message is added behind the others. Below the limit all stay; beyond it the oldest hundred go
/// and the rest keep their order.
pub proof fn law_message_is_added_at_the_end(messages: Seq<ChatMessageView>, m: ChatMessageView)
    ensures
        messages.len() < 500 ==> pushed(messages, m) == messages.push(m),
        messages.len() >= 500 ==> pushed(messages, m) == messages.skip(100).push(m),
{
    if messages.len() >= 500 {
        assert(messages.push(m).skip(100) =~= messages.skip(100).push(m));
    }
}

/// A commit that came too early waits, once; the waiting commits keep their order, and only when
/// there are more than eight does the oldest go.
pub proof fn law_early_commit_waits_once(commits: Seq<CommitView>, c: CommitView)
    requires
        commits.len() <= 8,
        commits.no_duplicates(),
    ensures
        queued(commits, c).contains(c),
        queued(commits, c).no_duplicates(),
        queued(commits, c).len() <= 8,
        commits.contains(c) ==> queued(commits, c) == commits,
        !commits.contains(c) && commits.len() < 8 ==> queued(commits, c) == commits.push(c),
        !commits.contains(c) && commits.len() == 8 ==> queued(commits, c) == commits.skip(1).push(
            c,
        ),
{
    let all = commits.push(c);
    if !commits.contains(c) {
        assert forall|i: int, j: int| 0 <= i < j < all.len() implies all[i] != all[j] by {
            if j == commits.len() {
                assert(commits.contains(commits[i]));
            }
        }
        if commits.len() == 8 {
            assert(all.remove(0) =~= commits.skip(1).push(c));
            assert(all.remove(0)[7] == c);
        } else {
            assert(all[commits.len() as int] == c);
        }
    }
}

/// Trying the waiting commits: those that are still refused wait on, in their order, and nothing
/// else does. When none is followed the group is as it was. The roster stays.
pub proof fn law_waiting_commits_are_tried(
    g: GroupView,
    commits: Seq<CommitView>,
    now: i64,
    fresh: Seq<Seq<u8>>,
)
    ensures
        ({
            let (next, left, moved) = retried(g, commits, now, fresh);
            &&& left.len() <= commits.len()
            &&& forall|i: int| 0 <= i < left.len() ==> commits.contains(#[trigger] left[i])
            &&& !moved ==> next == g
            &&& next.members.dom() == g.members.dom()
            &&& next.me == g.me
            &&& next.group_id == g.group_id
        }),
        (forall|i: int|
            0 <= i < commits.len() ==> committed(g, #[trigger] commits[i], now, fresh[i]).0 is Err)
            ==> retried(g, commits, now, fresh) == (g, commits, false),
    decreases commits.len(),
{
    if commits.len() == 0 {
        assert(retried(g, commits, now, fresh).1 =~= commits);
    } else {
        let front = commits.drop_last();
        law_waiting_commits_are_tried(g, front, now, fresh);
        let before = retried(g, front, now, fresh);
        let c = commits.last();
        let r = committed(before.0, c, now, fresh[commits.len() - 1]);
        let (next, left, moved) = retried(g, commits, now, fresh);
        assert forall|i: int| 0 <= i < left.len() implies commits.contains(#[trigger] left[i]) by {
            if i < before.1.len() {
                assert(left[i] == before.1[i]);
                let k = choose|k: int| 0 <= k < front.len() && front[k] == left[i];
                assert(commits[k] == left[i]);
            } else {
                assert(commits[commits.len() - 1] == left[i]);
            }
        }
        assert(r.1.members.dom() =~= before.0.members.dom());
        if forall|i: int|
            0 <= i < commits.len() ==> committed(g, #[trigger] commits[i], now, fresh[i]).0 is Err {
            assert forall|i: int| 0 <= i < front.len() implies committed(
                g,
                #[trigger] front[i],
                now,
                fresh[i],
            ).0 is Err by {
                assert(front[i] == commits[i]);
            }
            assert(committed(g, commits[commits.len() - 1], now, fresh[commits.len() - 1]).0
                is Err);
            assert(front.push(c) =~= commits);
        }
    }
}

/// A commit that came too early is followed as soon as it can be, and then waits no more.
pub proof fn law_waiting_commit_is_followed(
    g: GroupView,
    commits: Seq<CommitView>,
    c: CommitView,
    now: i64,
    fresh: Seq<Seq<u8>>,
)
    requires
        forall|i: int|
            0 <= i < commits.len() ==> committed(g, #[trigger] commits[i], now, fresh[i]).0 is Err,
        committed(g, c, now, fresh[commits.len() as int]).0 == Ok::<bool, CryptoError>(true),
    ensures
        retried(g, commits.push(c), now, fresh) == (
            committed(g, c, now, fresh[commits.len() as int]).1,
            commits,
            true,
        ),
{
    law_waiting_commits_are_tried(g, commits, now, fresh);
    assert(commits.push(c).drop_last() =~= commits);
}

/// A list of members becomes the list that is shown and the roster of the group: those on the list
/// and the member itself, whatever commits were waiting. Nothing is said of it.
pub proof fn law_member_list_is_taken_up(c: ChatView, line: Seq<char>, e: EnvView, id: Seq<char>)
    requires
        sound(c.group),
        !is_unframed_control(line),
        listed_members(line) is Some,
    ensures
        ({
            let members = listed_members(line)->0;
            let (next, out) = line_taken(c, line, e);
            &&& next.members == members
            &&& next.messages == c.messages
            &&& out.member_list_changed
            &&& out.phase2_action_needed
            &&& !out.notify
            &&& next.group.members.contains_key(id) <==> id == c.group.me || exists|i: int|
                0 <= i < members.len() && (#[trigger] members[i]).member_id == id
        }),
{
    let members = listed_members(line)->0;
    let pairs = member_pairs(members);
    law_roster_follows_list(c.group, pairs);
    law_waiting_commits_are_tried(with_members(c.group, pairs), c.commits, e.now, e.secrets);
    let next = line_taken(c, line, e).0;
    assert(next.group.members.dom() == with_members(c.group, pairs).members.dom());
    assert(next.group.members.contains_key(id) <==> with_members(
        c.group,
        pairs,
    ).members.contains_key(id));
    if exists|i: int| 0 <= i < members.len() && (#[trigger] members[i]).member_id == id {
        let i = choose|i: int| 0 <= i < members.len() && (#[trigger] members[i]).member_id == id;
        assert(pairs[i].0 == id);
    }
    if exists|i: int| 0 <= i < pairs.len() && (#[trigger] pairs[i]).0 == id {
        let i = choose|i: int| 0 <= i < pairs.len() && (#[trigger] pairs[i]).0 == id;
        assert(members[i].member_id == id);
    }
}

/// A text that was said is shown under its sender with the time, and the user is notified of what
/// others say and not of what was said here. Nothing else changes.
pub proof fn law_said_text_is_shown(c: ChatView, sender: Seq<char>, body: Seq<char>, e: EnvView)
    requires
        frame_of(body) is None,
    ensures
        ({
            let (next, notify) = said(c, sender, body, e);
            &&& notify <==> sender != c.my_name
            &&& next.messages.len() > 0
            &&& next.messages.last() == ChatMessageView::Text(text_line(sender, body, e.hms))
            &&& next == (ChatView { messages: next.messages, ..c })
        }),
{
}

/// What the server says is shown as the system's.
pub proof fn law_server_line_is_shown(c: ChatView, line: Seq<char>, e: EnvView)
    requires
        "⚡ "@.is_prefix_of(line),
        frame_of(line) is None,
        ({
            let body = display_parts(line).1;
            &&& key_announce_of_line(body) is None
            &&& epoch_commit_of_line(body) is None
            &&& frame_of(body) is None
            &&& rmsg_of_line(body) is None
            &&& !"/RMSG "@.is_prefix_of(body)
        }),
    ensures
        ({
            let (next, out) = remote_taken(c, line, e);
            &&& next.messages.len() > 0
            &&& next.messages.last() == ChatMessageView::Text(
                text_line("System"@, line, e.hms),
            )
            &&& out.notify <==> "System"@ != c.my_name
            &&& next.group == c.group
            &&& next.members == c.members
        }),
{
}

/// A message that does not open shows nothing and notifies nobody.
pub proof fn law_unreadable_message_shows_nothing(c: ChatView, line: Seq<char>, e: EnvView)
    requires
        ({
            let body = display_parts(line).1;
            &&& key_announce_of_line(body) is None
            &&& epoch_commit_of_line(body) is None
            &&& frame_of(body) is None
            &&& "/RMSG "@.is_prefix_of(body)
            &&& rmsg_of_line(body) matches Some(m) ==> decrypted(c.group, m, e.now).0 is Err
        }),
    ensures
        ({
            let (next, out) = remote_taken(c, line, e);
            &&& next.messages == c.messages
            &&& next.members == c.members
            &&& next.transfers == c.transfers
            &&& next.incoming == c.incoming
            &&& out == quiet()
        }),
{
}

/// A key announcement goes to the group, and waiting commits are then tried; a key that was not
/// known asks for what a member has to do.
pub proof fn law_announcement_line_is_taken_up(c: ChatView, line: Seq<char>, e: EnvView)
    requires
        key_announce_of_line(display_parts(line).1) is Some,
    ensures
        ({
            let a = announced(c.group, key_announce_of_line(display_parts(line).1)->0);
            let (next, out) = remote_taken(c, line, e);
            &&& c.commits.len() == 0 ==> next.group == a.1 && next.commits.len() == 0
            &&& a.0 == Ok::<bool, CryptoError>(true) ==> out.phase2_action_needed
            &&& c.commits.len() == 0 && a.0 != Ok::<bool, CryptoError>(true)
                ==> !out.phase2_action_needed
            &&& next.messages == c.messages
            &&& !out.notify
            &&& !out.member_list_changed
        }),
{
    let a = announced(c.group, key_announce_of_line(display_parts(line).1)->0);
    law_waiting_commits_are_tried(a.1, c.commits, e.now, e.secrets);
}

/// A commit is followed; one that is refused waits. Either way nothing is shown.
pub proof fn law_commit_line_is_taken_up(c: ChatView, line: Seq<char>, e: EnvView)
    requires
        key_announce_of_line(display_parts(line).1) is None,
        epoch_commit_of_line(display_parts(line).1) is Some,
        c.commits.len() <= 8,
        c.commits.no_duplicates(),
    ensures
        ({
            let commit = epoch_commit_of_line(display_parts(line).1)->0;
            let r = committed(c.group, commit, e.now, e.secrets[0]);
            let (next, out) = remote_taken(c, line, e);
            &&& next.group == r.1
            &&& r.0 is Err ==> next.commits.contains(commit)
            &&& r.0 is Ok ==> next.commits == c.commits
            &&& out.phase2_action_needed <==> r.0 == Ok::<bool, CryptoError>(true)
            &&& next.messages == c.messages
            &&& !out.notify
        }),
{
    law_early_commit_waits_once(c.commits, epoch_commit_of_line(display_parts(line).1)->0);
}

/// One's own text is shown under one's own name, a notice as the system's, and an attachment that was
/// sent under one's own name with its file.
pub proof fn law_own_events_are_shown(
    t: TransfersView,
    event: LocalEventView,
    my_name: Seq<char>,
    hms: Seq<char>,
)
    ensures
        match event {
            LocalEventView::EchoText { body } => event_shown(t, event, my_name, hms) == (
                t,
                Some(ChatMessageView::Text(text_line(my_name, body, hms))),
            ),
            LocalEventView::Notice(text) => event_shown(t, event, my_name, hms) == (
                t,
                Some(ChatMessageView::Text(text_line("System"@, text, hms))),
            ),
            LocalEventView::EchoAttachment { attachment_id, file_name, total_size, kind } => {
                let (next, shown) = event_shown(t, event, my_name, hms);
                &&& next == t
                &&& shown matches Some(ChatMessageView::Attachment {
                    attachment_id: id,
                    sender,
                    ts,
                    name,
                    size,
                    kind: k,
                })
                &&& id == attachment_id
                &&& sender == my_name
                &&& ts == hms
                &&& name == file_name
                &&& size == total_size
                &&& k == kind
            },
            LocalEventView::TransferFailed { transfer_id, reason } => {
                let shown = event_shown(t, event, my_name, hms).1;
                &&& shown matches Some(ChatMessageView::Text(line))
                &&& occurs(reason, line)
                &&& t.transfers.contains_key(transfer_id) ==> occurs(
                    t.transfers[transfer_id].file_name,
                    line,
                )
            },
            _ => event_shown(t, event, my_name, hms).1 is None,
        },
{
    if let LocalEventView::TransferFailed { transfer_id, reason } = event {
        let who = if t.transfers.contains_key(transfer_id) {
            t.transfers[transfer_id].file_name
        } else {
            transfer_id
        };
        let none = Seq::<char>::empty();
        let head = "传输失败: "@;
        let text = head + who + " - "@ + reason;
        lemma_occurs_between(head + who + " - "@, reason, none);
        assert(text + none =~= text);
        lemma_occurs_between(head, who, " - "@ + reason);
        assert(head + who + (" - "@ + reason) =~= text);
        let line = text_line("System"@, text, hms);
        let before = "["@ + "System"@ + "] ["@ + hms + "] "@;
        lemma_occurs_inside(reason, before, text, none);
        lemma_occurs_inside(who, before, text, none);
        assert(before + text + none =~= line);
    }
}

/// News of a transfer change that transfer's status and no other: it begins with nothing done, its
/// progress is what was told, and it ends done with everything or failed with the reason.
pub proof fn law_transfer_news_are_kept(
    t: TransfersView,
    id: Seq<char>,
    other: Seq<char>,
    status: StatusView,
    done: usize,
    total: usize,
    text: Seq<char>,
)
    requires
        t.transfers.contains_key(id),
        other != id,
        status.transfer_id == id,
    ensures
        ({
            let begun = with_begun(t, status).transfers;
            let on = with_progress(t, id, done, total).transfers;
            let over = with_done(t, id, text).transfers;
            let lost = with_failed(t, id, text).transfers;
            &&& begun[id] == status
            &&& on[id].acked_chunks == done
            &&& on[id].total_chunks == total
            &&& on[id].stage == TransferStage::Active
            &&& on[id].file_name == t.transfers[id].file_name
            &&& on[id].direction == t.transfers[id].direction
            &&& over[id].stage == TransferStage::Done
            &&& over[id].acked_chunks == over[id].total_chunks
            &&& over[id].total_chunks == t.transfers[id].total_chunks
            &&& over[id].file_name == t.transfers[id].file_name
            &&& lost[id].stage == TransferStage::Failed
            &&& lost[id].detail == Some(text)
            &&& lost[id].acked_chunks == t.transfers[id].acked_chunks
            &&& lost[id].file_name == t.transfers[id].file_name
            &&& t.transfers.contains_key(other) ==> begun[other] == t.transfers[other] && on[other]
                == t.transfers[other] && over[other] == t.transfers[other] && lost[other]
                == t.transfers[other]
        }),
{
}

/// What is sent and what is received begin with nothing done, and are told apart.
pub proof fn law_transfers_begin(
    t: TransfersView,
    id: Seq<char>,
    name: Seq<char>,
    n: usize,
    size: u64,
)
    ensures
        ({
            let out = applied(
                t,
                LocalEventView::TransferBegin {
                    transfer_id: id,
                    file_name: name,
                    total_chunks: n,
                    total_size: size,
                },
            ).0.transfers[id];
            let in_ = receive_event_shown(
                t,
                None,
                ReceiveEventView::Begin {
                    transfer_id: id,
                    file_name: name,
                    total_chunks: n as nat,
                    total_size: size,
                },
                Seq::empty(),
            ).0.transfers[id];
            &&& out.direction == TransferDirection::Sending
            &&& in_.direction == TransferDirection::Receiving
            &&& out.acked_chunks == 0 && in_.acked_chunks == 0
            &&& out.total_chunks == n && in_.total_chunks == n
            &&& out.file_name == name && in_.file_name == name
            &&& out.total_size == size && in_.total_size == size
            &&& out.stage == TransferStage::Active && in_.stage == TransferStage::Active
        }),
{
}

/// A complete attachment is shown under its sender with its file, and its transfer is done. What went
/// wrong is said as the system's.
pub proof fn law_complete_attachment_is_shown(
    t: TransfersView,
    shown: Option<ChatMessageView>,
    event: ReceiveEventView,
    fault: ReceiveFault,
    hms: Seq<char>,
)
    ensures
        event matches ReceiveEventView::Complete(c) ==> {
            let (next, m) = receive_event_shown(t, shown, event, hms);
            &&& m == Some(
                ChatMessageView::Attachment {
                    attachment_id: c.attachment_id,
                    sender: c.sender,
                    ts: hms,
                    name: c.file_name,
                    size: c.total_size,
                    kind: c.kind,
                },
            )
            &&& t.transfers.contains_key(c.transfer_id) ==> next.transfers[c.transfer_id].stage
                == TransferStage::Done
        },
        event !is Complete ==> receive_event_shown(t, shown, event, hms).1 == shown,
        receive_shown(t, Err(fault), hms) == (
            t,
            Some(ChatMessageView::Text(text_line("System"@, fault_text(fault), hms))),
        ),
{
}

/// The notifications of a batch are those of its lines, and what one line asks for the batch asks
/// for.
pub proof fn law_batch_adds_up(
    c: ChatView,
    lines: Seq<Seq<char>>,
    envs: Seq<EnvView>,
    line: Seq<char>,
    e: EnvView,
)
    requires
        lines.len() == envs.len(),
    ensures
        ({
            let before = lines_taken(c, lines, envs);
            let (chat, out) = line_taken(before.chat, line, e);
            let after = lines_taken(c, lines.push(line), envs.push(e));
            &&& after.chat == chat
            &&& after.notifications == before.notifications + (if out.notify {
                1int
            } else {
                0
            })
            &&& after.member_list_changed <==> before.member_list_changed
                || out.member_list_changed
            &&& after.phase2_action_needed <==> before.phase2_action_needed
                || out.phase2_action_needed
            &&& after.last_local == out.local
        }),
        lines_taken(c, Seq::empty(), Seq::empty()).chat == c,
        lines_taken(c, Seq::empty(), Seq::empty()).notifications == 0,
{
    assert(lines.push(line).drop_last() =~= lines);
    assert(envs.push(e).drop_last() =~= envs);
    reveal(with_line);
}

/// A batch ends before its lines do only when an attachment is to be written or a hundred and
/// twenty-eight lines have been taken, and then not behind a line from this machine.
pub proof fn law_batch_ends_when_full(
    c: ChatView,
    lines: Seq<Seq<char>>,
    envs: Seq<EnvView>,
    done: nat,
    n: int,
)
    requires
        0 <= n <= lines.len(),
        n <= envs.len(),
    ensures
        ({
            let b = lines_taken(c, lines.take(n), envs.take(n));
            &&& b.chat.awaited is Some ==> batch_ends(c, lines, envs, done, n)
            &&& b.chat.awaited is None && done + n < 128 ==> !batch_ends(c, lines, envs, done, n)
            &&& b.chat.awaited is None && b.last_local ==> !batch_ends(c, lines, envs, done, n)
            &&& done + n >= 128 && !b.last_local ==> batch_ends(c, lines, envs, done, n)
        }),
{
}

/// A line from the server that opens is an acknowledgement, an answer to a request, a line that only
/// serves the connection, or is shown; it is one of these, and does nothing else.
pub proof fn law_server_lines_are_routed(a: AckView, m: RequestsView, plain: Seq<char>)
    ensures
        ({
            let (acks, requests, shown) = routed(a, m, plain);
            &&& is_control(plain) ==> acks == a && requests == m && shown is None
            &&& !is_control(plain) && value_after(plain, "/ACK "@) is Some ==> {
                let id = value_after(plain, "/ACK "@)->0;
                &&& acks.acked.contains(id)
                &&& acks.waiting == a.waiting
                &&& forall|other: Seq<char>|
                    other != id ==> (#[trigger] acks.acked.contains(other) <==> a.acked.contains(
                        other,
                    ))
                &&& requests == m
                &&& shown is None
            }
            &&& !is_control(plain) && value_after(plain, "/ACK "@) is None && (invite_token_parts(
                plain,
            ) is Some || invite_error_parts(plain) is Some) ==> acks == a && shown is None
            &&& !is_control(plain) && value_after(plain, "/ACK "@) is None && invite_token_parts(
                plain,
            ) is None && invite_error_parts(plain) is None ==> acks == a && requests == m && shown
                == Some(plain)
        }),
{
}

/// An answer is kept for the request that it answers, if that is waited for, and for no other.
pub proof fn law_answer_reaches_its_request(
    m: RequestsView,
    id: Seq<char>,
    response: Result<(Seq<char>, i64), Seq<char>>,
    other: Seq<char>,
)
    ensures
        ({
            let next = answered(m, id, response);
            &&& next.dom() == m.dom()
            &&& m.contains_key(id) ==> next[id].response == Some(response)
            &&& m.contains_key(id) ==> next[id].server_addr == m[id].server_addr
            &&& m.contains_key(id) ==> next[id].blob_key_b64 == m[id].blob_key_b64
            &&& other != id && m.contains_key(other) ==> next[other] == m[other]
        }),
{
    assert(answered(m, id, response).dom() =~= m.dom());
}

/// A line that opens as the next one is routed; one that does not open does nothing.
pub proof fn law_fresh_line_is_routed(
    t: TransportView,
    a: AckView,
    m: RequestsView,
    line: Seq<char>,
)
    ensures
        transport_opened(t, line).0 matches Some(OpenView::Fresh(plain)) ==> received(
            t,
            a,
            m,
            line,
        ) == routed(a, m, plain),
        transport_opened(t, line).0 is None ==> received(t, a, m, line) == (
            a,
            m,
            None::<Seq<char>>,
        ),
{
}

/// A text goes out encrypted for the group, never as it is, and is shown here; where the group has no
/// epoch nothing goes out and the user is told. Lines about the group's keys go as they are.
pub proof fn law_text_goes_out_encrypted(g: GroupView, plain: Seq<char>, id: Seq<char>, now: i64)
    requires
        !"/KEY_ANNOUNCE "@.is_prefix_of(plain),
        !"/EPOCH_COMMIT "@.is_prefix_of(plain),
    ensures
        ({
            let (next, out) = text_sent(g, plain, id, now);
            let e = encrypted(g, SecureMessageType::Text, encode_utf8(plain), now);
            &&& next == e.1
            &&& e.0 is Err ==> out is Show
            &&& e.0 is Ok ==> {
                &&& out matches OutgoingView::Send { packet_id, payload, echo }
                &&& packet_id == "msg-"@ + id
                &&& payload == tagged_line("/RMSG"@, json_bytes(message_tree(e.0->Ok_0)))
                &&& echo == Some("/LOCALECHO "@ + echo_text_line(plain))
            }
        }),
{
}

/// What is typed goes where it belongs: the line that ends the conversation ends it, a line for the
/// display is shown, a request for an invite is made, a file is queued, a refused command is told,
/// and anything else is sent as text. Only a text uses the group.
pub proof fn law_typed_line_goes_where_it_belongs(
    g: GroupView,
    text: Seq<char>,
    is_file: bool,
    id: Seq<char>,
    now: i64,
)
    ensures
        ({
            let (next, out) = outgoing(g, text, is_file, id, now);
            let own = text == QUIT_LINE@ || local_event_of(text) is Some || local_invite_parts(
                text,
            ) is Some;
            let what = classified(text, about_attachment(text), is_file);
            &&& out is Quit <==> text == QUIT_LINE@
            &&& text != QUIT_LINE@ && local_event_of(text) is Some ==> out == OutgoingView::Show(
                text,
            )
            &&& text != QUIT_LINE@ && local_event_of(text) is None && local_invite_parts(
                text,
            ) is Some ==> out is Invite
            &&& !own && what is Err ==> out is Show
            &&& !own ==> (what matches Ok(PayloadView::AttachmentPath(path)) ==> out
                matches OutgoingView::Queue { path: p, .. } && p == path)
            &&& !own ==> (what matches Ok(PayloadView::Text(plain)) ==> (next, out) == text_sent(
                g,
                plain,
                id,
                now,
            ))
            &&& own || !(what matches Ok(PayloadView::Text(_))) ==> next == g
        }),
{
}

/// What is said, listed, told by the server or made here is never taken for a line that only serves
/// the connection.
pub proof fn law_talk_is_no_control(rest: Seq<char>)
    ensures
        !is_unframed_control("["@ + rest),
        !is_unframed_control("⚡ "@ + rest),
        !is_unframed_control("/member_list "@ + rest),
        !is_unframed_control("/LOCAL"@ + rest),
        !is_control("["@ + rest),
        !is_control("⚡ "@ + rest),
        !is_control("/member_list "@ + rest),
        !is_control("/ACK "@ + rest),
        !is_control("/INVITE_"@ + rest),
        is_control("/ping_ack"@),
        is_control("OK"@),
        is_unframed_control("/ping_ack"@),
        is_unframed_control("/ACK "@ + rest),
{
    reveal_strlit("[");
    reveal_strlit("⚡ ");
    reveal_strlit("/member_list ");
    reveal_strlit("/LOCAL");
    reveal_strlit("/ACK ");
    reveal_strlit("/INVITE_");
    reveal_strlit("/ping_ack");
    reveal_strlit("/ping");
    reveal_strlit("OK");
    reveal_strlit("OK ");
    reveal_strlit("INVITE_OK ");
    lemma_no_control("["@, rest);
    lemma_no_control("⚡ "@, rest);
    lemma_no_control("/member_list "@, rest);
    lemma_no_control("/LOCAL"@, rest);
    lemma_no_control("/ACK "@, rest);
    lemma_no_control("/INVITE_"@, rest);
    let bracket = "["@ + rest;
    assert("["@ =~= bracket.subrange(0, 1));
    let ack = "/ACK "@ + rest;
    assert("/ACK "@ =~= ack.subrange(0, 5));
    assert(ack[0] == '/');
    lemma_not_a_start("["@, ack, 0);
    lemma_not_a_start("["@, "/ping_ack"@, 0);
    lemma_not_a_start("/ACK "@, "⚡ "@ + rest, 0);
    lemma_not_a_start("/ACK "@, "/member_list "@ + rest, 1);
    lemma_not_a_start("/ACK "@, "/LOCAL"@ + rest, 1);
}

/// A text that differs from another in a place does not begin with it.
proof fn lemma_not_a_start(start: Seq<char>, line: Seq<char>, k: int)
    requires
        0 <= k < start.len(),
        k < line.len(),
        start[k] != line[k],
    ensures
        !start.is_prefix_of(line),
{
    if start.is_prefix_of(line) {
        assert(start[k] == line.subrange(0, start.len() as int)[k]);
    }
}

/// A line that begins with a mark, or with a slash and another letter than a sign of life, serves not
/// only the connection.
proof fn lemma_no_control(start: Seq<char>, rest: Seq<char>)
    requires
        start.len() > 0,
        start[0] != 'O' && start[0] != 'I',
        start[0] == '/' ==> start.len() > 1 && start[1] != 'p',
    ensures
        !is_control(start + rest),
{
    let line = start + rest;
    reveal_strlit("/ping_ack");
    reveal_strlit("/ping");
    reveal_strlit("OK");
    reveal_strlit("OK ");
    reveal_strlit("INVITE_OK ");
    assert(line[0] == start[0]);
    assert("/ping_ack"@[0] == '/' && "/ping_ack"@[1] == 'p');
    assert("/ping"@[0] == '/' && "/ping"@[1] == 'p');
    assert("OK"@[0] == 'O');
    lemma_not_a_start("OK "@, line, 0);
    lemma_not_a_start("INVITE_OK "@, line, 0);
    if start[0] == '/' {
        assert(line[1] == start[1]);
    }
}

/// A complete attachment is not shown before it is written. Once it is, it is shown, and the user is
/// notified of one that others sent; where it could not be written, the reason is said instead.
pub proof fn law_attachment_is_shown_once_written(
    c: ChatView,
    m: IncomingMap,
    store: StoreView,
    events: Seq<ReceiveEventView>,
    hms: Seq<char>,
    from_me: bool,
    reason: Seq<char>,
)
    requires
        events.len() > 0,
        events.last() is Complete,
    ensures
        ({
            let done = events.last()->Complete_0;
            let (next, notify) = attachment_taken(c, (m, store, Ok(events)), hms, from_me);
            let (shown, notified) = settled(next, None);
            let (said, told_so) = settled(next, Some(reason));
            &&& next.messages == c.messages
            &&& !notify
            &&& next.incoming == m
            &&& next.store == store
            &&& shown.awaited is None
            &&& shown.messages.len() > 0
            &&& shown.messages.last() == (ChatMessageView::Attachment {
                attachment_id: done.attachment_id,
                sender: done.sender,
                ts: hms,
                name: done.file_name,
                size: done.total_size,
                kind: done.kind,
            })
            &&& notified <==> !from_me
            &&& said.awaited is None
            &&& said.messages.len() > 0
            &&& said.messages.last() == ChatMessageView::Text(text_line("System"@, reason, hms))
            &&& told_so <==> !from_me
        }),
{
}

/// An announcement or a piece that completes nothing is shown only as a transfer; what is wrong with
/// it is said.
pub proof fn law_unfinished_attachment_is_not_shown(
    c: ChatView,
    m: IncomingMap,
    store: StoreView,
    event: ReceiveEventView,
    fault: ReceiveFault,
    hms: Seq<char>,
    from_me: bool,
)
    requires
        event !is Complete,
    ensures
        ({
            let (next, notify) = attachment_taken(c, (m, store, Ok(seq![event])), hms, from_me);
            let (wrong, told_so) = attachment_taken(c, (m, store, Err(fault)), hms, from_me);
            &&& next.messages == c.messages
            &&& !notify
            &&& next.awaited == c.awaited
            &&& next.incoming == m
            &&& wrong.messages.len() > 0
            &&& wrong.messages.last() == ChatMessageView::Text(
                text_line("System"@, fault_text(fault), hms),
            )
            &&& told_so <==> !from_me
            &&& wrong.incoming == m
        }),
{
    let events = seq![event];
    assert(events.drop_last() =~= Seq::<ReceiveEventView>::empty());
    reveal_with_fuel(crate::client::receiver::receive_events_shown, 2);
}

/// A line of the room that is encrypted with its key is shown as its text, under the name in front of
/// it; any other is shown as it is.
pub proof fn law_room_line_is_shown_as_its_text(line: Seq<char>, room_key: Seq<u8>)
    ensures
        ({
            let (name, body) = display_parts(line);
            let shown = crate::client::utils::text_of_line(line, room_key);
            &&& shown.0 == name
            &&& crate::crypto::room::room_line_text(room_key, body) matches Some(plain) ==> shown.1
                == plain
            &&& crate::crypto::room::room_line_text(room_key, body) is None ==> shown.1 == body
        }),
{
}

/// A line for the display shows what it is about, comes from this machine, and asks for nothing more.
pub proof fn law_display_line_is_local(c: ChatView, line: Seq<char>, e: EnvView)
    requires
        !is_unframed_control(line),
        listed_members(line) is None,
        local_event_of(line) is Some,
    ensures
        ({
            let (next, out) = line_taken(c, line, e);
            let (transfers, shown) = event_shown(
                c.transfers,
                local_event_of(line)->0,
                c.my_name,
                e.hms,
            );
            &&& out.local
            &&& !out.notify
            &&& !out.member_list_changed
            &&& !out.phase2_action_needed
            &&& next.transfers == transfers
            &&& shown is None ==> next.messages == c.messages
            &&& shown is Some ==> next.messages.len() > 0 && next.messages.last() == shown->0
            &&& next.group == c.group
            &&& next.members == c.members
        }),
{
}

/// Only a line from this machine is local.
pub proof fn law_other_lines_are_not_local(c: ChatView, line: Seq<char>, e: EnvView)
    requires
        local_event_of(line) is None,
    ensures
        !line_taken(c, line, e).1.local,
        listed_members(line) is None || is_unframed_control(line) ==> !line_taken(
            c,
            line,
            e,
        ).1.member_list_changed,
{
}

/// Where no attachment is awaited there is nothing to settle.
pub proof fn law_nothing_awaited_nothing_settled(c: ChatView, failure: Option<Seq<char>>)
    requires
        c.awaited is None,
    ensures
        settled(c, failure) == (c, false),
{
}

} // verus!
