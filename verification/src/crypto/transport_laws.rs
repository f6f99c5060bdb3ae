//! What holds of a connection as a whole.
use crate::crypto::chain::be_bytes;
use crate::crypto::transport::{
    lemma_be_value, lemma_window_push, new_transport, numbered_line, opened_line, sequence_nonce,
    transport_opened, window_push, window_wf, wrapped_next, OpenView, TransportSide, TransportView,
    TRANSPORT_REPLAY_WINDOW,
};
use crate::outside::encoding::base64_bytes;
use vstd::prelude::*;
use vstd::utf8::encode_utf8;

verus! {

/// What one end sends with, the other receives with.
pub proof fn law_ends_share_keys(secret: Seq<u8>)
    ensures
        ({
            let client = new_transport(secret, TransportSide::Client);
            let server = new_transport(secret, TransportSide::Server);
            client.send_key == server.recv_key && client.recv_key == server.send_key
        }),
{
}

/// The next sealed line is fresh at the other end, which then expects the one after it.
pub proof fn law_sealed_line_is_fresh(
    sender: TransportView,
    receiver: TransportView,
    line: Seq<char>,
    plain: Seq<char>,
)
    requires
        sender.send_key == receiver.recv_key,
        sender.send_seq == receiver.next_recv_seq,
        opened_line(sender.send_key, line) == Some((sender.send_seq, plain)),
    ensures
        transport_opened(receiver, line).0 == Some(OpenView::Fresh(plain)),
        transport_opened(receiver, line).1.next_recv_seq == wrapped_next(sender.send_seq),
{
}

/// Only the line with the next number is fresh.
pub proof fn law_fresh_line_has_next_number(t: TransportView, line: Seq<char>)
    ensures
        (transport_opened(t, line).0 matches Some(OpenView::Fresh(_))) <==> (opened_line(
            t.recv_key,
            line,
        ) matches Some(o) && o.0 == t.next_recv_seq),
{
}

/// Lines with different numbers have different nonces.
pub proof fn law_line_nonces_differ(a: u64, b: u64)
    requires
        a != b,
    ensures
        sequence_nonce(a) != sequence_nonce(b),
{
    assert(sequence_nonce(a).skip(4) =~= be_bytes(a));
    assert(sequence_nonce(b).skip(4) =~= be_bytes(b));
    lemma_be_value(a);
    lemma_be_value(b);
}

/// What one end of a connection does: it seals a text into a line, or opens a line.
pub enum TransportStep {
    Seal { plain: Seq<char>, line: Seq<char> },
    Open { line: Seq<char> },
}

/// The state after a step.
pub open spec fn stepped(t: TransportView, step: TransportStep) -> TransportView {
    match step {
        TransportStep::Seal { .. } => TransportView { send_seq: wrapped_next(t.send_seq), ..t },
        TransportStep::Open { line } => transport_opened(t, line).1,
    }
}

/// The state after some steps.
pub open spec fn after_steps(t: TransportView, steps: Seq<TransportStep>) -> TransportView
    decreases steps.len(),
{
    if steps.len() == 0 {
        t
    } else {
        stepped(after_steps(t, steps.drop_last()), steps.last())
    }
}

/// How many lines some steps sealed.
pub open spec fn seals(steps: Seq<TransportStep>) -> nat
    decreases steps.len(),
{
    if steps.len() == 0 {
        0
    } else {
        seals(steps.drop_last()) + if steps.last() is Seal {
            1nat
        } else {
            0nat
        }
    }
}

/// Whether every line that some steps sealed is the one that the state of its time sealed.
pub open spec fn history(t: TransportView, steps: Seq<TransportStep>) -> bool {
    forall|i: int| 0 <= i < steps.len() ==> sealed_at(t, steps, i)
}

/// Whether the step at `i`, when it sealed a line, sealed it with the number of its time.
pub open spec fn sealed_at(t: TransportView, steps: Seq<TransportStep>, i: int) -> bool {
    let s = after_steps(t, steps.take(i));
    match steps[i] {
        TransportStep::Seal { plain, line } => numbered_line(s.send_key, s.send_seq, plain, line),
        TransportStep::Open { .. } => true,
    }
}

/// No step changes a key, and only sealing moves the number of the next line to send.
pub proof fn law_keys_stay(t: TransportView, steps: Seq<TransportStep>)
    ensures
        after_steps(t, steps).send_key == t.send_key,
        after_steps(t, steps).recv_key == t.recv_key,
        t.send_seq + seals(steps) <= u64::MAX ==> after_steps(t, steps).send_seq == t.send_seq
            + seals(steps),
    decreases steps.len(),
{
    if steps.len() > 0 {
        law_keys_stay(t, steps.drop_last());
    }
}

proof fn lemma_seals_grow(steps: Seq<TransportStep>, i: int)
    requires
        0 <= i <= steps.len(),
    ensures
        seals(steps.take(i)) <= seals(steps),
        i < steps.len() && steps[i] is Seal ==> seals(steps.take(i)) < seals(steps),
    decreases steps.len() - i,
{
    if i == steps.len() {
        assert(steps.take(i) =~= steps);
    } else {
        lemma_seals_grow(steps, i + 1);
        assert(steps.take(i + 1).drop_last() =~= steps.take(i));
        assert(steps.take(i + 1).last() == steps[i]);
    }
}

/// The lines that one end seals carry the numbers from zero on, whatever it opens in between: the
/// line sealed after `n` others decodes to the eight bytes of `n` and a ciphertext sixteen bytes
/// longer than the text.
pub proof fn law_lines_are_numbered(
    secret: Seq<u8>,
    side: TransportSide,
    steps: Seq<TransportStep>,
    i: int,
)
    requires
        history(new_transport(secret, side), steps),
        seals(steps) <= u64::MAX,
        0 <= i < steps.len(),
        steps[i] is Seal,
    ensures
        ({
            let n = seals(steps.take(i)) as u64;
            let key = new_transport(secret, side).send_key;
            &&& numbered_line(key, n, steps[i]->plain, steps[i]->Seal_line)
            &&& base64_bytes(steps[i]->Seal_line) matches Some(data) && data.take(8) == be_bytes(n)
                && data.skip(8).len() == encode_utf8(steps[i]->plain).len() + 16
        }),
{
    let t = new_transport(secret, side);
    lemma_seals_grow(steps, i);
    law_keys_stay(t, steps.take(i));
    assert(sealed_at(t, steps, i));
    let n = seals(steps.take(i)) as u64;
    let data = base64_bytes(steps[i]->Seal_line)->0;
    assert(data.take(8) =~= be_bytes(n));
}

/// The lines that one end seals are all different, even when their texts are not.
pub proof fn law_sealed_lines_differ(
    secret: Seq<u8>,
    side: TransportSide,
    steps: Seq<TransportStep>,
    i: int,
    j: int,
)
    requires
        history(new_transport(secret, side), steps),
        seals(steps) <= u64::MAX,
        0 <= i < j < steps.len(),
        steps[i] is Seal,
        steps[j] is Seal,
    ensures
        steps[i]->Seal_line != steps[j]->Seal_line,
{
    law_lines_are_numbered(secret, side, steps, i);
    law_lines_are_numbered(secret, side, steps, j);
    lemma_seals_grow(steps.take(j), i);
    assert(steps.take(j).take(i) =~= steps.take(i));
    lemma_seals_grow(steps, j);
    lemma_be_value(seals(steps.take(i)) as u64);
    lemma_be_value(seals(steps.take(j)) as u64);
}

/// The window holds the numbers before the next one, all of them or the latest.
pub open spec fn window_full(t: TransportView) -> bool {
    &&& window_wf(t)
    &&& t.recent.len() == if t.next_recv_seq < TRANSPORT_REPLAY_WINDOW {
        t.next_recv_seq as nat
    } else {
        TRANSPORT_REPLAY_WINDOW as nat
    }
}

/// The window is full from the start and stays full, until the numbers go round.
pub proof fn law_window_stays_full(t: TransportView, step: TransportStep)
    requires
        window_full(t),
        t.next_recv_seq < u64::MAX,
    ensures
        window_full(stepped(t, step)),
        forall|secret: Seq<u8>, side: TransportSide|
            window_full(#[trigger] new_transport(secret, side)),
{
    let next = stepped(t, step);
    if next.next_recv_seq != t.next_recv_seq {
        lemma_window_push(t, next);
    }
}

/// The number of a line decides what becomes of it: the next one is fresh, one of the window before
/// it is a duplicate that changes nothing, and any other is refused and changes nothing, as is a
/// line that does not open.
pub proof fn law_number_decides(t: TransportView, line: Seq<char>)
    requires
        window_full(t),
    ensures
        match opened_line(t.recv_key, line) {
            None => transport_opened(t, line) == (None::<OpenView>, t),
            Some((n, plain)) => if n == t.next_recv_seq {
                transport_opened(t, line).0 == Some(OpenView::Fresh(plain))
            } else if n < t.next_recv_seq && t.next_recv_seq - n <= TRANSPORT_REPLAY_WINDOW {
                transport_opened(t, line) == (Some(OpenView::Duplicate(plain)), t)
            } else {
                transport_opened(t, line) == (None::<OpenView>, t)
            },
        },
{
    match opened_line(t.recv_key, line) {
        None => {},
        Some((n, _)) => {
            let len = t.recent.len() as int;
            let low = t.next_recv_seq - len;
            if n < t.next_recv_seq && t.next_recv_seq - n <= TRANSPORT_REPLAY_WINDOW {
                assert(t.recent[n - low] as int == (low + (n - low)) % 0x1_0000_0000_0000_0000);
                assert(t.recent[n - low] == n);
            } else if t.recent.contains(n) {
                let i = choose|i: int| 0 <= i < len && t.recent[i] == n;
                assert(t.recent[i] as int == (low + i) % 0x1_0000_0000_0000_0000);
            }
        },
    }
}

/// The steps of an end that opens some lines.
pub open spec fn openings(lines: Seq<Seq<char>>) -> Seq<TransportStep> {
    lines.map_values(|line: Seq<char>| TransportStep::Open { line })
}

/// Whether the lines are those that the other end sealed, in their order.
pub open spec fn lines_for(
    t: TransportView,
    lines: Seq<Seq<char>>,
    plains: Seq<Seq<char>>,
) -> bool {
    &&& lines.len() == plains.len() < u64::MAX
    &&& forall|i: int|
        0 <= i < lines.len() ==> opened_line(t.recv_key, #[trigger] lines[i]) == Some(
            (i as u64, plains[i]),
        )
}

proof fn lemma_opened_in_order(
    secret: Seq<u8>,
    side: TransportSide,
    lines: Seq<Seq<char>>,
    plains: Seq<Seq<char>>,
    k: int,
)
    requires
        lines_for(new_transport(secret, side), lines, plains),
        0 <= k <= lines.len(),
    ensures
        ({
            let t = after_steps(new_transport(secret, side), openings(lines.take(k)));
            &&& t.recv_key == new_transport(secret, side).recv_key
            &&& t.next_recv_seq == k
            &&& window_full(t)
        }),
    decreases k,
{
    let new = new_transport(secret, side);
    let steps = openings(lines.take(k));
    if k > 0 {
        lemma_opened_in_order(secret, side, lines, plains, k - 1);
        assert(steps.drop_last() =~= openings(lines.take(k - 1)));
        assert(steps.last() == TransportStep::Open { line: lines[k - 1] });
        let t = after_steps(new, steps.drop_last());
        law_window_stays_full(t, steps.last());
        assert(opened_line(t.recv_key, lines[k - 1]) == Some(((k - 1) as u64, plains[k - 1])));
    }
}

/// An end that has opened the lines of the other end in their order takes the next one as fresh.
/// After that every line of the window is a duplicate and changes nothing, any number of times.
pub proof fn law_lines_come_through_in_order(
    secret: Seq<u8>,
    side: TransportSide,
    lines: Seq<Seq<char>>,
    plains: Seq<Seq<char>>,
    k: int,
)
    requires
        lines_for(new_transport(secret, side), lines, plains),
        0 <= k < lines.len(),
    ensures
        ({
            let t = after_steps(new_transport(secret, side), openings(lines.take(k)));
            let (out, next) = transport_opened(t, lines[k]);
            &&& out == Some(OpenView::Fresh(plains[k]))
            &&& forall|j: int|
                0 <= j <= k && k - j < TRANSPORT_REPLAY_WINDOW ==> transport_opened(
                    next,
                    #[trigger] lines[j],
                ) == (Some(OpenView::Duplicate(plains[j])), next)
        }),
{
    lemma_opened_in_order(secret, side, lines, plains, k);
    let t = after_steps(new_transport(secret, side), openings(lines.take(k)));
    law_number_decides(t, lines[k]);
    law_window_stays_full(t, TransportStep::Open { line: lines[k] });
    let next = transport_opened(t, lines[k]).1;
    assert forall|j: int|
        0 <= j <= k && k - j < TRANSPORT_REPLAY_WINDOW implies transport_opened(
        next,
        #[trigger] lines[j],
    ) == (Some(OpenView::Duplicate(plains[j])), next) by {
        law_number_decides(next, lines[j]);
    }
}

/// A line from ahead, a line from before the window and a line that does not open give nothing and
/// change nothing: the next line is still fresh.
pub proof fn law_other_lines_are_refused(
    secret: Seq<u8>,
    side: TransportSide,
    lines: Seq<Seq<char>>,
    plains: Seq<Seq<char>>,
    k: int,
    line: Seq<char>,
)
    requires
        lines_for(new_transport(secret, side), lines, plains),
        0 <= k < lines.len(),
        opened_line(new_transport(secret, side).recv_key, line) is None || exists|j: int|
            0 <= j < lines.len() && (j > k || j + TRANSPORT_REPLAY_WINDOW < k) && line
                == #[trigger] lines[j],
    ensures
        ({
            let t = after_steps(new_transport(secret, side), openings(lines.take(k)));
            &&& transport_opened(t, line) == (None::<OpenView>, t)
            &&& transport_opened(transport_opened(t, line).1, lines[k]).0 == Some(
                OpenView::Fresh(plains[k]),
            )
        }),
{
    lemma_opened_in_order(secret, side, lines, plains, k);
    let t = after_steps(new_transport(secret, side), openings(lines.take(k)));
    law_number_decides(t, line);
    law_number_decides(t, lines[k]);
}

/// The window holds the latest thousand and twenty-four numbers: one more goes in at the end, and the
/// oldest goes out only when there are that many.
pub proof fn law_window_holds_the_latest(recent: Seq<u64>, n: u64)
    requires
        recent.len() <= 1024,
    ensures
        window_push(recent, n).len() <= 1024,
        window_push(recent, n).last() == n,
        recent.len() < 1024 ==> window_push(recent, n) == recent.push(n),
        recent.len() == 1024 ==> window_push(recent, n) == recent.drop_first().push(n),
{
    assert(recent.len() == 1024 ==> recent.push(n).drop_first() =~= recent.drop_first().push(n));
}

} // verus!
