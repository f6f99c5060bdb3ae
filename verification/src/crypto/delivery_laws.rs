//! What becomes of a run of messages that come in any order.
use crate::crypto::chain::{
    advanced, chain_opened, live_keys, message_key, message_nonce, next_chain_key, saturating_sum,
    trimmed_keys, RecvView, SkippedView,
};
use crate::crypto::error::CryptoError;
use crate::crypto::group::{
    cleaned, cleaned_chain, cleaned_chains, decrypted, encrypted, old_index, GroupView, OldView,
    CURRENT_PROTOCOL_VERSION,
};
use crate::crypto::laws::{
    chain_wf, from_on, in_step, key_after, lemma_advanced, lemma_latest, lemma_live,
    lemma_range_len,
};
use crate::crypto::messages::{MessageView, SecureMessageType};
use crate::crypto::secure::opens_at;
use vstd::prelude::*;

verus! {

/// A run of messages of one sender: where it starts, how many messages it has, and how long the
/// keys of overtaken messages are needed.
pub struct Run {
    pub start: u64,
    pub base: Seq<u8>,
    pub count: nat,
    pub deadline: i64,
}

/// Whether a receive chain stands within a run, of which the messages `seen` have been opened: it
/// has the key of every other message that it has passed.
pub open spec fn reading(c: RecvView, run: Run, seen: Set<u64>) -> bool {
    &&& chain_wf(c)
    &&& run.start + run.count <= u64::MAX
    &&& run.count <= c.max_skip + 1
    &&& run.start <= c.next_msg_no <= run.start + run.count
    &&& c.chain_key == key_after(run.base, (c.next_msg_no - run.start) as nat)
    &&& forall|j: u64| #[trigger] seen.contains(j) ==> run.start <= j < c.next_msg_no
    &&& forall|j: u64| run.start <= j < c.next_msg_no ==> #[trigger] holds_key(c, run, seen, j)
}

/// Whether a receive chain has the key of a message of a run, unless the message has been opened.
pub open spec fn holds_key(c: RecvView, run: Run, seen: Set<u64>, j: u64) -> bool {
    if seen.contains(j) {
        !c.skipped_keys.contains_key(j)
    } else {
        let key = key_after(run.base, (j - run.start) as nat);
        &&& c.skipped_keys.contains_key(j)
        &&& c.skipped_keys[j].aead_key == message_key(key)
        &&& c.skipped_keys[j].nonce == message_nonce(key)
        &&& c.skipped_keys[j].expires_at > run.deadline
    }
}

/// Dropping expired keys before the deadline drops no key of the run.
proof fn lemma_reading_cleaned(c: RecvView, run: Run, seen: Set<u64>, now: i64)
    requires
        reading(c, run, seen),
        now <= run.deadline,
    ensures
        reading(cleaned_chain(c, now), run, seen),
{
    let d = cleaned_chain(c, now);
    lemma_live(c.skipped_keys, now);
    assert forall|n: u64| #[trigger] d.skipped_keys.contains_key(n) implies n < d.next_msg_no by {
        assert(c.skipped_keys.contains_key(n));
    }
    assert forall|j: u64| run.start <= j < d.next_msg_no implies #[trigger] holds_key(
        d,
        run,
        seen,
        j,
    ) by {
        assert(holds_key(c, run, seen, j));
        if !seen.contains(j) {
            assert(c.skipped_keys.contains_key(j));
            assert(d.skipped_keys.contains_key(j));
        }
    }
}

/// Moving on within the run keeps the key of every message that is passed.
proof fn lemma_reading_advanced(
    c: RecvView,
    run: Run,
    seen: Set<u64>,
    target: u64,
    now: i64,
    ttl: i64,
)
    requires
        reading(c, run, seen),
        c.next_msg_no <= target < run.start + run.count,
        now <= run.deadline < saturating_sum(now, ttl),
    ensures
        reading(advanced(c, target, now, ttl), run, seen),
        advanced(c, target, now, ttl).next_msg_no == target,
    decreases target - c.next_msg_no,
{
    if c.next_msg_no < target {
        let x = c.next_msg_no;
        let key = SkippedView {
            aead_key: message_key(c.chain_key),
            nonce: message_nonce(c.chain_key),
            expires_at: saturating_sum(now, ttl),
        };
        let added = c.skipped_keys.insert(x, key);
        let live = live_keys(added, now);
        lemma_live(added, now);
        lemma_latest(live, c.max_skip);
        let step = RecvView {
            chain_key: next_chain_key(c.chain_key),
            next_msg_no: (x + 1) as u64,
            skipped_keys: trimmed_keys(added, c.max_skip, now),
            max_skip: c.max_skip,
        };
        assert forall|n: u64| #[trigger] step.skipped_keys.contains_key(n) implies n
            < step.next_msg_no && added.contains_key(n) && step.skipped_keys[n] == added[n] by {
            assert(step.skipped_keys.dom().contains(n));
            assert(live.dom().contains(n));
            assert(added.dom().contains(n));
        }
        assert forall|j: u64| run.start <= j < step.next_msg_no implies #[trigger] holds_key(
            step,
            run,
            seen,
            j,
        ) by {
            if j < x {
                assert(holds_key(c, run, seen, j));
            }
            if !seen.contains(j) {
                assert(added.contains_key(j));
                assert(live.contains_key(j));
                let later = from_on(live.dom(), j);
                assert forall|n: u64| later.contains(n) implies j <= n < step.next_msg_no by {
                    assert(live.dom().contains(n));
                    assert(added.dom().contains(n));
                }
                lemma_range_len(later, j, step.next_msg_no);
                assert(step.skipped_keys.contains_key(j));
            }
        }
        reveal_with_fuel(key_after, 2);
        assert(step.chain_key == key_after(run.base, (step.next_msg_no - run.start) as nat));
        lemma_reading_advanced(step, run, seen, target, now, ttl);
        assert(advanced(c, target, now, ttl) == advanced(step, target, now, ttl));
    } else {
        assert(advanced(c, target, now, ttl) == c);
    }
}

/// A message of the run opens when it comes for the first time, and never again.
proof fn lemma_reading_step(
    c: RecvView,
    run: Run,
    seen: Set<u64>,
    m: MessageView,
    plaintext: Seq<u8>,
    now: i64,
    ttl: i64,
)
    requires
        reading(c, run, seen),
        run.start <= m.header.msg_no < run.start + run.count,
        now <= run.deadline < saturating_sum(now, ttl),
        opens_at(
            m,
            key_after(run.base, (m.header.msg_no - run.start) as nat),
            plaintext,
        ),
    ensures
        ({
            let (out, next) = chain_opened(c, m, now, ttl);
            let n = m.header.msg_no;
            &&& out == if seen.contains(n) {
                Err::<Seq<u8>, CryptoError>(CryptoError::MissingSkippedKey)
            } else {
                Ok::<Seq<u8>, CryptoError>(plaintext)
            }
            &&& reading(next, run, seen.insert(n))
        }),
{
    let n = m.header.msg_no;
    let (out, next) = chain_opened(c, m, now, ttl);
    let after = seen.insert(n);
    if n < c.next_msg_no {
        assert(holds_key(c, run, seen, n));
        assert forall|j: u64| run.start <= j < next.next_msg_no implies #[trigger] holds_key(
            next,
            run,
            after,
            j,
        ) by {
            assert(holds_key(c, run, seen, j));
        }
    } else {
        lemma_reading_advanced(c, run, seen, n, now, ttl);
        let at = advanced(c, n, now, ttl);
        lemma_advanced(c, n, now, ttl);
        assert(!at.skipped_keys.contains_key(n));
        reveal_with_fuel(key_after, 2);
        assert forall|j: u64| run.start <= j < next.next_msg_no implies #[trigger] holds_key(
            next,
            run,
            after,
            j,
        ) by {
            if j < n {
                assert(holds_key(at, run, seen, j));
            }
        }
    }
}

/// A message that was sent: its kind, its plaintext, when it was sent, and what was sent.
pub struct Sending {
    pub msg_type: SecureMessageType,
    pub plaintext: Seq<u8>,
    pub at: i64,
    pub message: MessageView,
}

/// The sender after some messages.
pub open spec fn after_sendings(sender: GroupView, sent: Seq<Sending>) -> GroupView
    decreases sent.len(),
{
    if sent.len() == 0 {
        sender
    } else {
        let s = sent.last();
        encrypted(
            after_sendings(sender, sent.drop_last()),
            s.msg_type,
            s.plaintext,
            s.at,
        ).1
    }
}

/// Whether the messages are what the sender encrypts one after another, each of which opens under
/// the keys of its place.
pub open spec fn sent_in_turn(sender: GroupView, sent: Seq<Sending>) -> bool {
    forall|i: int| 0 <= i < sent.len() ==> #[trigger] sent_at(sender, sent, i)
}

/// Whether the message at `i` is what the sender encrypts after those before it.
pub open spec fn sent_at(sender: GroupView, sent: Seq<Sending>, i: int) -> bool {
    let s = after_sendings(sender, sent.take(i));
    &&& encrypted(s, sent[i].msg_type, sent[i].plaintext, sent[i].at).0 == Ok::<
        MessageView,
        CryptoError,
    >(sent[i].message)
    &&& opens_at(sent[i].message, s.sender->0.chain_key, sent[i].plaintext)
}

/// Messages that are sent one after another take the places of the chain in their order.
proof fn lemma_sent_places(sender: GroupView, sent: Seq<Sending>, i: int)
    requires
        sender.sender is Some,
        sender.sender->0.msg_no + sent.len() <= u64::MAX,
        sent_in_turn(sender, sent),
        0 <= i <= sent.len(),
    ensures
        ({
            let s = after_sendings(sender, sent.take(i));
            &&& s.group_id == sender.group_id
            &&& s.epoch == sender.epoch
            &&& s.me == sender.me
            &&& s.sender is Some
            &&& s.sender->0.msg_no == sender.sender->0.msg_no + i
            &&& s.sender->0.chain_key == key_after(sender.sender->0.chain_key, i as nat)
        }),
    decreases i,
{
    assert(sent.take(0) =~= Seq::<Sending>::empty());
    if i > 0 {
        lemma_sent_places(sender, sent, i - 1);
        assert(sent.take(i).drop_last() =~= sent.take(i - 1));
        assert(sent.take(i).last() == sent[i - 1]);
        assert(sent_at(sender, sent, i - 1));
        reveal_with_fuel(key_after, 2);
    }
}

/// Which message of a run comes, and when.
pub struct Arrival {
    pub index: int,
    pub at: i64,
}

/// The receiver after some messages of a run have come.
pub open spec fn after_arrivals(
    receiver: GroupView,
    sent: Seq<Sending>,
    arrivals: Seq<Arrival>,
) -> GroupView
    decreases arrivals.len(),
{
    if arrivals.len() == 0 {
        receiver
    } else {
        let a = arrivals.last();
        decrypted(
            after_arrivals(receiver, sent, arrivals.drop_last()),
            sent[a.index].message,
            a.at,
        ).1
    }
}

/// Whether the message at `index` is among the first `n` arrivals.
pub open spec fn came_before(arrivals: Seq<Arrival>, n: int, index: int) -> bool {
    exists|b: int| 0 <= b < n && (#[trigger] arrivals[b]).index == index
}

/// The numbers of the messages among the first `n` arrivals.
pub open spec fn numbers_before(arrivals: Seq<Arrival>, n: int, start: u64) -> Set<u64> {
    Set::new(|m: u64| came_before(arrivals, n, m - start))
}

/// Whether every arrival is that of a message of the run, after `opened` and by the deadline.
pub open spec fn arrivals_in_time(
    arrivals: Seq<Arrival>,
    count: nat,
    opened: i64,
    deadline: i64,
) -> bool {
    forall|a: int|
        0 <= a < arrivals.len() ==> 0 <= (#[trigger] arrivals[a]).index < count && opened
            <= arrivals[a].at <= deadline
}

/// The receiver stands within the run, however many messages have come.
proof fn lemma_arrivals(
    sender: GroupView,
    receiver: GroupView,
    sent: Seq<Sending>,
    arrivals: Seq<Arrival>,
    opened: i64,
    deadline: i64,
    n: int,
)
    requires
        in_step(sender, receiver),
        sent_in_turn(sender, sent),
        sent.len() <= receiver.recv[sender.me].max_skip + 1,
        sender.sender->0.msg_no + sent.len() <= u64::MAX,
        arrivals_in_time(arrivals, sent.len(), opened, deadline),
        deadline < saturating_sum(opened, receiver.ttl),
        0 <= n <= arrivals.len(),
    ensures
        ({
            let r = after_arrivals(receiver, sent, arrivals.take(n));
            let start = sender.sender->0.msg_no;
            let run = Run {
                start,
                base: sender.sender->0.chain_key,
                count: sent.len(),
                deadline,
            };
            &&& r.group_id == receiver.group_id
            &&& r.epoch == receiver.epoch
            &&& r.me == receiver.me
            &&& r.sender is Some
            &&& r.ttl == receiver.ttl
            &&& r.members.contains_key(sender.me)
            &&& r.recv.contains_key(sender.me)
            &&& reading(r.recv[sender.me], run, numbers_before(arrivals, n, start))
            &&& n < arrivals.len() ==> decrypted(
                r,
                sent[arrivals[n].index].message,
                arrivals[n].at,
            ).0 == if came_before(arrivals, n, arrivals[n].index) {
                Err::<Seq<u8>, CryptoError>(CryptoError::MissingSkippedKey)
            } else {
                Ok::<Seq<u8>, CryptoError>(sent[arrivals[n].index].plaintext)
            }
        }),
    decreases n,
{
    let start = sender.sender->0.msg_no;
    let base = sender.sender->0.chain_key;
    let run = Run { start, base, count: sent.len(), deadline };
    let r = after_arrivals(receiver, sent, arrivals.take(n));
    let seen = numbers_before(arrivals, n, start);
    if n == 0 {
        assert(arrivals.take(0) =~= Seq::<Arrival>::empty());
        assert(seen =~= Set::<u64>::empty());
    } else {
        lemma_arrivals(sender, receiver, sent, arrivals, opened, deadline, n - 1);
        assert(arrivals.take(n).drop_last() =~= arrivals.take(n - 1));
        assert(arrivals.take(n).last() == arrivals[n - 1]);
        let q = after_arrivals(receiver, sent, arrivals.take(n - 1));
        lemma_arrival_step(sender, q, sent, arrivals[n - 1], run, numbers_before(
            arrivals,
            n - 1,
            start,
        ));
        let last = arrivals[n - 1].index;
        assert forall|m: u64| seen.contains(m) == numbers_before(arrivals, n - 1, start).insert(
            (start + last) as u64,
        ).contains(m) by {
            if came_before(arrivals, n, m - start) {
                let b = choose|b: int| 0 <= b < n && (#[trigger] arrivals[b]).index == m - start;
                if b < n - 1 {
                    assert(came_before(arrivals, n - 1, m - start));
                }
            }
            if came_before(arrivals, n - 1, m - start) {
                let b = choose|b: int|
                    0 <= b < n - 1 && (#[trigger] arrivals[b]).index == m - start;
                assert(came_before(arrivals, n, m - start));
            }
            if m == start + last {
                assert(arrivals[n - 1].index == m - start);
                assert(came_before(arrivals, n, m - start));
            }
        }
        assert(seen =~= numbers_before(arrivals, n - 1, start).insert((start + last) as u64));
    }
    if n < arrivals.len() {
        lemma_arrival_step(sender, r, sent, arrivals[n], run, seen);
        let number = (start + arrivals[n].index) as u64;
        assert(seen.contains(number) == came_before(arrivals, n, arrivals[n].index));
    }
}

/// One arrival at a receiver that stands within the run.
proof fn lemma_arrival_step(
    sender: GroupView,
    r: GroupView,
    sent: Seq<Sending>,
    a: Arrival,
    run: Run,
    seen: Set<u64>,
)
    requires
        sender.sender is Some,
        sent_in_turn(sender, sent),
        sender.sender->0.msg_no + sent.len() <= u64::MAX,
        run.start == sender.sender->0.msg_no,
        run.base == sender.sender->0.chain_key,
        run.count == sent.len(),
        0 <= a.index < sent.len(),
        a.at <= run.deadline < saturating_sum(a.at, r.ttl),
        r.group_id == sender.group_id,
        r.epoch == sender.epoch,
        r.me != sender.me,
        r.sender is Some,
        r.members.contains_key(sender.me),
        r.recv.contains_key(sender.me),
        reading(r.recv[sender.me], run, seen),
    ensures
        ({
            let number = (run.start + a.index) as u64;
            let (out, next) = decrypted(r, sent[a.index].message, a.at);
            &&& out == if seen.contains(number) {
                Err::<Seq<u8>, CryptoError>(CryptoError::MissingSkippedKey)
            } else {
                Ok::<Seq<u8>, CryptoError>(sent[a.index].plaintext)
            }
            &&& next.group_id == r.group_id
            &&& next.epoch == r.epoch
            &&& next.me == r.me
            &&& next.sender is Some
            &&& next.ttl == r.ttl
            &&& next.members == r.members
            &&& next.recv.contains_key(sender.me)
            &&& reading(next.recv[sender.me], run, seen.insert(number))
        }),
{
    let m = sent[a.index].message;
    lemma_sent_places(sender, sent, a.index);
    assert(sent_at(sender, sent, a.index));
    let c = cleaned_chain(r.recv[sender.me], a.at);
    assert(cleaned(r, a.at).recv[sender.me] == c);
    lemma_reading_cleaned(r.recv[sender.me], run, seen, a.at);
    lemma_reading_step(c, run, seen, m, sent[a.index].plaintext, a.at, r.ttl);
}

/// A run of messages, no longer than a receiver may skip and one more, opens in any order: each
/// message opens when it comes for the first time, and is refused whenever it comes again, as long
/// as the keys of overtaken messages have not expired.
pub proof fn law_messages_open_once_in_any_order(
    sender: GroupView,
    receiver: GroupView,
    sent: Seq<Sending>,
    arrivals: Seq<Arrival>,
    opened: i64,
    deadline: i64,
)
    requires
        in_step(sender, receiver),
        sent_in_turn(sender, sent),
        sent.len() <= receiver.recv[sender.me].max_skip + 1,
        sender.sender->0.msg_no + sent.len() <= u64::MAX,
        arrivals_in_time(arrivals, sent.len(), opened, deadline),
        deadline < saturating_sum(opened, receiver.ttl),
    ensures
        forall|n: int|
            0 <= n < arrivals.len() ==> decrypted(
                after_arrivals(receiver, sent, #[trigger] arrivals.take(n)),
                sent[arrivals[n].index].message,
                arrivals[n].at,
            ).0 == if came_before(arrivals, n, arrivals[n].index) {
                Err::<Seq<u8>, CryptoError>(CryptoError::MissingSkippedKey)
            } else {
                Ok::<Seq<u8>, CryptoError>(sent[arrivals[n].index].plaintext)
            },
{
    assert forall|n: int| 0 <= n < arrivals.len() implies decrypted(
        after_arrivals(receiver, sent, #[trigger] arrivals.take(n)),
        sent[arrivals[n].index].message,
        arrivals[n].at,
    ).0 == if came_before(arrivals, n, arrivals[n].index) {
        Err::<Seq<u8>, CryptoError>(CryptoError::MissingSkippedKey)
    } else {
        Ok::<Seq<u8>, CryptoError>(sent[arrivals[n].index].plaintext)
    } by {
        lemma_arrivals(sender, receiver, sent, arrivals, opened, deadline, n);
    }
}

/// What is kept of a part that is kept, mapped item by item, is what is kept at once.
proof fn lemma_filter_twice(
    s: Seq<OldView>,
    keep: spec_fn(OldView) -> bool,
    keep_later: spec_fn(OldView) -> bool,
    f: spec_fn(OldView) -> OldView,
)
    requires
        forall|x: OldView| #[trigger] keep_later(x) ==> keep(x),
        forall|x: OldView| keep_later(#[trigger] f(x)) == keep_later(x),
    ensures
        s.filter(keep).map_values(f).filter(keep_later) == s.filter(keep_later).map_values(f),
    decreases s.len(),
{
    reveal(Seq::filter);
    if s.len() > 0 {
        let front = s.drop_last();
        let x = s.last();
        lemma_filter_twice(front, keep, keep_later, f);
        if keep(x) {
            let mapped = s.filter(keep).map_values(f);
            assert(mapped.drop_last() =~= front.filter(keep).map_values(f));
            assert(mapped.last() == f(x));
        }
        if keep_later(x) {
            assert(s.filter(keep_later).map_values(f) =~= front.filter(keep_later).map_values(
                f,
            ).push(f(x)));
        }
    } else {
        assert(s.filter(keep).map_values(f) =~= Seq::<OldView>::empty());
        assert(s.filter(keep_later).map_values(f) =~= Seq::<OldView>::empty());
    }
}

proof fn lemma_cleaned_chains_twice(m: Map<Seq<char>, RecvView>, now: i64, later: i64)
    requires
        now <= later,
    ensures
        cleaned_chains(cleaned_chains(m, now), later) == cleaned_chains(m, later),
{
    let twice = cleaned_chains(cleaned_chains(m, now), later);
    let once = cleaned_chains(m, later);
    assert forall|id: Seq<char>| m.contains_key(id) implies #[trigger] twice[id] == once[id] by {
        let keys = m[id].skipped_keys;
        assert(live_keys(live_keys(keys, now), later) =~= live_keys(keys, later));
    }
    assert(twice =~= once);
}

/// What has expired by a time can be dropped before.
pub proof fn law_cleaning_twice_is_cleaning_once(g: GroupView, now: i64, later: i64)
    requires
        now <= later,
    ensures
        cleaned(cleaned(g, now), later) == cleaned(g, later),
{
    lemma_cleaned_chains_twice(g.recv, now, later);
    let keep = |o: OldView| o.expires_at > now;
    let keep_later = |o: OldView| o.expires_at > later;
    let f = |o: OldView| OldView { recv_chains: cleaned_chains(o.recv_chains, now), ..o };
    let h = |o: OldView| OldView { recv_chains: cleaned_chains(o.recv_chains, later), ..o };
    lemma_filter_twice(g.old, keep, keep_later, f);
    let kept = g.old.filter(keep_later);
    assert forall|i: int| 0 <= i < kept.len() implies kept.map_values(f).map_values(h)[i]
        == kept.map_values(h)[i] by {
        lemma_cleaned_chains_twice(kept[i].recv_chains, now, later);
    }
    assert(kept.map_values(f).map_values(h) =~= kept.map_values(h));
    assert(cleaned(cleaned(g, now), later).old =~= cleaned(g, later).old);
}

/// A message that is refused moves no chain and uses up no key: what would have opened without it
/// still opens, then and later, to the same plaintext.
pub proof fn law_refused_message_leaves_the_rest(
    g: GroupView,
    refused: MessageView,
    m: MessageView,
    now: i64,
    later: i64,
)
    requires
        decrypted(g, refused, now).0 is Err,
        now <= later,
    ensures
        decrypted(g, refused, now).1 == cleaned(g, now),
        decrypted(decrypted(g, refused, now).1, m, later) == decrypted(g, m, later),
{
    let c = cleaned(g, now);
    let next = decrypted(g, refused, now).1;
    let id = refused.header.sender_id;
    if refused.header.epoch == c.epoch {
        if c.recv.contains_key(id) {
            assert(c.recv.insert(id, c.recv[id]) =~= c.recv);
        }
    } else {
        let at = old_index(c.old, refused.header.epoch);
        lemma_old_index(c.old, refused.header.epoch);
        if at < c.old.len() {
            let o = c.old[at];
            if o.recv_chains.contains_key(id) {
                assert(o.recv_chains.insert(id, o.recv_chains[id]) =~= o.recv_chains);
            }
            assert(c.old.update(at, o) =~= c.old);
        }
    }
    assert(next =~= c);
    law_cleaning_twice_is_cleaning_once(g, now, later);
}

proof fn lemma_old_index(old_epochs: Seq<OldView>, epoch: u64)
    ensures
        0 <= old_index(old_epochs, epoch) <= old_epochs.len(),
    decreases old_epochs.len(),
{
    if old_epochs.len() > 0 && old_epochs[0].epoch != epoch {
        lemma_old_index(old_epochs.drop_first(), epoch);
    }
}

/// Whether a receive chain has or can reach the keys of a place.
pub open spec fn in_reach(c: RecvView, n: u64) -> bool {
    if n < c.next_msg_no {
        c.skipped_keys.contains_key(n)
    } else {
        n - c.next_msg_no <= c.max_skip
    }
}

/// A message is refused when its header names another version, another group, the reader itself,
/// an epoch that is not held, a sender who is no member, or a place that is used up or out of reach.
pub proof fn law_misdirected_message_is_refused(g: GroupView, m: MessageView, now: i64)
    requires
        ({
            let c = cleaned(g, now);
            let id = m.header.sender_id;
            ||| m.header.version != CURRENT_PROTOCOL_VERSION
            ||| m.header.group_id != g.group_id
            ||| id == g.me
            ||| m.header.epoch != g.epoch && old_index(c.old, m.header.epoch) == c.old.len()
            ||| m.header.epoch == g.epoch && (!g.members.contains_key(id) || !c.recv.contains_key(
                id,
            ) || !in_reach(c.recv[id], m.header.msg_no))
        }),
    ensures
        decrypted(g, m, now).0 is Err,
        decrypted(g, m, now).1 == cleaned(g, now),
{
    assert(decrypted(g, m, now).0 is Err);
    law_refused_message_leaves_the_rest(g, m, m, now, now);
}

} // verus!
