//! What holds of the group protocol as a whole.
use crate::crypto::chain::{
    advanced, chain_opened, is_oldest, latest_keys, live_keys, message_key, message_nonce,
    next_chain_key, next_number, saturating_sum, trimmed_keys, RecvView, SkippedView,
};
use crate::crypto::epoch::{commit_fault, context_of, recipients, unwrapped_secret};
use crate::crypto::error::CryptoError;
use crate::crypto::group::{
    activated, announced, carries_secret, cleaned, cleaned_chain, committed, committed_secret,
    decrypted, encrypted, first_for, fresh_group, joins_later_epoch, lemma_listed_roster,
    lemma_sound_activated, lemma_sound_with_members, may_propose, old_index, pending_proposers,
    plain_fault, proposed_plain, sound, with_members, GroupView, OldView,
};
use crate::crypto::membership::own_announce;
use crate::crypto::messages::{
    AnnounceView, CommitView, MessageView, PlainView, SecureMessageType, WrappedView,
};
use crate::crypto::secure::opens_at;
use crate::outside::x25519::x25519_public;
use crate::util::order::{lemma_sorted_again, sorted_set};
use vstd::prelude::*;

verus! {

/// The chain key `n` messages after `key`.
pub open spec fn key_after(key: Seq<u8>, n: nat) -> Seq<u8>
    decreases n,
{
    if n == 0 {
        key
    } else {
        next_chain_key(key_after(key, (n - 1) as nat))
    }
}

/// The kept keys belong to messages before the position.
pub open spec fn chain_wf(c: RecvView) -> bool {
    &&& c.skipped_keys.dom().finite()
    &&& forall|n: u64| #[trigger] c.skipped_keys.contains_key(n) ==> n < c.next_msg_no
}

/// The numbers of a set from `low` on.
pub open spec fn from_on(numbers: Set<u64>, low: u64) -> Set<u64> {
    numbers.filter(|n: u64| n >= low)
}

pub proof fn lemma_range_len(s: Set<u64>, low: u64, high: u64)
    requires
        s.finite(),
        forall|n: u64| s.contains(n) ==> low <= n < high,
        low <= high,
    ensures
        s.len() <= high - low,
    decreases high - low,
{
    if low == high {
        assert(s =~= Set::<u64>::empty());
    } else {
        let top = (high - 1) as u64;
        let t = s.remove(top);
        assert forall|n: u64| t.contains(n) implies low <= n < top by {
            assert(s.contains(n));
        }
        lemma_range_len(t, low, top);
        if !s.contains(top) {
            assert(t =~= s);
        }
    }
}

proof fn lemma_oldest_exists(s: Set<u64>)
    requires
        s.finite(),
        s.len() > 0,
    ensures
        exists|n: u64| is_oldest(s, n),
    decreases s.len(),
{
    let x = s.choose();
    if s.len() == 1 {
        assert forall|m: u64| #[trigger] s.contains(m) implies x <= m by {
            if m != x {
                assert(s.remove(x).contains(m));
                assert(s.remove(x).len() == 0);
                assert(s.remove(x) =~= Set::<u64>::empty());
            }
        }
        assert(is_oldest(s, x));
    } else {
        lemma_oldest_exists(s.remove(x));
        let y = choose|n: u64| is_oldest(s.remove(x), n);
        assert(is_oldest(s.remove(x), y));
        let z = if x < y {
            x
        } else {
            y
        };
        assert forall|m: u64| #[trigger] s.contains(m) implies z <= m by {
            if m != x {
                assert(s.remove(x).contains(m));
            }
        }
        assert(is_oldest(s, z));
    }
}

/// Dropping the oldest keys keeps a part of the table, and every key with at most `max` keys from
/// it on.
pub proof fn lemma_latest(m: Map<u64, SkippedView>, max: u64)
    requires
        m.dom().finite(),
    ensures
        latest_keys(m, max).submap_of(m),
        latest_keys(m, max).dom().finite(),
        latest_keys(m, max).dom().len() <= max,
        forall|j: u64|
            #[trigger] m.contains_key(j) && from_on(m.dom(), j).len() <= max ==> latest_keys(
                m,
                max,
            ).contains_key(j),
    decreases m.dom().len(),
{
    if m.dom().len() <= max {
    } else {
        lemma_oldest_exists(m.dom());
        let n = choose|n: u64| is_oldest(m.dom(), n);
        assert(is_oldest(m.dom(), n));
        let r = m.remove(n);
        assert(r.dom() =~= m.dom().remove(n));
        lemma_latest(r, max);
        assert forall|j: u64|
            #[trigger] m.contains_key(j) && from_on(m.dom(), j).len() <= max implies latest_keys(
            m,
            max,
        ).contains_key(j) by {
            if j == n {
                assert(from_on(m.dom(), j) =~= m.dom());
            } else {
                assert(from_on(r.dom(), j) =~= from_on(m.dom(), j)) by {
                    assert(n < j);
                }
                assert(r.contains_key(j));
            }
        }
    }
}

pub proof fn lemma_live(m: Map<u64, SkippedView>, now: i64)
    requires
        m.dom().finite(),
    ensures
        live_keys(m, now).submap_of(m),
        live_keys(m, now).dom().finite(),
        forall|j: u64| #[trigger]
            m.contains_key(j) && m[j].expires_at > now ==> live_keys(m, now).contains_key(j),
{
    assert(live_keys(m, now).dom() =~= m.dom().filter(|n: u64| m[n].expires_at > now));
}

/// Moving a position keeps the keys before it, and leads to the key of the target.
pub proof fn lemma_advanced(c: RecvView, target: u64, now: i64, ttl: i64)
    requires
        chain_wf(c),
        c.next_msg_no <= target,
    ensures
        chain_wf(advanced(c, target, now, ttl)),
        advanced(c, target, now, ttl).next_msg_no == target,
        advanced(c, target, now, ttl).max_skip == c.max_skip,
        advanced(c, target, now, ttl).chain_key == key_after(
            c.chain_key,
            (target - c.next_msg_no) as nat,
        ),
    decreases target - c.next_msg_no,
{
    if c.next_msg_no < target {
        let added = c.skipped_keys.insert(
            c.next_msg_no,
            SkippedView {
                aead_key: message_key(c.chain_key),
                nonce: message_nonce(c.chain_key),
                expires_at: saturating_sum(now, ttl),
            },
        );
        lemma_live(added, now);
        lemma_latest(live_keys(added, now), c.max_skip);
        let step = RecvView {
            chain_key: next_chain_key(c.chain_key),
            next_msg_no: (c.next_msg_no + 1) as u64,
            skipped_keys: trimmed_keys(added, c.max_skip, now),
            max_skip: c.max_skip,
        };
        assert forall|n: u64| #[trigger] step.skipped_keys.contains_key(n) implies n
            < step.next_msg_no by {
            assert(step.skipped_keys.dom().contains(n));
            assert(live_keys(added, now).dom().contains(n));
            assert(added.dom().contains(n));
        }
        lemma_advanced(step, target, now, ttl);
        lemma_key_after_shift(c.chain_key, (target - step.next_msg_no) as nat);
    }
}

pub proof fn lemma_key_after_shift(key: Seq<u8>, n: nat)
    ensures
        key_after(next_chain_key(key), n) == key_after(key, n + 1),
    decreases n,
{
    reveal_with_fuel(key_after, 2);
    if n > 0 {
        lemma_key_after_shift(key, (n - 1) as nat);
    }
}

/// The keys kept while moving from `start` towards a target at most `max_skip` further on.
proof fn lemma_kept(c: RecvView, start: u64, base: Seq<u8>, target: u64, now: i64, ttl: i64)
    requires
        chain_wf(c),
        start <= c.next_msg_no <= target,
        target - start <= c.max_skip,
        now < saturating_sum(now, ttl),
        c.chain_key == key_after(base, (c.next_msg_no - start) as nat),
        forall|j: u64| start <= j < c.next_msg_no ==> #[trigger] keeps(c, base, start, j, now, ttl),
    ensures
        forall|j: u64|
            start <= j < target ==> #[trigger] keeps(
                advanced(c, target, now, ttl),
                base,
                start,
                j,
                now,
                ttl,
            ),
    decreases target - c.next_msg_no,
{
    if c.next_msg_no < target {
        let x = c.next_msg_no;
        let key = SkippedView {
            aead_key: message_key(c.chain_key),
            nonce: message_nonce(c.chain_key),
            expires_at: saturating_sum(now, ttl),
        };
        let added = c.skipped_keys.insert(x, key);
        let live = live_keys(added, now);
        lemma_live(added, now);
        lemma_latest(live, c.max_skip);
        let step = RecvView {
            chain_key: next_chain_key(c.chain_key),
            next_msg_no: (x + 1) as u64,
            skipped_keys: trimmed_keys(added, c.max_skip, now),
            max_skip: c.max_skip,
        };
        assert forall|n: u64| #[trigger] step.skipped_keys.contains_key(n) implies n
            < step.next_msg_no by {
            assert(step.skipped_keys.dom().contains(n));
            assert(live_keys(added, now).dom().contains(n));
            assert(added.dom().contains(n));
        }
        assert forall|j: u64| start <= j < step.next_msg_no implies #[trigger] keeps(
            step,
            base,
            start,
            j,
            now,
            ttl,
        ) by {
            if j < x {
                assert(keeps(c, base, start, j, now, ttl));
            }
            assert(added.contains_key(j));
            assert(live.contains_key(j));
            let later = from_on(live.dom(), j);
            assert forall|n: u64| later.contains(n) implies j <= n < step.next_msg_no by {
                assert(live.dom().contains(n));
                assert(added.dom().contains(n));
            }
            lemma_range_len(later, j, step.next_msg_no);
        }
        assert(step.chain_key == key_after(base, (step.next_msg_no - start) as nat));
        lemma_kept(step, start, base, target, now, ttl);
        assert(advanced(c, target, now, ttl) == advanced(step, target, now, ttl));
    } else {
        assert(advanced(c, target, now, ttl) == c);
    }
}

/// Whether a position keeps the key of message `j` of a chain that starts at `start` with `base`.
pub open spec fn keeps(c: RecvView, base: Seq<u8>, start: u64, j: u64, now: i64, ttl: i64) -> bool {
    &&& c.skipped_keys.contains_key(j)
    &&& c.skipped_keys[j] == (SkippedView {
        aead_key: message_key(key_after(base, (j - start) as nat)),
        nonce: message_nonce(key_after(base, (j - start) as nat)),
        expires_at: saturating_sum(now, ttl),
    })
}

/// A message opens on a receive chain that is not further on than the message, and at most
/// `max_skip` messages behind it, when it was sealed with the keys of its place in the chain.
pub proof fn law_message_within_reach_opens(
    c: RecvView,
    m: MessageView,
    plaintext: Seq<u8>,
    now: i64,
    ttl: i64,
)
    requires
        chain_wf(c),
        c.next_msg_no <= m.header.msg_no,
        m.header.msg_no - c.next_msg_no <= c.max_skip,
        opens_at(
            m,
            key_after(c.chain_key, (m.header.msg_no - c.next_msg_no) as nat),
            plaintext,
        ),
    ensures
        chain_opened(c, m, now, ttl).0 == Ok::<Seq<u8>, CryptoError>(plaintext),
        chain_opened(c, m, now, ttl).1.next_msg_no == next_number(m.header.msg_no),
        chain_opened(c, m, now, ttl).1.chain_key == key_after(
            c.chain_key,
            (m.header.msg_no - c.next_msg_no + 1) as nat,
        ),
        chain_wf(chain_opened(c, m, now, ttl).1) || m.header.msg_no == u64::MAX,
{
    lemma_advanced(c, m.header.msg_no, now, ttl);
}

/// A message that was overtaken by a later one still opens, once, while its key has not expired.
pub proof fn law_overtaken_message_opens(
    c: RecvView,
    later: MessageView,
    late_plain: Seq<u8>,
    earlier: MessageView,
    plaintext: Seq<u8>,
    now: i64,
    then: i64,
    ttl: i64,
)
    requires
        chain_wf(c),
        c.next_msg_no <= earlier.header.msg_no < later.header.msg_no,
        later.header.msg_no - c.next_msg_no <= c.max_skip,
        now < saturating_sum(now, ttl),
        opens_at(
            later,
            key_after(c.chain_key, (later.header.msg_no - c.next_msg_no) as nat),
            late_plain,
        ),
        opens_at(
            earlier,
            key_after(c.chain_key, (earlier.header.msg_no - c.next_msg_no) as nat),
            plaintext,
        ),
        then < saturating_sum(now, ttl),
    ensures
        ({
            let moved = cleaned_chain(chain_opened(c, later, now, ttl).1, then);
            &&& chain_opened(moved, earlier, then, ttl).0 == Ok::<Seq<u8>, CryptoError>(plaintext)
            &&& chain_opened(
                chain_opened(moved, earlier, then, ttl).1,
                earlier,
                then,
                ttl,
            ).0 == Err::<Seq<u8>, CryptoError>(CryptoError::MissingSkippedKey)
        }),
{
    let n = later.header.msg_no;
    let j = earlier.header.msg_no;
    lemma_advanced(c, n, now, ttl);
    assert(key_after(c.chain_key, 0) == c.chain_key);
    lemma_kept(c, c.next_msg_no, c.chain_key, n, now, ttl);
    let at = advanced(c, n, now, ttl);
    assert(keeps(at, c.chain_key, c.next_msg_no, j, now, ttl));
    let moved = chain_opened(c, later, now, ttl).1;
    assert(moved.skipped_keys == at.skipped_keys);
    lemma_live(moved.skipped_keys, then);
    assert(live_keys(moved.skipped_keys, then).contains_key(j));
}

/// A message that has been opened does not open again.
pub proof fn law_opened_message_is_refused(
    c: RecvView,
    m: MessageView,
    now: i64,
    ttl: i64,
    later: i64,
    later_ttl: i64,
)
    requires
        chain_wf(c),
        m.header.msg_no < u64::MAX,
        chain_opened(c, m, now, ttl).0 is Ok,
    ensures
        chain_opened(chain_opened(c, m, now, ttl).1, m, later, later_ttl).0 == Err::<
            Seq<u8>,
            CryptoError,
        >(CryptoError::MissingSkippedKey),
{
    if c.next_msg_no <= m.header.msg_no {
        lemma_advanced(c, m.header.msg_no, now, ttl);
    }
}

/// A message that does not open leaves the chain as it was.
pub proof fn law_refused_message_changes_nothing(c: RecvView, m: MessageView, now: i64, ttl: i64)
    requires
        chain_opened(c, m, now, ttl).0 is Err,
    ensures
        chain_opened(c, m, now, ttl).1 == c,
{
}

/// Whether `receiver` stands where `sender` is about to send.
pub open spec fn in_step(sender: GroupView, receiver: GroupView) -> bool {
    &&& sender.sender is Some
    &&& receiver.sender is Some
    &&& sender.group_id == receiver.group_id
    &&& sender.epoch == receiver.epoch
    &&& sender.me != receiver.me
    &&& receiver.members.contains_key(sender.me)
    &&& receiver.recv.contains_key(sender.me)
    &&& receiver.recv[sender.me].chain_key == sender.sender->0.chain_key
    &&& receiver.recv[sender.me].next_msg_no == sender.sender->0.msg_no
    &&& chain_wf(receiver.recv[sender.me])
}

/// Members that start the same epoch with the same secret, and know each other, are in step.
pub proof fn law_members_of_an_epoch_are_in_step(
    a: GroupView,
    b: GroupView,
    epoch: u64,
    secret: Seq<u8>,
    now_a: i64,
    now_b: i64,
    fresh_a: Seq<u8>,
    fresh_b: Seq<u8>,
)
    requires
        a.group_id == b.group_id,
        a.me != b.me,
        b.members.contains_key(a.me),
    ensures
        in_step(
            activated(a, epoch, secret, now_a, fresh_a),
            activated(b, epoch, secret, now_b, fresh_b),
        ),
{
}

/// What a member encrypts, a member in step decrypts, and the two stay in step.
pub proof fn law_member_in_step_reads_message(
    sender: GroupView,
    receiver: GroupView,
    msg_type: SecureMessageType,
    plaintext: Seq<u8>,
    sent: i64,
    received: i64,
    m: MessageView,
)
    requires
        in_step(sender, receiver),
        encrypted(sender, msg_type, plaintext, sent).0 == Ok::<MessageView, CryptoError>(m),
        opens_at(m, sender.sender->0.chain_key, plaintext),
        sender.sender->0.msg_no < u64::MAX,
    ensures
        decrypted(receiver, m, received).0 == Ok::<Seq<u8>, CryptoError>(plaintext),
        in_step(
            encrypted(sender, msg_type, plaintext, sent).1,
            decrypted(receiver, m, received).1,
        ),
{
    let c = cleaned(receiver, received).recv[sender.me];
    lemma_live(receiver.recv[sender.me].skipped_keys, received);
    assert(c == cleaned_chain(receiver.recv[sender.me], received));
    assert(chain_wf(c)) by {
        assert forall|n: u64| #[trigger] c.skipped_keys.contains_key(n) implies n
            < c.next_msg_no by {
            assert(receiver.recv[sender.me].skipped_keys.contains_key(n));
        }
    }
    reveal_with_fuel(key_after, 2);
    law_message_within_reach_opens(c, m, plaintext, received, receiver.ttl);
}

/// A member's announcement tells its key to a member of the same room that does not know it yet;
/// told again, it changes nothing.
pub proof fn law_announced_key_becomes_known(sender: GroupView, receiver: GroupView, nonce: Seq<u8>)
    requires
        sender.group_id == receiver.group_id,
        sender.auth_key == receiver.auth_key,
        sender.public.len() == 32,
        receiver.members.contains_key(sender.me),
        receiver.members[sender.me].x25519_public is None,
    ensures
        ({
            let a = own_announce(sender, nonce);
            let (out, next) = announced(receiver, a);
            &&& out == Ok::<bool, CryptoError>(true)
            &&& next.members[sender.me].x25519_public == Some(sender.public)
            &&& announced(next, a) == (Ok::<bool, CryptoError>(false), next)
        }),
{
}

/// A known key is never replaced by an announcement.
pub proof fn law_known_key_is_kept(g: GroupView, a: AnnounceView, id: Seq<char>)
    requires
        g.members.contains_key(id),
        g.members[id].x25519_public is Some,
    ensures
        announced(g, a).1.members.contains_key(id),
        announced(g, a).1.members[id] == g.members[id],
{
}

/// A group is sound from the start and stays sound, whatever happens: the member itself is on the
/// roster with the key that it announces, and a pending transition leads to the present roster.
pub proof fn law_group_stays_sound(
    g: GroupView,
    nickname: Seq<char>,
    list: Seq<(Seq<char>, Seq<char>)>,
    announce: AnnounceView,
    commit: CommitView,
    message: MessageView,
    msg_type: SecureMessageType,
    plaintext: Seq<u8>,
    now: i64,
    fresh: Seq<u8>,
)
    requires
        fresh.len() == 32,
    ensures
        sound(fresh_group(g.group_id, g.me, nickname, g.epoch, g.auth_key, fresh)),
        sound(g) ==> {
            &&& sound(with_members(g, list))
            &&& sound(announced(g, announce).1)
            &&& sound(committed(g, commit, now, fresh).1)
            &&& sound(encrypted(g, msg_type, plaintext, now).1)
            &&& sound(decrypted(g, message, now).1)
            &&& sound(cleaned(g, now))
        },
{
    if sound(g) {
        lemma_sound_with_members(g, list);
        match committed_secret(g, commit) {
            Ok(Some(secret)) => {
                lemma_sound_activated(g, commit.new_epoch, secret, now, fresh);
            },
            _ => {},
        }
        let next = announced(g, announce).1;
        if g.members.contains_key(announce.member_id) {
            assert(g.members.insert(announce.member_id, next.members[announce.member_id]).dom()
                =~= g.members.dom());
        }
        assert(next.members.dom() =~= g.members.dom());
    }
}

/// The roster that a list leads to: the members of the list and the member itself. The member's
/// own entry holds the key that it announces, every other member keeps the key that is known, and
/// only the chains of members are kept. The epoch goes on, and a pending transition, new or kept,
/// leads to this roster.
pub proof fn law_roster_follows_list(g: GroupView, list: Seq<(Seq<char>, Seq<char>)>)
    requires
        sound(g),
    ensures
        ({
            let next = with_members(g, list);
            &&& forall|id: Seq<char>| #[trigger]
                next.members.contains_key(id) <==> id == g.me || exists|i: int|
                    0 <= i < list.len() && (#[trigger] list[i]).0 == id
            &&& next.members[g.me].x25519_public == Some(g.public)
            &&& forall|id: Seq<char>| #[trigger]
                next.members.contains_key(id) && id != g.me ==> next.members[id].x25519_public
                    == if g.members.contains_key(id) {
                    g.members[id].x25519_public
                } else {
                    None
                }
            &&& next.recv == g.recv.restrict(next.members.dom())
            &&& next.epoch == g.epoch
            &&& next.sender == g.sender
            &&& next.old == g.old
            &&& next.pending matches Some(p) ==> p.new_members == sorted_set(next.members.dom())
                && p.new_members.no_duplicates()
        }),
{
    lemma_listed_roster(g, list);
    lemma_sound_with_members(g, list);
    lemma_sorted_again(with_members(g, list).members.dom());
}

/// A commit that a member builds on its turn passes the validation of every member that waits for
/// the same change: it leads from the present epoch to the next, names the member as its first
/// proposer, and serves the members of the present roster in their order, each once.
pub proof fn law_built_commit_is_valid(g: GroupView, commit: CommitView, group_secret: Seq<u8>)
    requires
        sound(g),
        may_propose(g),
        carries_secret(g, g.pending->0, commit, group_secret),
    ensures
        commit.old_epoch == g.epoch,
        commit.new_epoch == next_number(g.epoch),
        commit.proposer_id == g.me,
        commit.proposer_attempt == 0,
        recipients(commit.wrapped_secrets) == g.pending->0.new_members,
        g.pending->0.new_members == sorted_set(g.members.dom()),
        commit_fault(
            g.group_id,
            g.epoch,
            commit,
            g.pending->0.old_members,
            g.pending->0.new_members,
        ) is None,
{
    let p = g.pending->0;
    lemma_sorted_again(g.members.dom());
    let rs = recipients(commit.wrapped_secrets);
    assert forall|i: int| 0 <= i < rs.len() implies rs[i] == p.new_members[i] by {
        assert(rs[i] == commit.wrapped_secrets[i].recipient_id);
    }
    assert(rs =~= p.new_members);
}

proof fn lemma_first_for(wrapped: Seq<WrappedView>, i: int)
    requires
        0 <= i < wrapped.len(),
        recipients(wrapped).no_duplicates(),
    ensures
        first_for(wrapped, wrapped[i].recipient_id) == i,
    decreases i,
{
    if i > 0 {
        let rs = recipients(wrapped);
        assert(rs[0] == wrapped[0].recipient_id && rs[i] == wrapped[i].recipient_id);
        let rest = wrapped.drop_first();
        let rr = recipients(rest);
        assert forall|a: int, b: int| 0 <= a < rr.len() && 0 <= b < rr.len() && a != b implies rr[a]
            != rr[b] by {
            assert(rr[a] == rs[a + 1] && rr[b] == rs[b + 1]);
        }
        lemma_first_for(rest, i - 1);
    }
}

/// Every new member finds, in a commit that carries a secret, the secret of the new epoch: a member
/// of the old epoch, or one that is joining, whose key the proposer knows.
pub proof fn law_commit_reaches_member(
    proposer: GroupView,
    member: GroupView,
    commit: CommitView,
    secret: Seq<u8>,
    i: int,
)
    requires
        may_propose(proposer),
        proposer.pending->0.new_members.no_duplicates(),
        carries_secret(proposer, proposer.pending->0, commit, secret),
        awaits_commit(proposer, member, commit, i),
    ensures
        committed_secret(member, commit) == Ok::<Option<Seq<u8>>, CryptoError>(Some(secret)),
{
    let p = proposer.pending->0;
    let ws = commit.wrapped_secrets;
    assert(ws[i].recipient_id == p.new_members[i]);
    assert(recipients(ws) =~= p.new_members) by {
        assert forall|k: int| 0 <= k < ws.len() implies recipients(ws)[k] == p.new_members[k] by {
            assert(ws[k].recipient_id == p.new_members[k]);
        }
    }
    lemma_first_for(ws, i);
    let order = pending_proposers(proposer, p);
    assert(commit_fault(
        member.group_id,
        commit.old_epoch,
        commit,
        p.old_members,
        p.new_members,
    ) is None);
    let plain = proposed_plain(proposer, p, p.new_members[i], secret);
    assert(unwrapped_secret(
        member.me,
        member.secret,
        member.auth_key,
        context_of(commit),
        ws[i],
    ) == Ok::<PlainView, CryptoError>(plain));
    assert(plain_fault(plain, commit, member.me) is None);
}

/// Whether `member`, the one at place `i` of the new roster, waits for the commit of `proposer`: it is
/// in the same room, expects the same change of the roster, and the proposer knows its key.
pub open spec fn awaits_commit(
    proposer: GroupView,
    member: GroupView,
    commit: CommitView,
    i: int,
) -> bool {
    let p = proposer.pending->0;
    &&& 0 <= i < p.new_members.len()
    &&& member.me == p.new_members[i]
    &&& member.group_id == proposer.group_id
    &&& member.auth_key == proposer.auth_key
    &&& member.secret.len() == 32
    &&& proposer.members[member.me].x25519_public == Some(x25519_public(member.secret))
    &&& member.pending matches Some(q)
    &&& q.old_members == p.old_members
    &&& q.new_members == p.new_members
    &&& member.epoch == proposer.epoch || joins_later_epoch(member, q, commit)
}

/// A commit that carries a secret brings any two members that wait for it into the new epoch, in
/// step with each other.
pub proof fn law_commit_brings_members_in_step(
    proposer: GroupView,
    a: GroupView,
    b: GroupView,
    commit: CommitView,
    secret: Seq<u8>,
    i: int,
    j: int,
    now_a: i64,
    now_b: i64,
    fresh_a: Seq<u8>,
    fresh_b: Seq<u8>,
)
    requires
        may_propose(proposer),
        proposer.pending->0.new_members.no_duplicates(),
        carries_secret(proposer, proposer.pending->0, commit, secret),
        awaits_commit(proposer, a, commit, i),
        awaits_commit(proposer, b, commit, j),
        i != j,
        a.members.contains_key(b.me),
        b.members.contains_key(a.me),
    ensures
        committed(a, commit, now_a, fresh_a).0 == Ok::<bool, CryptoError>(true),
        committed(b, commit, now_b, fresh_b).0 == Ok::<bool, CryptoError>(true),
        in_step(committed(a, commit, now_a, fresh_a).1, committed(b, commit, now_b, fresh_b).1),
        in_step(committed(b, commit, now_b, fresh_b).1, committed(a, commit, now_a, fresh_a).1),
{
    law_commit_reaches_member(proposer, a, commit, secret, i);
    law_commit_reaches_member(proposer, b, commit, secret, j);
    law_members_of_an_epoch_are_in_step(
        a,
        b,
        commit.new_epoch,
        secret,
        now_a,
        now_b,
        fresh_a,
        fresh_b,
    );
    law_members_of_an_epoch_are_in_step(
        b,
        a,
        commit.new_epoch,
        secret,
        now_b,
        now_a,
        fresh_b,
        fresh_a,
    );
}

proof fn lemma_none_for(wrapped: Seq<WrappedView>, id: Seq<char>)
    requires
        forall|i: int| 0 <= i < wrapped.len() ==> (#[trigger] wrapped[i]).recipient_id != id,
    ensures
        first_for(wrapped, id) == wrapped.len(),
    decreases wrapped.len(),
{
    if wrapped.len() > 0 {
        let rest = wrapped.drop_first();
        assert(wrapped[0].recipient_id != id);
        assert forall|i: int| 0 <= i < rest.len() implies (#[trigger] rest[i]).recipient_id != id by {
            assert(rest[i] == wrapped[i + 1]);
        }
        lemma_none_for(rest, id);
    }
}

/// Whoever is not a member of the new epoch gets no secret out of the commit that starts it.
pub proof fn law_commit_leaves_out_others(
    proposer: GroupView,
    other: GroupView,
    commit: CommitView,
    secret: Seq<u8>,
)
    requires
        carries_secret(proposer, proposer.pending->0, commit, secret),
        !proposer.pending->0.new_members.contains(other.me),
    ensures
        first_for(commit.wrapped_secrets, other.me) == commit.wrapped_secrets.len(),
        !(committed_secret(other, commit) matches Ok(Some(_))),
{
    let p = proposer.pending->0;
    assert forall|i: int| 0 <= i < commit.wrapped_secrets.len() implies (
    #[trigger] commit.wrapped_secrets[i]).recipient_id != other.me by {
        assert(commit.wrapped_secrets[i].recipient_id == p.new_members[i]);
    }
    lemma_none_for(commit.wrapped_secrets, other.me);
}

/// One who joins reads nothing of the epochs before: a member that has no epoch yet, and enters
/// one, opens no message of another epoch.
pub proof fn law_newcomer_reads_no_earlier_epoch(
    g: GroupView,
    new_epoch: u64,
    secret: Seq<u8>,
    now: i64,
    fresh: Seq<u8>,
    m: MessageView,
    later: i64,
)
    requires
        g.sender is None,
        g.old.len() == 0,
        m.header.epoch != new_epoch,
    ensures
        decrypted(activated(g, new_epoch, secret, now, fresh), m, later).0 is Err,
        decrypted(g, m, later).0 is Err,
{
    let c = cleaned(activated(g, new_epoch, secret, now, fresh), later);
    assert(g.old =~= Seq::<OldView>::empty());
    reveal(Seq::filter);
    assert(c.old.len() == 0);
    assert(cleaned(g, later).old.len() == 0);
}

proof fn lemma_none_old(old_epochs: Seq<OldView>, epoch: u64)
    requires
        forall|i: int| 0 <= i < old_epochs.len() ==> (#[trigger] old_epochs[i]).epoch != epoch,
    ensures
        old_index(old_epochs, epoch) == old_epochs.len(),
    decreases old_epochs.len(),
{
    if old_epochs.len() > 0 {
        let rest = old_epochs.drop_first();
        assert(old_epochs[0].epoch != epoch);
        assert forall|i: int| 0 <= i < rest.len() implies (#[trigger] rest[i]).epoch != epoch by {
            assert(rest[i] == old_epochs[i + 1]);
        }
        lemma_none_old(rest, epoch);
    }
}

/// A message of an epoch whose keys have expired is refused.
pub proof fn law_old_epoch_is_forgotten(g: GroupView, m: MessageView, now: i64)
    requires
        m.header.epoch != g.epoch,
        forall|i: int|
            0 <= i < g.old.len() && (#[trigger] g.old[i]).epoch == m.header.epoch
                ==> g.old[i].expires_at <= now,
    ensures
        decrypted(g, m, now).0 is Err,
{
    let live = |o: OldView| o.expires_at > now;
    let kept = g.old.filter(live);
    let c = cleaned(g, now);
    assert forall|i: int| 0 <= i < c.old.len() implies (#[trigger] c.old[i]).epoch
        != m.header.epoch by {
        g.old.lemma_filter_pred(live, i);
        assert(kept.contains(kept[i]));
        g.old.lemma_filter_contains_rev(live, kept[i]);
        let j = choose|j: int| 0 <= j < g.old.len() && g.old[j] == kept[i];
        assert(g.old[j].expires_at > now);
    }
    lemma_none_old(c.old, m.header.epoch);
}

} // verus!
