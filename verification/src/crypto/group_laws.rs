//! What a group checks, keeps and forgets.
use crate::crypto::chain::{latest_keys, live_keys, saturating_sum, trimmed_keys, SkippedView};
use crate::crypto::epoch::{
    announce_mac, candidates_for, context_of, ordered_proposers, recipients, roster_hash_text,
    unwrapped_secret, ContextView,
};
use crate::crypto::error::CryptoError;
use crate::crypto::group::{
    activated, announced, cleaned, cleaned_chains, committed, committed_secret, decrypted,
    encrypted, first_for, fresh_group, lemma_listed_roster, listed_roster, old_index, with_members,
    GroupView, OldView,
};
use crate::crypto::laws::{from_on, lemma_latest, lemma_live};
use crate::crypto::membership::own_announce;
use crate::crypto::messages::{
    AnnounceView, CommitView, MessageView, SecureMessageType, WrappedView,
};
use crate::outside::x25519::x25519_public;
use vstd::prelude::*;

verus! {

/// An announcement for another group, with a key of another length or with a tag that is not the
/// room's is refused and changes nothing; so does one of somebody who is no member.
pub proof fn law_forged_announcement_changes_nothing(g: GroupView, a: AnnounceView)
    requires
        ({
            ||| a.group_id != g.group_id
            ||| a.x25519_public.len() != 32
            ||| a.mac != announce_mac(
                g.auth_key,
                g.group_id,
                a.epoch,
                a.member_id,
                a.x25519_public,
                a.nonce,
            )
            ||| !g.members.contains_key(a.member_id)
        }),
    ensures
        announced(g, a).1 == g,
        announced(g, a).0 != Ok::<bool, CryptoError>(true),
        g.members.contains_key(a.member_id) ==> announced(g, a).0 is Err,
{
}

/// An announcement that would replace a known key is refused, and the conflict is remembered; the
/// known key stays, and so does everything else.
pub proof fn law_conflicting_key_is_noted(g: GroupView, a: AnnounceView)
    requires
        g.members.contains_key(a.member_id),
        g.members[a.member_id].x25519_public is Some,
        g.members[a.member_id].x25519_public->0 != a.x25519_public,
        a.group_id == g.group_id,
        a.x25519_public.len() == 32,
        a.mac == announce_mac(
            g.auth_key,
            a.group_id,
            a.epoch,
            a.member_id,
            a.x25519_public,
            a.nonce,
        ),
    ensures
        announced(g, a).0 is Err,
        announced(g, a).1.conflicts.contains(a.member_id),
        g.conflicts.subset_of(announced(g, a).1.conflicts),
        announced(g, a).1.members == g.members,
        announced(g, a).1 == (GroupView { conflicts: announced(g, a).1.conflicts, ..g }),
        forall|id: Seq<char>| #[trigger]
            announced(g, a).1.conflicts.contains(id) ==> g.conflicts.contains(id) || id
                == a.member_id,
{
}

/// A member's own announcement says its name, its key and its epoch, under the tag of its room.
pub proof fn law_own_announcement_is_genuine(g: GroupView, nonce: Seq<u8>)
    ensures
        ({
            let a = own_announce(g, nonce);
            &&& a.group_id == g.group_id
            &&& a.epoch == g.epoch
            &&& a.member_id == g.me
            &&& a.x25519_public == g.public
            &&& a.nonce == nonce
            &&& a.mac == announce_mac(
                g.auth_key,
                a.group_id,
                a.epoch,
                a.member_id,
                a.x25519_public,
                a.nonce,
            )
        }),
{
}

/// A commit that a member follows is for its group, leads from one epoch to the next, is about the
/// change that the member waits for, comes from the member whose turn it names, and serves the new
/// members and nobody else. It starts from the member's own epoch, unless the member is the one that
/// joins and the epoch is later.
#[verifier::spinoff_prover]
pub proof fn law_followed_commit_was_checked(g: GroupView, c: CommitView, now: i64, fresh: Seq<u8>)
    requires
        committed(g, c, now, fresh).0 == Ok::<bool, CryptoError>(true),
        c.old_epoch < u64::MAX,
    ensures
        g.pending is Some,
        ({
            let p = g.pending->0;
            let order = ordered_proposers(
                c.group_id,
                c.old_epoch,
                c.event_type,
                c.affected_member_id,
                candidates_for(c.event_type, p.old_members, p.new_members),
            );
            &&& c.group_id == g.group_id
            &&& c.new_epoch == c.old_epoch + 1
            &&& c.old_epoch == g.epoch || (c.old_epoch > g.epoch && p.affected_member_id == g.me
                && c.affected_member_id == g.me && !p.old_members.contains(g.me))
            &&& c.old_roster_hash == roster_hash_text(p.old_members)
            &&& c.new_roster_hash == roster_hash_text(p.new_members)
            &&& c.proposer_attempt < order.len()
            &&& c.proposer_id == order[c.proposer_attempt as int]
            &&& recipients(c.wrapped_secrets).to_set() == p.new_members.to_set()
            &&& first_for(c.wrapped_secrets, g.me) < c.wrapped_secrets.len()
        }),
        ({
            let next = committed(g, c, now, fresh).1;
            &&& next.epoch == c.new_epoch
            &&& next.epoch > g.epoch
            &&& next.pending is None
            &&& next.sender is Some
            &&& next.sender->0.msg_no == 0
            &&& next.me == g.me
            &&& next.group_id == g.group_id
            &&& next.auth_key == g.auth_key
            &&& next.members.dom() == g.members.dom()
        }),
{
    assert(committed(g, c, now, fresh).1.members.dom() =~= g.members.dom());
}

/// A commit that is refused, or that is out of date, changes nothing. One that is out of date is no
/// fault, and one for which nothing is pending is.
pub proof fn law_other_commits_change_nothing(g: GroupView, c: CommitView, now: i64, fresh: Seq<u8>)
    ensures
        committed(g, c, now, fresh).0 != Ok::<bool, CryptoError>(true) ==> committed(
            g,
            c,
            now,
            fresh,
        ).1 == g,
        g.pending is None && (c.old_epoch < g.epoch || c.new_epoch <= g.epoch) ==> committed(
            g,
            c,
            now,
            fresh,
        ).0 == Ok::<bool, CryptoError>(false),
        g.pending is None && c.old_epoch >= g.epoch && c.new_epoch > g.epoch ==> committed(
            g,
            c,
            now,
            fresh,
        ).0 is Err,
        committed(g, c, now, fresh).0 == Ok::<bool, CryptoError>(false) ==> g.pending is None,
{
}

/// Only one who is joining follows a commit of a later epoch than its own, and never one of an
/// earlier.
pub proof fn law_only_who_joins_skips_epochs(g: GroupView, c: CommitView)
    requires
        g.pending is Some,
        c.old_epoch != g.epoch,
        c.old_epoch < g.epoch || g.pending->0.affected_member_id != g.me
            || c.affected_member_id != g.me || g.pending->0.old_members.contains(g.me),
    ensures
        committed_secret(g, c) is Err,
{
}

/// The start of an epoch: the member has a new key, which it announces, and waits for the others'
/// new keys; it knows every other member's chain from the beginning.
pub proof fn law_new_epoch_has_new_keys(
    g: GroupView,
    new_epoch: u64,
    secret: Seq<u8>,
    now: i64,
    fresh: Seq<u8>,
    id: Seq<char>,
)
    requires
        g.members.contains_key(id),
    ensures
        ({
            let next = activated(g, new_epoch, secret, now, fresh);
            &&& next.secret == fresh
            &&& next.public == x25519_public(fresh)
            &&& next.members.contains_key(id)
            &&& next.members[id].member_id == g.members[id].member_id
            &&& next.members[id].nickname == g.members[id].nickname
            &&& id == g.me ==> next.members[id].x25519_public == Some(next.public)
            &&& id != g.me ==> next.members[id].x25519_public is None
            &&& next.recv.contains_key(id) <==> id != g.me
            &&& id != g.me ==> next.recv[id].next_msg_no == 0
            &&& id != g.me ==> next.recv[id].skipped_keys.dom().len() == 0
            &&& id != g.me ==> next.recv[id].max_skip == g.max_skip
        }),
{
}

proof fn lemma_filter_push(s: Seq<OldView>, x: OldView, keep: spec_fn(OldView) -> bool)
    requires
        keep(x),
    ensures
        s.push(x).filter(keep) == s.filter(keep).push(x),
{
    reveal(Seq::filter);
    assert(s.push(x).drop_last() =~= s);
}

proof fn lemma_last_old(old_epochs: Seq<OldView>, epoch: u64)
    requires
        old_epochs.len() > 0,
        old_epochs.last().epoch == epoch,
        forall|i: int| 0 <= i < old_epochs.len() - 1 ==> (#[trigger] old_epochs[i]).epoch != epoch,
    ensures
        old_index(old_epochs, epoch) == old_epochs.len() - 1,
    decreases old_epochs.len(),
{
    if old_epochs.len() > 1 {
        let rest = old_epochs.drop_first();
        assert(old_epochs[0].epoch != epoch);
        assert forall|i: int| 0 <= i < rest.len() - 1 implies (#[trigger] rest[i]).epoch
            != epoch by {
            assert(rest[i] == old_epochs[i + 1]);
        }
        lemma_last_old(rest, epoch);
    }
}

/// What was written in the epoch before is still read after the next one has begun, as long as its
/// keys are kept: reading it gives what it would have given before.
#[verifier::spinoff_prover]
pub proof fn law_previous_epoch_is_still_read(
    g: GroupView,
    new_epoch: u64,
    secret: Seq<u8>,
    now: i64,
    fresh: Seq<u8>,
    m: MessageView,
    later: i64,
)
    requires
        g.sender is Some,
        m.header.epoch == g.epoch,
        new_epoch != g.epoch,
        forall|i: int| 0 <= i < g.old.len() ==> (#[trigger] g.old[i]).epoch != g.epoch,
        now <= later < saturating_sum(now, g.ttl),
    ensures
        decrypted(activated(g, new_epoch, secret, now, fresh), m, later).0 == decrypted(
            g,
            m,
            later,
        ).0,
{
    let next = activated(g, new_epoch, secret, now, fresh);
    let ended = OldView {
        epoch: g.epoch,
        members: g.members,
        recv_chains: g.recv,
        expires_at: saturating_sum(now, g.ttl),
    };
    let live = |o: OldView| o.expires_at > now;
    let live_later = |o: OldView| o.expires_at > later;
    let clean = |o: OldView| OldView { recv_chains: cleaned_chains(o.recv_chains, later), ..o };
    lemma_filter_push(g.old, ended, live);
    let first = g.old.filter(live);
    assert(next.old == first.push(ended));
    lemma_filter_push(first, ended, live_later);
    let second = first.filter(live_later);
    let c = cleaned(next, later);
    assert(c.old =~= second.push(ended).map_values(clean));
    assert forall|i: int| 0 <= i < c.old.len() - 1 implies (#[trigger] c.old[i]).epoch
        != g.epoch by {
        assert(second.contains(second[i]));
        first.lemma_filter_contains_rev(live_later, second[i]);
        g.old.lemma_filter_contains_rev(live, second[i]);
        let j = choose|j: int| 0 <= j < g.old.len() && g.old[j] == second[i];
        assert(g.old[j].epoch != g.epoch);
    }
    lemma_last_old(c.old, g.epoch);
    assert(c.old.last() == clean(ended));
}

/// A message says which group and epoch it belongs to, who sent it, its place and its kind, and the
/// places are counted one by one.
pub proof fn law_message_is_labelled(
    g: GroupView,
    msg_type: SecureMessageType,
    plaintext: Seq<u8>,
    now: i64,
)
    requires
        encrypted(g, msg_type, plaintext, now).0 is Ok,
    ensures
        g.sender is Some,
        ({
            let (out, next) = encrypted(g, msg_type, plaintext, now);
            let header = out->Ok_0.header;
            &&& header.group_id == g.group_id
            &&& header.epoch == g.epoch
            &&& header.sender_id == g.me
            &&& header.msg_no == g.sender->0.msg_no
            &&& header.msg_type == msg_type
            &&& next.sender is Some
            &&& header.msg_no < u64::MAX ==> next.sender->0.msg_no == header.msg_no + 1
            &&& next.epoch == g.epoch
            &&& next.members == g.members
            &&& next.pending == g.pending
        }),
{
}

/// Without an epoch nothing is encrypted.
pub proof fn law_no_epoch_no_message(
    g: GroupView,
    msg_type: SecureMessageType,
    plaintext: Seq<u8>,
    m: MessageView,
    now: i64,
)
    requires
        g.sender is None,
    ensures
        encrypted(g, msg_type, plaintext, now).0 is Err,
        encrypted(g, msg_type, plaintext, now).1.sender is None,
        m.header.epoch == g.epoch ==> decrypted(g, m, now).0 is Err,
{
}

/// Cleaning drops the keys and the epochs whose time is over, and keeps all others as they are.
pub proof fn law_cleaning_drops_what_has_expired(
    g: GroupView,
    now: i64,
    id: Seq<char>,
    n: u64,
    o: OldView,
)
    ensures
        cleaned(g, now).recv.contains_key(id) <==> g.recv.contains_key(id),
        g.recv.contains_key(id) ==> {
            let before = g.recv[id];
            let after = cleaned(g, now).recv[id];
            &&& after.skipped_keys.contains_key(n) <==> before.skipped_keys.contains_key(n)
                && before.skipped_keys[n].expires_at > now
            &&& after.skipped_keys.contains_key(n) ==> after.skipped_keys[n]
                == before.skipped_keys[n]
            &&& after.chain_key == before.chain_key
            &&& after.next_msg_no == before.next_msg_no
            &&& after.max_skip == before.max_skip
        },
        g.old.contains(o) && o.expires_at > now ==> cleaned(g, now).old.contains(
            OldView { recv_chains: cleaned_chains(o.recv_chains, now), ..o },
        ),
        forall|i: int|
            0 <= i < cleaned(g, now).old.len() ==> (#[trigger] cleaned(g, now).old[i]).expires_at
                > now,
        cleaned(g, now) == (GroupView {
            recv: cleaned(g, now).recv,
            old: cleaned(g, now).old,
            ..g
        }),
{
    let live = |o: OldView| o.expires_at > now;
    let clean = |o: OldView| OldView { recv_chains: cleaned_chains(o.recv_chains, now), ..o };
    let kept = g.old.filter(live);
    let c = cleaned(g, now);
    assert(c.old =~= kept.map_values(clean));
    if g.old.contains(o) && o.expires_at > now {
        let i = choose|i: int| 0 <= i < g.old.len() && g.old[i] == o;
        g.old.lemma_filter_contains(live, i);
        let k = choose|k: int| 0 <= k < kept.len() && kept[k] == o;
        assert(c.old[k] == clean(o));
    }
    assert forall|i: int| 0 <= i < c.old.len() implies (#[trigger] c.old[i]).expires_at > now by {
        g.old.lemma_filter_pred(live, i);
        assert(c.old[i] == clean(kept[i]));
    }
}

/// Of the keys of overtaken messages no more are kept than may be skipped, none that has expired,
/// and the latest are kept longest.
pub proof fn law_kept_keys_are_few_and_fresh(
    keys: Map<u64, SkippedView>,
    max: u64,
    now: i64,
    n: u64,
)
    requires
        keys.dom().finite(),
    ensures
        ({
            let kept = trimmed_keys(keys, max, now);
            &&& kept.dom().len() <= max
            &&& kept.contains_key(n) ==> keys.contains_key(n) && kept[n] == keys[n]
                && keys[n].expires_at > now
            &&& keys.contains_key(n) && keys[n].expires_at > now && from_on(
                live_keys(keys, now).dom(),
                n,
            ).len() <= max ==> kept.contains_key(n)
        }),
{
    let live = live_keys(keys, now);
    let kept = trimmed_keys(keys, max, now);
    lemma_live(keys, now);
    lemma_latest(live, max);
    assert(kept == latest_keys(live, max));
    if kept.contains_key(n) {
        assert(kept.dom().contains(n));
        assert(kept.submap_of(live));
        assert(live.dom().contains(n));
        assert(live[n] == kept[n]);
        assert(keys.dom().contains(n) && keys[n] == live[n]);
    }
}

/// A fresh group: the member is alone in it with a key of its own, and has no epoch yet.
pub proof fn law_fresh_group_holds_its_maker(
    group_id: Seq<char>,
    me: Seq<char>,
    nickname: Seq<char>,
    epoch: u64,
    auth_key: Seq<u8>,
    secret: Seq<u8>,
)
    ensures
        ({
            let g = fresh_group(group_id, me, nickname, epoch, auth_key, secret);
            &&& g.group_id == group_id
            &&& g.epoch == epoch
            &&& g.auth_key == auth_key
            &&& g.me == me
            &&& g.sender is None
            &&& g.pending is None
            &&& !g.roster_initialized
            &&& g.members.dom() == set![me]
            &&& g.members[me].nickname == nickname
            &&& g.members[me].x25519_public == Some(x25519_public(secret))
            &&& g.public == x25519_public(secret)
            &&& g.conflicts == Set::<Seq<char>>::empty()
        }),
{
    let g = fresh_group(group_id, me, nickname, epoch, auth_key, secret);
    assert(g.members.dom() =~= set![me]);
}

/// The names of a list are the names of its members, the last where one is listed more than once; the
/// member itself keeps its name where it is not on the list.
pub proof fn law_listed_names_are_known(
    g: GroupView,
    list: Seq<(Seq<char>, Seq<char>)>,
    id: Seq<char>,
    name: Seq<char>,
)
    ensures
        ({
            let next = with_members(g, list.push((id, name)));
            &&& next.members.contains_key(id)
            &&& next.members[id].nickname == name
            &&& next.members[id].member_id == id
        }),
        forall|i: int|
            0 <= i < list.len() && (#[trigger] list[i]).0 != id ==> with_members(
                g,
                list.push((id, name)),
            ).members[list[i].0] == with_members(g, list).members[list[i].0],
        g.members.contains_key(g.me) && (forall|i: int|
            0 <= i < list.len() ==> (#[trigger] list[i]).0 != g.me) ==> with_members(
            g,
            list,
        ).members[g.me].nickname == g.members[g.me].nickname,
{
    let longer = list.push((id, name));
    assert(longer.drop_last() =~= list);
    lemma_listed_roster(g, list);
    lemma_listed_roster(g, longer);
    assert forall|i: int| 0 <= i < list.len() && (#[trigger] list[i]).0 != id implies with_members(
        g,
        longer,
    ).members[list[i].0] == with_members(g, list).members[list[i].0] by {
        assert(listed_roster(g, list).contains_key(list[i].0));
        assert(listed_roster(g, longer).contains_key(list[i].0));
    }
}

/// A new group lets sixty-four messages be overtaken and keeps their keys for five minutes.
pub proof fn law_new_group_has_its_limits(
    group_id: Seq<char>,
    me: Seq<char>,
    nickname: Seq<char>,
    epoch: u64,
    auth_key: Seq<u8>,
    secret: Seq<u8>,
)
    ensures
        fresh_group(group_id, me, nickname, epoch, auth_key, secret).max_skip == 64,
        fresh_group(group_id, me, nickname, epoch, auth_key, secret).ttl == 300,
{
}

/// A wrapped secret opens only for the one it is wrapped for, with the right lengths.
pub proof fn law_wrapped_secret_is_for_its_recipient(
    me: Seq<char>,
    secret: Seq<u8>,
    auth_key: Seq<u8>,
    context: ContextView,
    wrapped: WrappedView,
)
    ensures
        unwrapped_secret(me, secret, auth_key, context, wrapped) is Ok
            ==> wrapped.recipient_id == me
            && wrapped.nonce.len() == 12 && wrapped.proposer_x25519_pub.len() == 32,
        wrapped.recipient_id != me ==> unwrapped_secret(me, secret, auth_key, context, wrapped)
            is Err,
{
}

/// The secret of a new epoch is taken only out of a wrapping that says the same as its commit: the
/// group, both epochs, the event, the roster and the recipient.
pub proof fn law_secret_fits_its_commit(g: GroupView, c: CommitView, secret: Seq<u8>)
    requires
        committed_secret(g, c) == Ok::<Option<Seq<u8>>, CryptoError>(Some(secret)),
    ensures
        secret.len() == 32,
        ({
            let at = first_for(c.wrapped_secrets, g.me);
            unwrapped_secret(g.me, g.secret, g.auth_key, context_of(c), c.wrapped_secrets[at])
                matches Ok(plain) && plain.group_secret == secret && plain.group_id == c.group_id
                && plain.old_epoch == c.old_epoch && plain.new_epoch == c.new_epoch
                && plain.event_type == c.event_type && plain.recipient_id == g.me
                && plain.new_roster_hash == c.new_roster_hash
        }),
{
}

/// A list of members is remembered as one, and changes nothing but the roster, the chains and what is
/// waited for.
pub proof fn law_list_changes_the_roster_only(g: GroupView, list: Seq<(Seq<char>, Seq<char>)>)
    ensures
        ({
            let next = with_members(g, list);
            &&& next.roster_initialized
            &&& next == (GroupView {
                members: next.members,
                recv: next.recv,
                pending: next.pending,
                roster_initialized: true,
                ..g
            })
        }),
{
}

/// A new epoch changes neither who one is nor the room's key, the limits and the noted conflicts.
pub proof fn law_epoch_keeps_the_rest(
    g: GroupView,
    new_epoch: u64,
    secret: Seq<u8>,
    now: i64,
    fresh: Seq<u8>,
)
    ensures
        ({
            let next = activated(g, new_epoch, secret, now, fresh);
            &&& next.epoch == new_epoch
            &&& next.pending is None
            &&& next.sender is Some
            &&& next.group_id == g.group_id
            &&& next.me == g.me
            &&& next.auth_key == g.auth_key
            &&& next.ttl == g.ttl
            &&& next.max_skip == g.max_skip
            &&& next.conflicts == g.conflicts
            &&& next.roster_initialized == g.roster_initialized
        }),
{
}

} // verus!
