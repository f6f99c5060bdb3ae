//! What a change of the roster leads to: who notices it, who proposes the next epoch, and who gets
//! into it.
use crate::crypto::chain::next_number;
use crate::crypto::epoch::{candidates_for, ordered_proposers, proposer_rank};
use crate::crypto::error::CryptoError;
use crate::crypto::group::{
    all_keys_known, announced, carries_secret, cleaned, committed, committed_secret, decrypted,
    encrypted, fresh_group, initial_join, joins_later_epoch, lemma_listed_roster,
    lemma_sound_with_members, may_propose, missing_from, next_roster, other_than, others_of,
    pending_proposers, sound, with_members, GroupView,
};
use crate::crypto::laws::{
    awaits_commit, in_step, law_commit_leaves_out_others, law_commit_reaches_member,
    law_members_of_an_epoch_are_in_step,
};
use crate::crypto::messages::{
    AnnounceView, CommitView, EpochEventType, MessageView, SecureMessageType,
};
use crate::outside::x25519::x25519_public;
use crate::util::order::{
    lemma_map_multiset, lemma_ranked_order_total, lemma_sorted_again, lemma_sorted_set,
    lemma_str_order_total, ranked_order, sorted_set, sorted_texts, str_leq, str_order,
};
use vstd::prelude::*;
use vstd::relations::sorted_by;

verus! {

/// Whether a sequence lists a set: each of its members once, in ascending order.
pub open spec fn lists(v: Seq<Seq<char>>, s: Set<Seq<char>>) -> bool {
    &&& v.no_duplicates()
    &&& forall|x: Seq<char>| #[trigger] v.contains(x) <==> s.contains(x)
    &&& forall|i: int, j: int|
        0 <= i < j < v.len() ==> str_leq(#[trigger] v[i], #[trigger] v[j])
}

/// Whether a list of the server names someone.
pub open spec fn named(list: Seq<(Seq<char>, Seq<char>)>, id: Seq<char>) -> bool {
    exists|i: int| 0 <= i < list.len() && (#[trigger] list[i]).0 == id
}

/// Whether a list of the server names the members of a set, but for the reader, who is one of them.
pub open spec fn names_members(
    list: Seq<(Seq<char>, Seq<char>)>,
    me: Seq<char>,
    members: Set<Seq<char>>,
) -> bool {
    members.contains(me) && forall|id: Seq<char>|
        id != me ==> (members.contains(id) <==> #[trigger] named(list, id))
}

proof fn lemma_filter_none(v: Seq<Seq<char>>, p: spec_fn(Seq<char>) -> bool)
    requires
        forall|i: int| 0 <= i < v.len() ==> !p(#[trigger] v[i]),
    ensures
        v.filter(p) == Seq::<Seq<char>>::empty(),
    decreases v.len(),
{
    reveal(Seq::filter);
    if v.len() > 0 {
        let front = v.drop_last();
        assert forall|i: int| 0 <= i < front.len() implies !p(#[trigger] front[i]) by {
            assert(front[i] == v[i]);
        }
        assert(!p(v[v.len() - 1]));
        lemma_filter_none(front, p);
    }
}

proof fn lemma_filter_one(v: Seq<Seq<char>>, p: spec_fn(Seq<char>) -> bool, x: Seq<char>)
    requires
        v.no_duplicates(),
        v.contains(x),
        p(x),
        forall|i: int| 0 <= i < v.len() && p(#[trigger] v[i]) ==> v[i] == x,
    ensures
        v.filter(p) == seq![x],
    decreases v.len(),
{
    reveal(Seq::filter);
    let front = v.drop_last();
    let k = choose|k: int| 0 <= k < v.len() && v[k] == x;
    assert forall|i: int| 0 <= i < front.len() && p(#[trigger] front[i]) implies front[i] == x by {
        assert(front[i] == v[i]);
    }
    if k == v.len() - 1 {
        assert forall|i: int| 0 <= i < front.len() implies !p(#[trigger] front[i]) by {
            assert(v[i] == front[i]);
            assert(v[i] != v[k]);
        }
        lemma_filter_none(front, p);
        assert(v.filter(p) =~= seq![x]);
    } else {
        assert(front[k] == x);
        assert(front.contains(x));
        lemma_filter_one(front, p, x);
        assert(v[v.len() - 1] != v[k]);
        assert(!p(v.last()));
    }
}

/// What is kept of a list in ascending order is in ascending order.
proof fn lemma_filter_lists(v: Seq<Seq<char>>, p: spec_fn(Seq<char>) -> bool)
    requires
        v.no_duplicates(),
        sorted_by(v, str_order()),
    ensures
        v.filter(p).no_duplicates(),
        sorted_by(v.filter(p), str_order()),
        forall|x: Seq<char>| #[trigger] v.filter(p).contains(x) <==> v.contains(x) && p(x),
    decreases v.len(),
{
    reveal(Seq::filter);
    let f = v.filter(p);
    if v.len() > 0 {
        let front = v.drop_last();
        let last = v.last();
        lemma_filter_lists(front, p);
        let g = front.filter(p);
        let leq = str_order();
        assert forall|x: Seq<char>| #[trigger] f.contains(x) <==> v.contains(x) && p(x) by {
            if v.contains(x) {
                let k = choose|k: int| 0 <= k < v.len() && v[k] == x;
                if k < front.len() {
                    assert(front[k] == x);
                }
            }
            if front.contains(x) {
                let k = choose|k: int| 0 <= k < front.len() && front[k] == x;
                assert(v[k] == x);
            }
            if g.contains(x) {
                let k = choose|k: int| 0 <= k < g.len() && g[k] == x;
                assert(f[k] == x);
            }
            if p(last) {
                assert(f[g.len() as int] == last);
            }
            assert(v[v.len() - 1] == last);
            if f.contains(x) {
                let k = choose|k: int| 0 <= k < f.len() && f[k] == x;
                if k < g.len() {
                    assert(g[k] == x);
                }
            }
        }
        if p(last) {
            assert forall|i: int| 0 <= i < g.len() implies leq(#[trigger] g[i], last) && g[i]
                != last by {
                assert(g.contains(g[i]));
                let k = choose|k: int| 0 <= k < front.len() && front[k] == g[i];
                assert(v[k] == g[i]);
                assert(leq(v[k], v[v.len() - 1]));
            }
            assert forall|i: int, j: int| 0 <= i < j < f.len() implies #[trigger] leq(
                f[i],
                f[j],
            ) by {
                if j < g.len() {
                    assert(leq(g[i], g[j]));
                } else {
                    assert(f[i] == g[i]);
                }
            }
        }
    }
}

/// The sorted members of a set list it, and nothing else does.
pub proof fn law_sorted_members_list_the_set(s: Set<Seq<char>>, v: Seq<Seq<char>>)
    requires
        s.finite(),
    ensures
        lists(sorted_set(s), s),
        lists(v, s) ==> v == sorted_set(s),
{
    lemma_str_order_total();
    lemma_sorted_again(s);
    let w = sorted_set(s);
    w.lemma_sort_by_ensures(str_order());
    assert forall|x: Seq<char>| #[trigger] w.contains(x) <==> s.contains(x) by {
        assert(w.to_set().contains(x) <==> w.contains(x));
    }
    let leq = str_order();
    assert forall|i: int, j: int| 0 <= i < j < w.len() implies str_leq(
        #[trigger] w[i],
        #[trigger] w[j],
    ) by {
        assert(leq(w[i], w[j]));
    }
    if lists(v, s) {
        assert(v.to_set() =~= s);
        lemma_sorted_set(v, s);
        v.lemma_sort_by_ensures(leq);
        assert(sorted_by(v, leq));
        vstd::seq_lib::lemma_sorted_unique(v, v.sort_by(leq), leq);
    }
}

proof fn lemma_lists_sorted(v: Seq<Seq<char>>, s: Set<Seq<char>>)
    requires
        s.finite(),
        v == sorted_set(s),
    ensures
        v.no_duplicates(),
        sorted_by(v, str_order()),
        sorted_texts(v) == v,
        forall|x: Seq<char>| #[trigger] v.contains(x) <==> s.contains(x),
{
    law_sorted_members_list_the_set(s, v);
    lemma_sorted_again(s);
    assert(sorted_by(v, str_order()));
}

/// The roster that a list leads to.
proof fn lemma_next_members(
    g: GroupView,
    list: Seq<(Seq<char>, Seq<char>)>,
    members: Set<Seq<char>>,
)
    requires
        names_members(list, g.me, members),
    ensures
        next_roster(g, list).dom() == members,
        members.finite(),
{
    lemma_listed_roster(g, list);
    let next = next_roster(g, list);
    assert forall|id: Seq<char>| next.dom().contains(id) <==> members.contains(id) by {
        if id != g.me {
            assert(members.contains(id) <==> named(list, id));
            if named(list, id) {
                let i = choose|i: int| 0 <= i < list.len() && (#[trigger] list[i]).0 == id;
                assert(list[i].0 == id);
            }
            assert(next.contains_key(id) == crate::crypto::group::listed_roster(
                g,
                list,
            ).contains_key(id));
        }
    }
    assert(next.dom() =~= members);
}

/// When one member is missing from the list, that member has left: the group waits for an epoch
/// without it, and knows who was there before and who is there now.
pub proof fn law_leaving_is_noticed(
    g: GroupView,
    list: Seq<(Seq<char>, Seq<char>)>,
    gone: Seq<char>,
)
    requires
        sound(g),
        g.roster_initialized || g.sender is Some,
        gone != g.me,
        g.members.contains_key(gone),
        names_members(list, g.me, g.members.dom().remove(gone)),
    ensures
        with_members(g, list).pending matches Some(p) && {
            &&& p.event_type == EpochEventType::Leave
            &&& p.affected_member_id == gone
            &&& lists(p.old_members, g.members.dom())
            &&& lists(p.new_members, g.members.dom().remove(gone))
        },
        !with_members(g, list).members.contains_key(gone),
{
    let before = g.members.dom();
    let after = before.remove(gone);
    lemma_next_members(g, list, after);
    let o = sorted_set(before);
    let n = sorted_set(after);
    lemma_lists_sorted(o, before);
    lemma_lists_sorted(n, after);
    law_sorted_members_list_the_set(before, o);
    law_sorted_members_list_the_set(after, n);
    assert(o.contains(gone) && !n.contains(gone));
    let not_o = |id: Seq<char>| !o.contains(id);
    let not_n = |id: Seq<char>| !n.contains(id);
    assert forall|i: int| 0 <= i < n.len() implies !not_o(#[trigger] n[i]) by {
        assert(n.contains(n[i]));
    }
    lemma_filter_none(n, not_o);
    assert forall|i: int| 0 <= i < o.len() && not_n(#[trigger] o[i]) implies o[i] == gone by {
        assert(o.contains(o[i]));
    }
    lemma_filter_one(o, not_n, gone);
    assert(missing_from(n, o) == n.filter(not_o));
    assert(missing_from(o, n) == o.filter(not_n));
}

/// When one more member is on the list, that member has joined: the group waits for an epoch with
/// it, and knows who was there before and who is there now.
pub proof fn law_joining_is_noticed(
    g: GroupView,
    list: Seq<(Seq<char>, Seq<char>)>,
    came: Seq<char>,
)
    requires
        sound(g),
        g.roster_initialized || g.sender is Some,
        !g.members.contains_key(came),
        names_members(list, g.me, g.members.dom().insert(came)),
    ensures
        with_members(g, list).pending matches Some(p) && {
            &&& p.event_type == EpochEventType::Join
            &&& p.affected_member_id == came
            &&& lists(p.old_members, g.members.dom())
            &&& lists(p.new_members, g.members.dom().insert(came))
        },
        with_members(g, list).members.contains_key(came),
{
    let before = g.members.dom();
    let after = before.insert(came);
    lemma_next_members(g, list, after);
    let o = sorted_set(before);
    let n = sorted_set(after);
    lemma_lists_sorted(o, before);
    lemma_lists_sorted(n, after);
    law_sorted_members_list_the_set(before, o);
    law_sorted_members_list_the_set(after, n);
    assert(n.contains(came) && !o.contains(came));
    let not_o = |id: Seq<char>| !o.contains(id);
    let not_n = |id: Seq<char>| !n.contains(id);
    assert forall|i: int| 0 <= i < o.len() implies !not_n(#[trigger] o[i]) by {
        assert(o.contains(o[i]));
    }
    lemma_filter_none(o, not_n);
    assert forall|i: int| 0 <= i < n.len() && not_o(#[trigger] n[i]) implies n[i] == came by {
        assert(n.contains(n[i]));
    }
    lemma_filter_one(n, not_o, came);
    assert(missing_from(n, o) == n.filter(not_o));
    assert(missing_from(o, n) == o.filter(not_n));
}

/// A list that changes nothing about who is there leaves a pending change as it is.
pub proof fn law_same_roster_changes_no_plan(g: GroupView, list: Seq<(Seq<char>, Seq<char>)>)
    requires
        sound(g),
        g.roster_initialized,
        names_members(list, g.me, g.members.dom()),
    ensures
        with_members(g, list).pending == g.pending,
        with_members(g, list).members.dom() == g.members.dom(),
{
    lemma_next_members(g, list, g.members.dom());
}

/// What the first list of a room means to someone who joins it.
proof fn lemma_initial_join(me: Seq<char>, previous: Seq<Seq<char>>, s: Set<Seq<char>>)
    requires
        s.finite(),
        initial_join(me, previous, sorted_set(s)) is Some || (sorted_texts(previous) == seq![me]
            && s.contains(me) && exists|x: Seq<char>| #[trigger] s.contains(x) && x != me),
    ensures
        initial_join(me, previous, sorted_set(s)) matches Some(p) && {
            &&& p.event_type == EpochEventType::Join
            &&& p.affected_member_id == me
            &&& s.contains(me)
            &&& lists(p.old_members, s.remove(me))
            &&& lists(p.new_members, s)
        },
{
    let n = sorted_set(s);
    lemma_lists_sorted(n, s);
    law_sorted_members_list_the_set(s, n);
    let p = other_than(me);
    lemma_filter_lists(n, p);
    let others = n.filter(p);
    let leq = str_order();
    assert forall|i: int, j: int| 0 <= i < j < others.len() implies str_leq(
        #[trigger] others[i],
        #[trigger] others[j],
    ) by {
        assert(leq(others[i], others[j]));
    }
    if initial_join(me, previous, n) is None {
        let x = choose|x: Seq<char>| #[trigger] s.contains(x) && x != me;
        assert(n.contains(x) && n.contains(me));
        assert(others.contains(x));
        let a = choose|a: int| 0 <= a < n.len() && n[a] == x;
        let b = choose|b: int| 0 <= b < n.len() && n[b] == me;
        assert(a != b);
        assert(others_of(n, me) == others);
        assert(false);
    }
    assert(others_of(n, me) == others);
    assert(n.contains(me));
    assert(lists(others, s.remove(me)));
}

/// A member without an epoch that sees a room with others in it for the first time waits to be let
/// in: it is the one that joins, and the others were there before.
pub proof fn law_newcomer_waits_to_be_let_in(
    group_id: Seq<char>,
    me: Seq<char>,
    nickname: Seq<char>,
    epoch: u64,
    auth_key: Seq<u8>,
    secret: Seq<u8>,
    list: Seq<(Seq<char>, Seq<char>)>,
    members: Set<Seq<char>>,
    other: Seq<char>,
)
    requires
        names_members(list, me, members),
        members.contains(other),
        other != me,
    ensures
        ({
            let g = with_members(
                fresh_group(group_id, me, nickname, epoch, auth_key, secret),
                list,
            );
            &&& g.members.dom() == members
            &&& g.epoch == epoch
            &&& g.sender is None
            &&& g.pending matches Some(p) && {
                &&& p.event_type == EpochEventType::Join
                &&& p.affected_member_id == me
                &&& lists(p.old_members, members.remove(me))
                &&& lists(p.new_members, members)
            }
        }),
{
    let g = fresh_group(group_id, me, nickname, epoch, auth_key, secret);
    lemma_next_members(g, list, members);
    let n = sorted_set(members);
    lemma_lists_sorted(n, members);
    let mine = g.members.dom();
    assert(mine =~= set![me]);
    let o = sorted_set(mine);
    lemma_lists_sorted(o, mine);
    law_sorted_members_list_the_set(mine, seq![me]);
    assert(lists(seq![me], mine)) by {
        assert(seq![me][0] == me);
    }
    assert(o == seq![me]);
    lemma_initial_join(me, o, members);
}

/// Whether a pending change is one that happened: someone who is not among the earlier members has
/// joined, or someone who was has left, and nothing else differs.
pub open spec fn one_change(g: GroupView) -> bool {
    g.pending matches Some(p) ==> {
        let id = p.affected_member_id;
        let now = g.members.dom();
        &&& lists(p.new_members, now)
        &&& match p.event_type {
            EpochEventType::Join => now.contains(id) && lists(p.old_members, now.remove(id)),
            EpochEventType::Leave => !now.contains(id) && lists(p.old_members, now.insert(id)),
            _ => false,
        }
    }
}

proof fn lemma_filter_single(v: Seq<Seq<char>>, p: spec_fn(Seq<char>) -> bool)
    requires
        v.filter(p).len() == 1,
        sorted_by(v, str_order()),
        v.no_duplicates(),
    ensures
        v.contains(v.filter(p)[0]),
        p(v.filter(p)[0]),
        forall|x: Seq<char>| #[trigger] v.contains(x) && p(x) ==> x == v.filter(p)[0],
{
    lemma_filter_lists(v, p);
    let f = v.filter(p);
    assert(f.contains(f[0]));
    assert forall|x: Seq<char>| #[trigger] v.contains(x) && p(x) implies x == f[0] by {
        assert(f.contains(x));
    }
}

proof fn lemma_filter_empty(v: Seq<Seq<char>>, p: spec_fn(Seq<char>) -> bool)
    requires
        v.filter(p).len() == 0,
        sorted_by(v, str_order()),
        v.no_duplicates(),
    ensures
        forall|x: Seq<char>| #[trigger] v.contains(x) ==> !p(x),
{
    lemma_filter_lists(v, p);
    assert forall|x: Seq<char>| #[trigger] v.contains(x) implies !p(x) by {
        if p(x) {
            assert(v.filter(p).contains(x));
        }
    }
}

proof fn lemma_transition_is_one_change(g: GroupView, next: GroupView)
    requires
        g.members.dom().finite(),
        next.members.dom().finite(),
        next.pending == crate::crypto::group::roster_transition(
            sorted_set(g.members.dom()),
            sorted_set(next.members.dom()),
        ),
    ensures
        one_change(next),
{
    let before = g.members.dom();
    let after = next.members.dom();
    let o = sorted_set(before);
    let n = sorted_set(after);
    lemma_lists_sorted(o, before);
    lemma_lists_sorted(n, after);
    law_sorted_members_list_the_set(before, o);
    law_sorted_members_list_the_set(after, n);
    let not_o = |id: Seq<char>| !o.contains(id);
    let not_n = |id: Seq<char>| !n.contains(id);
    assert(missing_from(n, o) == n.filter(not_o));
    assert(missing_from(o, n) == o.filter(not_n));
    if let Some(p) = next.pending {
        let id = p.affected_member_id;
        if p.event_type == EpochEventType::Join {
            lemma_filter_single(n, not_o);
            lemma_filter_empty(o, not_n);
            assert forall|x: Seq<char>| before.contains(x) <==> after.remove(id).contains(x) by {
                assert(o.contains(x) <==> before.contains(x));
                assert(n.contains(x) <==> after.contains(x));
            }
            assert(before =~= after.remove(id));
        } else {
            lemma_filter_single(o, not_n);
            lemma_filter_empty(n, not_o);
            assert forall|x: Seq<char>| before.contains(x) <==> after.insert(id).contains(x) by {
                assert(o.contains(x) <==> before.contains(x));
                assert(n.contains(x) <==> after.contains(x));
            }
            assert(before =~= after.insert(id));
        }
    }
}

/// What a group waits for is always one change that happened, whatever comes in.
pub proof fn law_pending_change_is_one_change(
    g: GroupView,
    list: Seq<(Seq<char>, Seq<char>)>,
    announce: AnnounceView,
    commit: CommitView,
    message: MessageView,
    msg_type: SecureMessageType,
    plaintext: Seq<u8>,
    now: i64,
    fresh: Seq<u8>,
)
    requires
        sound(g),
        one_change(g),
    ensures
        one_change(with_members(g, list)),
        one_change(announced(g, announce).1),
        one_change(committed(g, commit, now, fresh).1),
        one_change(encrypted(g, msg_type, plaintext, now).1),
        one_change(decrypted(g, message, now).1),
        one_change(cleaned(g, now)),
{
    let next = with_members(g, list);
    lemma_sound_with_members(g, list);
    assert(next.members == next_roster(g, list));
    if g.roster_initialized {
        if sorted_set(g.members.dom()) != sorted_set(next.members.dom()) {
            lemma_transition_is_one_change(g, next);
        } else {
            lemma_sorted_again(g.members.dom());
            lemma_sorted_again(next.members.dom());
            assert(next.members.dom() == g.members.dom());
        }
    } else if g.sender is Some {
        lemma_transition_is_one_change(g, next);
    } else if next.pending is Some {
        let s = next.members.dom();
        let n = sorted_set(s);
        lemma_lists_sorted(n, s);
        law_sorted_members_list_the_set(s, n);
        lemma_initial_join(g.me, sorted_set(g.members.dom()), s);
    }
    let told = announced(g, announce).1;
    if g.members.contains_key(announce.member_id) {
        assert(g.members.insert(announce.member_id, told.members[announce.member_id]).dom()
            =~= g.members.dom());
    }
    assert(told.members.dom() =~= g.members.dom());
}

/// The proposers of an epoch change are those who were there before and still are: each of them
/// once, in an order that depends on nothing but the group, the epoch and the change.
pub proof fn law_remaining_members_propose(g: GroupView)
    requires
        sound(g),
        one_change(g),
        g.pending is Some,
    ensures
        ({
            let p = g.pending->0;
            let order = pending_proposers(g, p);
            &&& order.no_duplicates()
            &&& forall|id: Seq<char>| #[trigger]
                order.contains(id) <==> p.old_members.contains(id) && p.new_members.contains(id)
        }),
{
    let p = g.pending->0;
    let c = candidates_for(p.event_type, p.old_members, p.new_members);
    lemma_order_of(g.group_id, g.epoch, p.event_type, p.affected_member_id, c);
    let order = pending_proposers(g, p);
    assert forall|id: Seq<char>| #[trigger]
        order.contains(id) <==> p.old_members.contains(id) && p.new_members.contains(id) by {
        assert(c.contains(id) <==> order.contains(id));
    }
}

/// The ordered proposers are the candidates.
proof fn lemma_order_of(
    group_id: Seq<char>,
    epoch: u64,
    event: EpochEventType,
    affected: Seq<char>,
    candidates: Seq<Seq<char>>,
)
    requires
        candidates.no_duplicates(),
    ensures
        ({
            let order = ordered_proposers(group_id, epoch, event, affected, candidates);
            &&& order.len() == candidates.len()
            &&& order.no_duplicates()
            &&& forall|id: Seq<char>| #[trigger] order.contains(id) <==> candidates.contains(id)
        }),
{
    broadcast use {
        vstd::multiset::group_multiset_axioms,
        vstd::seq_lib::to_multiset_contains,
        vstd::seq_lib::to_multiset_len,
    };

    lemma_ranked_order_total();
    let rank = |c: Seq<char>| (proposer_rank(group_id, epoch, event, affected, c), c);
    let text = |r: (Seq<u8>, Seq<char>)| r.1;
    let ranked = candidates.map_values(rank);
    let sorted = ranked.sort_by(ranked_order());
    ranked.lemma_sort_by_ensures(ranked_order());
    lemma_map_multiset(sorted, ranked, text);
    let order = ordered_proposers(group_id, epoch, event, affected, candidates);
    assert(order =~= sorted.map_values(text));
    assert(ranked.map_values(text) =~= candidates);
    candidates.lemma_multiset_has_no_duplicates();
    order.lemma_multiset_has_no_duplicates_conv();
    assert(order.to_multiset().len() == order.len());
    assert(candidates.to_multiset().len() == candidates.len());
    assert forall|id: Seq<char>| #[trigger] order.contains(id) <==> candidates.contains(id) by {
        assert(order.to_multiset().count(id) == candidates.to_multiset().count(id));
    }
}

/// Among the members who see the same change in the same epoch, one has the turn to propose the next
/// epoch, and no other; it is one who was there before and still is. It may propose as soon as it
/// knows everyone's key.
pub proof fn law_one_member_has_the_turn(g: GroupView, other: GroupView)
    requires
        sound(g),
        one_change(g),
        g.pending is Some,
        g.sender is Some,
        g.pending->0.old_members.contains(g.me),
        g.pending->0.new_members.contains(g.me),
        other.group_id == g.group_id,
        other.epoch == g.epoch,
        other.pending == g.pending,
        other.me != g.me,
    ensures
        ({
            let order = pending_proposers(g, g.pending->0);
            &&& order.len() > 0
            &&& g.pending->0.old_members.contains(order[0])
            &&& g.pending->0.new_members.contains(order[0])
            &&& all_keys_known(g.members, g.pending->0.new_members) ==> (may_propose(g) <==> g.me
                == order[0])
        }),
        may_propose(g) ==> !may_propose(other),
{
    law_remaining_members_propose(g);
    let order = pending_proposers(g, g.pending->0);
    assert(order.contains(g.me));
    assert(order.contains(order[0]));
}

/// Someone who joins a room whose group is in any epoch is let in by the commit for its joining: it
/// gets the secret that the commit carries. The newcomer is one that has no epoch and has taken up
/// the list of the room, and whose key the proposer knows.
pub proof fn law_newcomer_is_let_in(
    proposer: GroupView,
    commit: CommitView,
    group_secret: Seq<u8>,
    me: Seq<char>,
    nickname: Seq<char>,
    epoch: u64,
    secret: Seq<u8>,
    list: Seq<(Seq<char>, Seq<char>)>,
    now: i64,
    fresh: Seq<u8>,
    now_proposer: i64,
    fresh_proposer: Seq<u8>,
)
    requires
        sound(proposer),
        one_change(proposer),
        may_propose(proposer),
        proposer.pending->0.event_type == EpochEventType::Join,
        proposer.pending->0.affected_member_id == me,
        carries_secret(proposer, proposer.pending->0, commit, group_secret),
        names_members(list, me, proposer.members.dom()),
        epoch <= proposer.epoch,
        secret.len() == 32,
        proposer.members[me].x25519_public == Some(x25519_public(secret)),
        proposer.me != me,
    ensures
        ({
            let newcomer = with_members(
                fresh_group(
                    proposer.group_id,
                    me,
                    nickname,
                    epoch,
                    proposer.auth_key,
                    secret,
                ),
                list,
            );
            let inside = committed(newcomer, commit, now, fresh).1;
            let host = committed(proposer, commit, now_proposer, fresh_proposer).1;
            &&& committed_secret(newcomer, commit) == Ok::<Option<Seq<u8>>, CryptoError>(
                Some(group_secret),
            )
            &&& committed(newcomer, commit, now, fresh).0 == Ok::<bool, CryptoError>(true)
            &&& inside.epoch == next_number(proposer.epoch)
            &&& inside.sender is Some
            &&& committed(proposer, commit, now_proposer, fresh_proposer).0 == Ok::<
                bool,
                CryptoError,
            >(true)
            &&& in_step(inside, host)
            &&& in_step(host, inside)
        }),
{
    let members = proposer.members.dom();
    let newcomer = with_members(
        fresh_group(proposer.group_id, me, nickname, epoch, proposer.auth_key, secret),
        list,
    );
    law_newcomer_waits_to_be_let_in(
        proposer.group_id,
        me,
        nickname,
        epoch,
        proposer.auth_key,
        secret,
        list,
        members,
        proposer.me,
    );
    let p = proposer.pending->0;
    let q = newcomer.pending->0;
    law_sorted_members_list_the_set(members, p.new_members);
    law_sorted_members_list_the_set(members, q.new_members);
    law_sorted_members_list_the_set(members.remove(me), p.old_members);
    law_sorted_members_list_the_set(members.remove(me), q.old_members);
    assert(p.new_members.contains(me));
    let i = choose|i: int| 0 <= i < p.new_members.len() && p.new_members[i] == me;
    assert(q.new_members.contains(me));
    assert(!q.old_members.contains(me));
    assert(newcomer.epoch == proposer.epoch || joins_later_epoch(newcomer, q, commit));
    assert(awaits_commit(proposer, newcomer, commit, i));
    law_commit_reaches_member(proposer, newcomer, commit, group_secret, i);
    assert(p.new_members.contains(proposer.me));
    let j = choose|j: int| 0 <= j < p.new_members.len() && p.new_members[j] == proposer.me;
    assert(awaits_commit(proposer, proposer, commit, j));
    law_commit_reaches_member(proposer, proposer, commit, group_secret, j);
    assert(newcomer.members.contains_key(proposer.me));
    assert(proposer.members.contains_key(me));
    law_members_of_an_epoch_are_in_step(
        newcomer,
        proposer,
        commit.new_epoch,
        group_secret,
        now,
        now_proposer,
        fresh,
        fresh_proposer,
    );
    law_members_of_an_epoch_are_in_step(
        proposer,
        newcomer,
        commit.new_epoch,
        group_secret,
        now_proposer,
        now,
        fresh_proposer,
        fresh,
    );
}

/// Someone who has left gets no secret out of the commit for the leaving, and reads nothing that is
/// written in the epoch that it starts, while the one who built it goes on to that epoch.
pub proof fn law_leaver_is_shut_out(
    proposer: GroupView,
    commit: CommitView,
    group_secret: Seq<u8>,
    leaver: GroupView,
    now: i64,
    fresh: Seq<u8>,
    msg_type: SecureMessageType,
    plaintext: Seq<u8>,
    sent: i64,
    message: MessageView,
    later: i64,
)
    requires
        sound(proposer),
        one_change(proposer),
        may_propose(proposer),
        proposer.pending->0.event_type == EpochEventType::Leave,
        proposer.pending->0.affected_member_id == leaver.me,
        carries_secret(proposer, proposer.pending->0, commit, group_secret),
        leaver.epoch != next_number(proposer.epoch),
        forall|i: int|
            0 <= i < leaver.old.len() ==> (#[trigger] leaver.old[i]).epoch != next_number(
                proposer.epoch,
            ),
        encrypted(
            committed(proposer, commit, now, fresh).1,
            msg_type,
            plaintext,
            sent,
        ).0 == Ok::<MessageView, CryptoError>(message),
    ensures
        !(committed_secret(leaver, commit) matches Ok(Some(_))),
        committed(proposer, commit, now, fresh).0 == Ok::<bool, CryptoError>(true),
        committed(proposer, commit, now, fresh).1.epoch == next_number(proposer.epoch),
        message.header.epoch == next_number(proposer.epoch),
        decrypted(leaver, message, later).0 is Err,
{
    let p = proposer.pending->0;
    assert(!p.new_members.contains(leaver.me));
    law_commit_leaves_out_others(proposer, leaver, commit, group_secret);
    law_sorted_members_list_the_set(proposer.members.dom(), p.new_members);
    assert(p.new_members.contains(proposer.me));
    let j = choose|j: int| 0 <= j < p.new_members.len() && p.new_members[j] == proposer.me;
    assert(awaits_commit(proposer, proposer, commit, j));
    law_commit_reaches_member(proposer, proposer, commit, group_secret, j);
    crate::crypto::laws::law_old_epoch_is_forgotten(leaver, message, later);
}

} // verus!
