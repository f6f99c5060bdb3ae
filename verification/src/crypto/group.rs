//! A member's view of the group: the roster, the chains of the current and recent epochs, and the
//! changes of epoch.
use crate::crypto::aead::sealable;
use crate::crypto::chain::{
    chain_opened, derive_sender_chain_key, derive_sender_chain_root, live_keys, message_key,
    message_nonce, next_chain_key, next_number, saturating_sum, saturating_sum_of, sender_chain_key,
    sender_chain_root, zeroize, ChainState, ChainView, RecvChainState, RecvView,
};
use crate::crypto::epoch::{
    announce_mac, candidates_for, commit_fault, contains_text, context_of, copy_strings,
    ordered_proposers, roster_hash_text, unwrapped_secret, MemberId,
};
use crate::crypto::error::CryptoError;
use crate::crypto::messages::{
    header_tree, AnnounceView, CommitView, EpochEventType, HeaderView, MessageView, PlainView,
    SecureMessageType, WrappedView,
};
use crate::outside::aead::chacha_sealed;
use crate::outside::clock::unix_timestamp;
use crate::outside::json::json_bytes;
use crate::outside::random::random_bytes32;
use crate::outside::x25519::{x25519_public, x25519_public_key};
use crate::util::id_map::{
    copy_map, entry_ids, lemma_entry_ids, lemma_restrict_step, view_map, IdMap,
};
use crate::util::order::{
    lemma_sorted_again, lemma_sorted_set, sort_strings, sorted_set, sorted_texts,
};
use crate::util::text::{lemma_views, opt_bytes, same_text, views};
use vstd::prelude::*;

verus! {

pub const CURRENT_PROTOCOL_VERSION: u8 = 1;

pub const DEFAULT_MAX_SKIP: u64 = 64;

pub const DEFAULT_SKIPPED_KEY_TTL_SECS: i64 = 300;

pub const KEY_ANNOUNCE_NONCE_LEN: usize = 16;

/// A member of the group, with the public key announced for the next epoch change.
#[derive(Debug)]
pub struct MemberCryptoInfo {
    pub member_id: MemberId,
    pub nickname: String,
    pub x25519_public: Option<Vec<u8>>,
}

#[verifier::ext_equal]
pub struct MemberView {
    pub member_id: Seq<char>,
    pub nickname: Seq<char>,
    pub x25519_public: Option<Seq<u8>>,
}

impl View for MemberCryptoInfo {
    type V = MemberView;

    open spec fn view(&self) -> MemberView {
        MemberView {
            member_id: self.member_id@,
            nickname: self.nickname@,
            x25519_public: opt_bytes(self.x25519_public),
        }
    }
}

fn copy_opt_bytes(v: &Option<Vec<u8>>) -> (copy: Option<Vec<u8>>)
    ensures
        opt_bytes(copy) == opt_bytes(*v),
{
    match v {
        Some(b) => Some(vstd::slice::slice_to_vec(b.as_slice())),
        None => None,
    }
}

impl Clone for MemberCryptoInfo {
    fn clone(&self) -> (copy: Self)
        ensures
            copy@ == self@,
    {
        MemberCryptoInfo {
            member_id: self.member_id.clone(),
            nickname: self.nickname.clone(),
            x25519_public: copy_opt_bytes(&self.x25519_public),
        }
    }
}

/// An epoch that has ended, kept for messages still on their way.
#[derive(Debug)]
pub struct OldEpochState {
    pub epoch: u64,
    pub members: IdMap<MemberCryptoInfo>,
    pub recv_chains: IdMap<RecvChainState>,
    pub expires_at: i64,
}

#[verifier::ext_equal]
pub struct OldView {
    pub epoch: u64,
    pub members: Map<Seq<char>, MemberView>,
    pub recv_chains: Map<Seq<char>, RecvView>,
    pub expires_at: i64,
}

impl View for OldEpochState {
    type V = OldView;

    open spec fn view(&self) -> OldView {
        OldView {
            epoch: self.epoch,
            members: view_map(self.members.map()),
            recv_chains: view_map(self.recv_chains.map()),
            expires_at: self.expires_at,
        }
    }
}

impl OldEpochState {
    pub open spec fn wf(&self) -> bool {
        self.members.wf() && self.recv_chains.wf()
    }
}

/// A change of the roster that no epoch change has taken up yet.
#[derive(Debug, PartialEq, Eq)]
pub struct PendingRosterTransition {
    pub old_members: Vec<MemberId>,
    pub new_members: Vec<MemberId>,
    pub event_type: EpochEventType,
    pub affected_member_id: MemberId,
}

#[verifier::ext_equal]
pub struct PendingView {
    pub old_members: Seq<Seq<char>>,
    pub new_members: Seq<Seq<char>>,
    pub event_type: EpochEventType,
    pub affected_member_id: Seq<char>,
}

impl View for PendingRosterTransition {
    type V = PendingView;

    open spec fn view(&self) -> PendingView {
        PendingView {
            old_members: views(self.old_members@),
            new_members: views(self.new_members@),
            event_type: self.event_type,
            affected_member_id: self.affected_member_id@,
        }
    }
}

impl Clone for PendingRosterTransition {
    fn clone(&self) -> (copy: Self)
        ensures
            copy@ == self@,
    {
        PendingRosterTransition {
            old_members: copy_strings(self.old_members.as_slice()),
            new_members: copy_strings(self.new_members.as_slice()),
            event_type: self.event_type,
            affected_member_id: self.affected_member_id.clone(),
        }
    }
}

/// The pending transition as a value.
pub open spec fn opt_pending(p: Option<PendingRosterTransition>) -> Option<PendingView> {
    match p {
        Some(t) => Some(t@),
        None => None,
    }
}

/// The members of a list that another list does not hold.
pub open spec fn missing_from(a: Seq<Seq<char>>, b: Seq<Seq<char>>) -> Seq<Seq<char>> {
    a.filter(|id: Seq<char>| !b.contains(id))
}

/// The change from one roster to another, when exactly one member joined or left.
pub open spec fn roster_transition(
    old_members: Seq<Seq<char>>,
    new_members: Seq<Seq<char>>,
) -> Option<PendingView> {
    let o = sorted_texts(old_members);
    let n = sorted_texts(new_members);
    let added = missing_from(n, o);
    let removed = missing_from(o, n);
    if added.len() == 1 && removed.len() == 0 {
        Some(
            PendingView {
                old_members: o,
                new_members: n,
                event_type: EpochEventType::Join,
                affected_member_id: added[0],
            },
        )
    } else if added.len() == 0 && removed.len() == 1 {
        Some(
            PendingView {
                old_members: o,
                new_members: n,
                event_type: EpochEventType::Leave,
                affected_member_id: removed[0],
            },
        )
    } else {
        None
    }
}

/// A list of members without one of them.
pub open spec fn others_of(ids: Seq<Seq<char>>, me: Seq<char>) -> Seq<Seq<char>> {
    ids.filter(other_than(me))
}

/// Whoever is not a given member.
pub open spec fn other_than(me: Seq<char>) -> spec_fn(Seq<char>) -> bool {
    |id: Seq<char>| id != me
}

/// The first roster of a member who joins a group: everyone else was there before.
pub open spec fn initial_join(
    me: Seq<char>,
    previous: Seq<Seq<char>>,
    next: Seq<Seq<char>>,
) -> Option<PendingView> {
    let n = sorted_texts(next);
    let others = others_of(n, me);
    if sorted_texts(previous) != seq![me] || n.len() <= 1 || !n.contains(me) || others.len() == 0 {
        None
    } else {
        Some(
            PendingView {
                old_members: others,
                new_members: n,
                event_type: EpochEventType::Join,
                affected_member_id: me,
            },
        )
    }
}

fn missing_strings(a: &Vec<String>, b: &Vec<String>) -> (out: Vec<String>)
    ensures
        views(out@) == missing_from(views(a@), views(b@)),
        views(out@).len() == out@.len(),
{
    let mut out: Vec<String> = Vec::new();
    let mut i: usize = 0;
    let ghost all = views(a@);
    let ghost keep = |id: Seq<char>| !views(b@).contains(id);
    assert(all.take(0).filter(keep) =~= Seq::<Seq<char>>::empty());
    while i < a.len()
        invariant
            i <= a@.len(),
            all == views(a@),
            keep == (|id: Seq<char>| !views(b@).contains(id)),
            views(out@) == all.take(i as int).filter(keep),
        decreases a.len() - i,
    {
        let ghost before = out@;
        proof {
            assert(all.take(i + 1).drop_last() =~= all.take(i as int));
            assert(all.take(i + 1).last() == a@[i as int]@);
            reveal(Seq::filter);
        }
        if !contains_text(b.as_slice(), a[i].as_str()) {
            out.push(a[i].clone());
            assert(views(out@) =~= views(before).push(a@[i as int]@));
        }
        i += 1;
    }
    assert(all.take(all.len() as int) =~= all);
    out
}

pub fn detect_roster_transition(old_members: Vec<MemberId>, new_members: Vec<MemberId>) -> (out:
    Option<PendingRosterTransition>)
    ensures
        opt_pending(out) == roster_transition(views(old_members@), views(new_members@)),
{
    let old_members = sort_strings(old_members);
    let new_members = sort_strings(new_members);
    let added = missing_strings(&new_members, &old_members);
    let removed = missing_strings(&old_members, &new_members);
    if added.len() == 1 && removed.len() == 0 {
        let affected_member_id = added[0].clone();
        assert(views(added@)[0] == affected_member_id@);
        Some(
            PendingRosterTransition {
                old_members,
                new_members,
                event_type: EpochEventType::Join,
                affected_member_id,
            },
        )
    } else if added.len() == 0 && removed.len() == 1 {
        let affected_member_id = removed[0].clone();
        assert(views(removed@)[0] == affected_member_id@);
        Some(
            PendingRosterTransition {
                old_members,
                new_members,
                event_type: EpochEventType::Leave,
                affected_member_id,
            },
        )
    } else {
        None
    }
}

pub fn detect_initial_join_transition(
    my_member_id: &str,
    previous_members: Vec<MemberId>,
    next_members: Vec<MemberId>,
) -> (out: Option<PendingRosterTransition>)
    ensures
        opt_pending(out) == initial_join(
            my_member_id@,
            views(previous_members@),
            views(next_members@),
        ),
{
    let previous = sort_strings(previous_members);
    let next = sort_strings(next_members);
    proof {
        lemma_views(previous@);
        lemma_views(next@);
    }
    let alone = previous.len() == 1 && same_text(previous[0].as_str(), my_member_id);
    proof {
        if alone {
            assert(views(previous@) =~= seq![my_member_id@]);
        } else if views(previous@) == seq![my_member_id@] {
            assert(views(previous@)[0] == previous@[0]@);
        }
    }
    if !alone {
        return None;
    }
    if next.len() <= 1 || !contains_text(next.as_slice(), my_member_id) {
        return None;
    }
    let ghost all = views(next@);
    let ghost other = other_than(my_member_id@);
    let mut others: Vec<String> = Vec::new();
    let mut i: usize = 0;
    assert(all.take(0).filter(other) =~= Seq::<Seq<char>>::empty());
    while i < next.len()
        invariant
            i <= next@.len(),
            all == views(next@),
            other == other_than(my_member_id@),
            views(others@) == all.take(i as int).filter(other),
        decreases next.len() - i,
    {
        let ghost before = others@;
        proof {
            assert(all.take(i + 1).drop_last() =~= all.take(i as int));
            assert(all.take(i + 1).last() == next@[i as int]@);
            reveal(Seq::filter);
        }
        if !same_text(next[i].as_str(), my_member_id) {
            others.push(next[i].clone());
            assert(views(others@) =~= views(before).push(next@[i as int]@));
        }
        i += 1;
    }
    assert(all.take(all.len() as int) =~= all);
    assert(views(others@).len() == others@.len());
    if others.len() == 0 {
        return None;
    }
    Some(
        PendingRosterTransition {
            old_members: others,
            new_members: next,
            event_type: EpochEventType::Join,
            affected_member_id: my_member_id.to_owned(),
        },
    )
}

/// What a member knows of the group.
#[derive(Debug)]
pub struct GroupCryptoState {
    pub group_id: String,
    pub epoch: u64,
    pub my_member_id: MemberId,
    pub my_sender_chain: Option<ChainState>,
    pub recv_chains: IdMap<RecvChainState>,
    pub members: IdMap<MemberCryptoInfo>,
    pub old_epochs: Vec<OldEpochState>,
    pub room_auth_key: [u8; 32],
    pub skipped_key_ttl_secs: i64,
    pub default_max_skip: u64,
    pub key_conflicts: IdMap<()>,
    pub pending_transition: Option<PendingRosterTransition>,
    pub x25519_secret: [u8; 32],
    pub x25519_public: [u8; 32],
    pub roster_initialized: bool,
}

#[verifier::ext_equal]
pub struct GroupView {
    pub group_id: Seq<char>,
    pub epoch: u64,
    pub me: Seq<char>,
    pub sender: Option<ChainView>,
    pub recv: Map<Seq<char>, RecvView>,
    pub members: Map<Seq<char>, MemberView>,
    pub old: Seq<OldView>,
    pub auth_key: Seq<u8>,
    pub ttl: i64,
    pub max_skip: u64,
    pub conflicts: Set<Seq<char>>,
    pub pending: Option<PendingView>,
    pub secret: Seq<u8>,
    pub public: Seq<u8>,
    pub roster_initialized: bool,
}

/// The views of a list of old epochs.
pub open spec fn old_views(v: Seq<OldEpochState>) -> Seq<OldView> {
    v.map_values(|o: OldEpochState| o@)
}

impl View for GroupCryptoState {
    type V = GroupView;

    open spec fn view(&self) -> GroupView {
        GroupView {
            group_id: self.group_id@,
            epoch: self.epoch,
            me: self.my_member_id@,
            sender: match self.my_sender_chain {
                Some(c) => Some(c@),
                None => None,
            },
            recv: view_map(self.recv_chains.map()),
            members: view_map(self.members.map()),
            old: old_views(self.old_epochs@),
            auth_key: self.room_auth_key@,
            ttl: self.skipped_key_ttl_secs,
            max_skip: self.default_max_skip,
            conflicts: self.key_conflicts.map().dom(),
            pending: opt_pending(self.pending_transition),
            secret: self.x25519_secret@,
            public: self.x25519_public@,
            roster_initialized: self.roster_initialized,
        }
    }
}

/// A member that has created the group or waits for its first epoch.
pub open spec fn fresh_group(
    group_id: Seq<char>,
    me: Seq<char>,
    nickname: Seq<char>,
    epoch: u64,
    auth_key: Seq<u8>,
    secret: Seq<u8>,
) -> GroupView {
    GroupView {
        group_id,
        epoch,
        me,
        sender: None,
        recv: Map::empty(),
        members: Map::empty().insert(
            me,
            MemberView { member_id: me, nickname, x25519_public: Some(x25519_public(secret)) },
        ),
        old: Seq::empty(),
        auth_key,
        ttl: DEFAULT_SKIPPED_KEY_TTL_SECS,
        max_skip: DEFAULT_MAX_SKIP,
        conflicts: Set::empty(),
        pending: None,
        secret,
        public: x25519_public(secret),
        roster_initialized: false,
    }
}

/// The start of every other member's chain in an epoch.
pub open spec fn epoch_chains(
    root: Seq<u8>,
    members: Map<Seq<char>, MemberView>,
    me: Seq<char>,
    max_skip: u64,
) -> Map<Seq<char>, RecvView> {
    Map::new(
        |id: Seq<char>| members.contains_key(id) && id != me,
        |id: Seq<char>|
            RecvView {
                chain_key: sender_chain_key(root, id),
                next_msg_no: 0,
                skipped_keys: Map::empty(),
                max_skip,
            },
    )
}

/// The roster with only one's own, new, key.
pub open spec fn rekeyed(
    members: Map<Seq<char>, MemberView>,
    me: Seq<char>,
    public: Seq<u8>,
) -> Map<Seq<char>, MemberView> {
    members.map_entries(
        |id: Seq<char>, m: MemberView|
            MemberView {
                x25519_public: if id == me {
                    Some(public)
                } else {
                    None
                },
                ..m
            },
    )
}

/// The old epochs once the current one has ended.
pub open spec fn retired(g: GroupView, now: i64) -> Seq<OldView> {
    if g.sender is Some {
        g.old.push(
            OldView {
                epoch: g.epoch,
                members: g.members,
                recv_chains: g.recv,
                expires_at: saturating_sum(now, g.ttl),
            },
        ).filter(|o: OldView| o.expires_at > now)
    } else {
        g.old
    }
}

/// The group at the start of an epoch with a given secret. `fresh` is the secret of the member's
/// next key pair.
pub open spec fn activated(
    g: GroupView,
    new_epoch: u64,
    group_secret: Seq<u8>,
    now: i64,
    fresh: Seq<u8>,
) -> GroupView {
    let root = sender_chain_root(group_secret, g.group_id, new_epoch);
    GroupView {
        epoch: new_epoch,
        sender: Some(ChainView { chain_key: sender_chain_key(root, g.me), msg_no: 0 }),
        recv: epoch_chains(root, g.members, g.me, g.max_skip),
        members: rekeyed(g.members, g.me, x25519_public(fresh)),
        old: retired(g, now),
        pending: None,
        secret: fresh,
        public: x25519_public(fresh),
        ..g
    }
}

/// The roster that a list of identifiers and nicknames describes; known keys are kept.
pub open spec fn listed_roster(g: GroupView, list: Seq<(Seq<char>, Seq<char>)>) -> Map<
    Seq<char>,
    MemberView,
>
    decreases list.len(),
{
    if list.len() == 0 {
        Map::empty()
    } else {
        let (id, nickname) = list.last();
        listed_roster(g, list.drop_last()).insert(
            id,
            MemberView {
                member_id: id,
                nickname,
                x25519_public: if id == g.me {
                    Some(g.public)
                } else if g.members.contains_key(id) {
                    g.members[id].x25519_public
                } else {
                    None
                },
            },
        )
    }
}

/// The listed roster, with the member itself in it.
pub open spec fn next_roster(g: GroupView, list: Seq<(Seq<char>, Seq<char>)>) -> Map<
    Seq<char>,
    MemberView,
> {
    let listed = listed_roster(g, list);
    if listed.contains_key(g.me) {
        listed
    } else {
        listed.insert(
            g.me,
            MemberView {
                member_id: g.me,
                nickname: if g.members.contains_key(g.me) {
                    g.members[g.me].nickname
                } else {
                    g.me
                },
                x25519_public: Some(g.public),
            },
        )
    }
}

/// The group after the server has listed its members.
pub open spec fn with_members(g: GroupView, list: Seq<(Seq<char>, Seq<char>)>) -> GroupView {
    let next = next_roster(g, list);
    let previous_ids = sorted_set(g.members.dom());
    let next_ids = sorted_set(next.dom());
    GroupView {
        members: next,
        recv: g.recv.restrict(next.dom()),
        roster_initialized: true,
        pending: if g.roster_initialized {
            if previous_ids != next_ids {
                roster_transition(previous_ids, next_ids)
            } else {
                g.pending
            }
        } else if g.sender is Some {
            roster_transition(previous_ids, next_ids)
        } else {
            initial_join(g.me, previous_ids, next_ids)
        },
        ..g
    }
}

/// What holds of a group at all times: the member itself is on the roster with the key that it
/// announces, which is that of its secret, and a pending transition leads to the present roster.
pub open spec fn sound(g: GroupView) -> bool {
    &&& g.members.dom().finite()
    &&& g.members.contains_key(g.me)
    &&& g.members[g.me].x25519_public == Some(g.public)
    &&& g.secret.len() == 32
    &&& g.public == x25519_public(g.secret)
    &&& g.pending matches Some(p) ==> p.new_members == sorted_set(g.members.dom())
}

/// The listed roster holds the identifiers of the list, each with the key that is known.
pub proof fn lemma_listed_roster(g: GroupView, list: Seq<(Seq<char>, Seq<char>)>)
    ensures
        listed_roster(g, list).dom().finite(),
        next_roster(g, list).dom().finite(),
        listed_roster(g, list).contains_key(g.me) ==> listed_roster(g, list)[g.me].x25519_public
            == Some(g.public),
        forall|id: Seq<char>| #[trigger]
            listed_roster(g, list).contains_key(id) <==> exists|i: int|
                0 <= i < list.len() && (#[trigger] list[i]).0 == id,
        forall|id: Seq<char>| #[trigger]
            listed_roster(g, list).contains_key(id) && id != g.me ==> listed_roster(
                g,
                list,
            )[id].x25519_public == if g.members.contains_key(id) {
                g.members[id].x25519_public
            } else {
                None
            },
    decreases list.len(),
{
    if list.len() > 0 {
        let front = list.drop_last();
        lemma_listed_roster(g, front);
        assert forall|id: Seq<char>| #[trigger]
            listed_roster(g, list).contains_key(id) <==> exists|i: int|
                0 <= i < list.len() && (#[trigger] list[i]).0 == id by {
            if listed_roster(g, front).contains_key(id) {
                let i = choose|i: int| 0 <= i < front.len() && (#[trigger] front[i]).0 == id;
                assert(list[i].0 == id);
            }
            if id == list.last().0 {
                assert(list[list.len() - 1].0 == id);
            }
            if exists|i: int| 0 <= i < list.len() && (#[trigger] list[i]).0 == id {
                let i = choose|i: int| 0 <= i < list.len() && (#[trigger] list[i]).0 == id;
                if i < front.len() {
                    assert(front[i].0 == id);
                }
            }
        }
    }
}

/// A list of members leaves a group sound.
pub proof fn lemma_sound_with_members(g: GroupView, list: Seq<(Seq<char>, Seq<char>)>)
    requires
        sound(g),
    ensures
        sound(with_members(g, list)),
{
    lemma_listed_roster(g, list);
    let next = next_roster(g, list);
    lemma_sorted_again(next.dom());
    lemma_sorted_again(g.members.dom());
}

/// The start of an epoch leaves a group sound.
pub proof fn lemma_sound_activated(
    g: GroupView,
    new_epoch: u64,
    group_secret: Seq<u8>,
    now: i64,
    fresh: Seq<u8>,
)
    requires
        sound(g),
        fresh.len() == 32,
    ensures
        sound(activated(g, new_epoch, group_secret, now, fresh)),
{
    let next = rekeyed(g.members, g.me, x25519_public(fresh));
    assert(next.dom() =~= g.members.dom());
}

/// A receive chain without expired keys.
pub open spec fn cleaned_chain(r: RecvView, now: i64) -> RecvView {
    RecvView { skipped_keys: live_keys(r.skipped_keys, now), ..r }
}

/// Receive chains without expired keys.
pub open spec fn cleaned_chains(m: Map<Seq<char>, RecvView>, now: i64) -> Map<
    Seq<char>,
    RecvView,
> {
    m.map_values(|r: RecvView| cleaned_chain(r, now))
}

/// The group without expired keys and epochs.
pub open spec fn cleaned(g: GroupView, now: i64) -> GroupView {
    GroupView {
        recv: cleaned_chains(g.recv, now),
        old: g.old.filter(|o: OldView| o.expires_at > now).map_values(
            |o: OldView| OldView { recv_chains: cleaned_chains(o.recv_chains, now), ..o },
        ),
        ..g
    }
}

/// What a key announcement does.
pub open spec fn announced(
    g: GroupView,
    a: AnnounceView,
) -> (Result<bool, CryptoError>, GroupView) {
    if a.group_id != g.group_id {
        (Err(CryptoError::AnnounceGroup), g)
    } else if a.x25519_public.len() != 32 {
        (Err(CryptoError::AnnounceKeyLength), g)
    } else if a.mac != announce_mac(
        g.auth_key,
        a.group_id,
        a.epoch,
        a.member_id,
        a.x25519_public,
        a.nonce,
    ) {
        (Err(CryptoError::AnnounceMac), g)
    } else if !g.members.contains_key(a.member_id) {
        (Ok(false), g)
    } else {
        match g.members[a.member_id].x25519_public {
            Some(known) => if known == a.x25519_public {
                (Ok(false), g)
            } else {
                (
                    Err(CryptoError::AnnounceKeyConflict),
                    GroupView { conflicts: g.conflicts.insert(a.member_id), ..g },
                )
            },
            None => (
                Ok(true),
                GroupView {
                    members: g.members.insert(
                        a.member_id,
                        MemberView {
                            x25519_public: Some(a.x25519_public),
                            ..g.members[a.member_id]
                        },
                    ),
                    ..g
                },
            ),
        }
    }
}

/// Whether every identifier belongs to a member whose 32-byte key is known.
pub open spec fn all_keys_known(members: Map<Seq<char>, MemberView>, ids: Seq<Seq<char>>) -> bool {
    forall|i: int|
        0 <= i < ids.len() ==> members.contains_key(#[trigger] ids[i]) && (
        members[ids[i]].x25519_public matches Some(p) && p.len() == 32)
}

/// The order in which members may propose a pending transition.
pub open spec fn pending_proposers(g: GroupView, p: PendingView) -> Seq<Seq<char>> {
    ordered_proposers(
        g.group_id,
        g.epoch,
        p.event_type,
        p.affected_member_id,
        candidates_for(p.event_type, p.old_members, p.new_members),
    )
}

/// Whether it is this member's turn to propose the pending transition, and it can.
pub open spec fn may_propose(g: GroupView) -> bool {
    &&& g.sender is Some
    &&& g.pending matches Some(p) && {
        let order = pending_proposers(g, p);
        order.len() > 0 && order[0] == g.me && all_keys_known(g.members, p.new_members)
    }
}

/// What the secret of the proposed epoch looks like to a recipient.
pub open spec fn proposed_plain(
    g: GroupView,
    p: PendingView,
    recipient: Seq<char>,
    group_secret: Seq<u8>,
) -> PlainView {
    PlainView {
        group_id: g.group_id,
        old_epoch: g.epoch,
        new_epoch: next_number(g.epoch),
        event_type: p.event_type,
        recipient_id: recipient,
        group_secret,
        new_roster_hash: roster_hash_text(p.new_members),
    }
}

/// The commit that takes up a pending transition, but for its wrapped secrets.
pub open spec fn proposed_commit(
    g: GroupView,
    p: PendingView,
    wrapped: Seq<WrappedView>,
) -> CommitView {
    CommitView {
        group_id: g.group_id,
        old_epoch: g.epoch,
        new_epoch: next_number(g.epoch),
        event_type: p.event_type,
        affected_member_id: p.affected_member_id,
        old_roster_hash: roster_hash_text(p.old_members),
        new_roster_hash: roster_hash_text(p.new_members),
        proposer_id: g.me,
        proposer_attempt: 0,
        wrapped_secrets: wrapped,
    }
}

/// Whether a wrapped secret shows a plain to every holder of a secret behind a public key.
pub open spec fn opens_for(
    w: WrappedView,
    recipient: Seq<char>,
    public: Seq<u8>,
    auth_key: Seq<u8>,
    commit: CommitView,
    plain: PlainView,
) -> bool {
    forall|secret: Seq<u8>|
        secret.len() == 32 && #[trigger] x25519_public(secret) == public ==> unwrapped_secret(
            recipient,
            secret,
            auth_key,
            context_of(commit),
            w,
        ) == Ok::<PlainView, CryptoError>(plain)
}

/// Whether a commit carries one secret to every new member: whoever holds the secret behind the
/// key that the proposer knows finds it.
pub open spec fn carries_secret(
    g: GroupView,
    p: PendingView,
    commit: CommitView,
    group_secret: Seq<u8>,
) -> bool {
    &&& group_secret.len() == 32
    &&& commit.wrapped_secrets.len() == p.new_members.len()
    &&& commit == proposed_commit(g, p, commit.wrapped_secrets)
    &&& forall|i: int|
        0 <= i < p.new_members.len() ==> (#[trigger] commit.wrapped_secrets[i]).recipient_id
            == p.new_members[i] && opens_for(
            commit.wrapped_secrets[i],
            p.new_members[i],
            g.members[p.new_members[i]].x25519_public->0,
            g.auth_key,
            commit,
            proposed_plain(g, p, p.new_members[i], group_secret),
        )
}

/// Whether a member that has just joined may follow a commit of a later epoch than its own.
pub open spec fn joins_later_epoch(g: GroupView, p: PendingView, c: CommitView) -> bool {
    &&& g.epoch < c.old_epoch
    &&& p.event_type == EpochEventType::Join
    &&& c.event_type == EpochEventType::Join
    &&& p.affected_member_id == g.me
    &&& c.affected_member_id == g.me
    &&& !p.old_members.contains(g.me)
    &&& p.new_members.contains(g.me)
}

/// The first wrapped secret for a recipient, or the number of wrapped secrets.
pub open spec fn first_for(wrapped: Seq<WrappedView>, recipient: Seq<char>) -> int
    decreases wrapped.len(),
{
    if wrapped.len() == 0 || wrapped[0].recipient_id == recipient {
        0
    } else {
        1 + first_for(wrapped.drop_first(), recipient)
    }
}

/// Why an unwrapped secret does not fit its commit.
pub open spec fn plain_fault(
    plain: PlainView,
    c: CommitView,
    me: Seq<char>,
) -> Option<CryptoError> {
    if plain.group_id != c.group_id {
        Some(CryptoError::PlainGroup)
    } else if plain.old_epoch != c.old_epoch {
        Some(CryptoError::PlainOldEpoch)
    } else if plain.new_epoch != c.new_epoch {
        Some(CryptoError::PlainNewEpoch)
    } else if plain.event_type != c.event_type {
        Some(CryptoError::PlainEventType)
    } else if plain.recipient_id != me {
        Some(CryptoError::WrappedRecipient)
    } else if plain.new_roster_hash != c.new_roster_hash {
        Some(CryptoError::PlainRosterHash)
    } else if plain.group_secret.len() != 32 {
        Some(CryptoError::PlainSecretLength)
    } else {
        None
    }
}

/// The secret of the epoch that a commit starts for a member; nothing when the commit is out of
/// date.
pub open spec fn committed_secret(g: GroupView, c: CommitView) -> Result<
    Option<Seq<u8>>,
    CryptoError,
> {
    match g.pending {
        None => if c.old_epoch < g.epoch || c.new_epoch <= g.epoch {
            Ok(None)
        } else {
            Err(CryptoError::MissingPendingForCommit)
        },
        Some(p) => {
            let expected = if joins_later_epoch(g, p, c) {
                c.old_epoch
            } else {
                g.epoch
            };
            match commit_fault(g.group_id, expected, c, p.old_members, p.new_members) {
                Some(e) => Err(e),
                None => {
                    let at = first_for(c.wrapped_secrets, g.me);
                    if at >= c.wrapped_secrets.len() {
                        Err(CryptoError::CommitWithoutMySecret)
                    } else {
                        match unwrapped_secret(
                            g.me,
                            g.secret,
                            g.auth_key,
                            context_of(c),
                            c.wrapped_secrets[at],
                        ) {
                            Err(e) => Err(e),
                            Ok(plain) => match plain_fault(plain, c, g.me) {
                                Some(e) => Err(e),
                                None => Ok(Some(plain.group_secret)),
                            },
                        }
                    }
                },
            }
        },
    }
}

/// What applying a commit does.
pub open spec fn committed(g: GroupView, c: CommitView, now: i64, fresh: Seq<u8>) -> (
    Result<bool, CryptoError>,
    GroupView,
) {
    match committed_secret(g, c) {
        Err(e) => (Err(e), g),
        Ok(None) => (Ok(false), g),
        Ok(Some(secret)) => (Ok(true), activated(g, c.new_epoch, secret, now, fresh)),
    }
}

/// What encrypting a message gives, and the group that results.
pub open spec fn encrypted(
    g: GroupView,
    msg_type: SecureMessageType,
    plaintext: Seq<u8>,
    now: i64,
) -> (Result<MessageView, CryptoError>, GroupView) {
    let c = cleaned(g, now);
    match c.sender {
        None => (Err(CryptoError::NoEpochSecret), c),
        Some(chain) => {
            let header = HeaderView {
                version: CURRENT_PROTOCOL_VERSION,
                group_id: c.group_id,
                epoch: c.epoch,
                sender_id: c.me,
                msg_no: chain.msg_no,
                msg_type,
            };
            if !sealable(plaintext) {
                (Err(CryptoError::EncryptionFailed), c)
            } else {
                (
                    Ok(
                        MessageView {
                            header,
                            ciphertext: chacha_sealed(
                                message_key(chain.chain_key),
                                message_nonce(chain.chain_key),
                                json_bytes(header_tree(header)),
                                plaintext,
                            ),
                        },
                    ),
                    GroupView {
                        sender: Some(
                            ChainView {
                                chain_key: next_chain_key(chain.chain_key),
                                msg_no: next_number(chain.msg_no),
                            },
                        ),
                        ..c
                    },
                )
            }
        },
    }
}

/// What opening a message against a roster and its receive chains gives.
pub open spec fn opened_in_epoch(
    members: Map<Seq<char>, MemberView>,
    recv: Map<Seq<char>, RecvView>,
    ttl: i64,
    message: MessageView,
    now: i64,
) -> (Result<Seq<u8>, CryptoError>, Map<Seq<char>, RecvView>) {
    let id = message.header.sender_id;
    if !members.contains_key(id) {
        (Err(CryptoError::SenderNotInRoster), recv)
    } else if !recv.contains_key(id) {
        (Err(CryptoError::MissingReceiveChain), recv)
    } else {
        let (out, chain) = chain_opened(recv[id], message, now, ttl);
        (out, recv.insert(id, chain))
    }
}

/// The first old epoch with a given number, or the number of old epochs.
pub open spec fn old_index(old_epochs: Seq<OldView>, epoch: u64) -> int
    decreases old_epochs.len(),
{
    if old_epochs.len() == 0 || old_epochs[0].epoch == epoch {
        0
    } else {
        1 + old_index(old_epochs.drop_first(), epoch)
    }
}

/// What decrypting a message gives, and the group that results.
pub open spec fn decrypted(g: GroupView, message: MessageView, now: i64) -> (
    Result<Seq<u8>, CryptoError>,
    GroupView,
) {
    let c = cleaned(g, now);
    if message.header.version != CURRENT_PROTOCOL_VERSION {
        (Err(CryptoError::UnsupportedVersion), c)
    } else if message.header.group_id != c.group_id {
        (Err(CryptoError::GroupMismatch), c)
    } else if message.header.sender_id == c.me {
        (Err(CryptoError::ReflectedMessage), c)
    } else if message.header.epoch == c.epoch {
        if c.sender is None {
            (Err(CryptoError::NoEpochSecret), c)
        } else {
            let (out, recv) = opened_in_epoch(c.members, c.recv, c.ttl, message, now);
            (out, GroupView { recv, ..c })
        }
    } else {
        let at = old_index(c.old, message.header.epoch);
        if at < c.old.len() {
            let o = c.old[at];
            let (out, recv) = opened_in_epoch(o.members, o.recv_chains, c.ttl, message, now);
            (out, GroupView { old: c.old.update(at, OldView { recv_chains: recv, ..o }), ..c })
        } else {
            (Err(CryptoError::EpochMismatch), c)
        }
    }
}

/// A list of identifiers and nicknames as sequences.
pub open spec fn pair_views(list: Seq<(String, String)>) -> Seq<(Seq<char>, Seq<char>)> {
    list.map_values(|p: (String, String)| (p.0@, p.1@))
}

pub proof fn lemma_view_insert<V: View>(m: Map<Seq<char>, V>, k: Seq<char>, v: V)
    ensures
        view_map(m.insert(k, v)) == view_map(m).insert(k, v@),
{
    assert(view_map(m.insert(k, v)) =~= view_map(m).insert(k, v@));
}

/// Whether two lists hold the same texts.
fn same_strings(a: &Vec<String>, b: &Vec<String>) -> (same: bool)
    ensures
        same == (views(a@) == views(b@)),
{
    proof {
        lemma_views(a@);
        lemma_views(b@);
    }
    if a.len() != b.len() {
        return false;
    }
    let mut i: usize = 0;
    while i < a.len()
        invariant
            i <= a@.len(),
            a@.len() == b@.len(),
            forall|k: int| 0 <= k < i ==> views(a@)[k] == views(b@)[k],
        decreases a.len() - i,
    {
        if !same_text(a[i].as_str(), b[i].as_str()) {
            assert(views(a@)[i as int] != views(b@)[i as int]);
            return false;
        }
        i += 1;
    }
    assert(views(a@) =~= views(b@));
    true
}

/// Drops the old epochs that have expired.
fn retain_unexpired(v: &mut Vec<OldEpochState>, now: i64)
    requires
        forall|i: int| 0 <= i < old(v)@.len() ==> (#[trigger] old(v)@[i]).wf(),
    ensures
        old_views(final(v)@) == old_views(old(v)@).filter(|o: OldView| o.expires_at > now),
        forall|i: int| 0 <= i < final(v)@.len() ==> (#[trigger] final(v)@[i]).wf(),
{
    let ghost src = v@;
    let ghost live = |o: OldView| o.expires_at > now;
    let ghost mut j: int = 0;
    let mut i: usize = 0;
    proof {
        reveal(Seq::filter);
        assert(old_views(src).take(0).filter(live) =~= Seq::<OldView>::empty());
        assert(old_views(v@.take(0)) =~= Seq::<OldView>::empty());
        assert(v@.skip(0) =~= src.skip(0));
    }
    while i < v.len()
        invariant
            i <= v@.len(),
            0 <= j <= src.len(),
            live == (|o: OldView| o.expires_at > now),
            old_views(v@.take(i as int)) == old_views(src).take(j).filter(live),
            v@.skip(i as int) == src.skip(j),
            forall|k: int| 0 <= k < v@.len() ==> (#[trigger] v@[k]).wf(),
        decreases v.len() - i,
    {
        let ghost here = v@;
        proof {
            reveal(Seq::filter);
            assert(here.skip(i as int).len() > 0);
            assert(src.skip(j).len() == src.len() - j);
            assert(here.skip(i as int)[0] == here[i as int]);
            assert(src.skip(j)[0] == src[j]);
            assert(old_views(src).take(j + 1).drop_last() =~= old_views(src).take(j));
            assert(old_views(src).take(j + 1).last() == here[i as int]@);
        }
        if v[i].expires_at > now {
            proof {
                assert(old_views(here.take(i + 1)) =~= old_views(here.take(i as int)).push(
                    here[i as int]@,
                ));
                assert(here.skip(i + 1) =~= here.skip(i as int).skip(1));
                assert(src.skip(j + 1) =~= src.skip(j).skip(1));
                j = j + 1;
            }
            i += 1;
        } else {
            let _ = v.remove(i);
            proof {
                assert(v@.take(i as int) =~= here.take(i as int));
                assert(v@.skip(i as int) =~= here.skip(i as int).skip(1));
                assert(src.skip(j + 1) =~= src.skip(j).skip(1));
                assert forall|k: int| 0 <= k < v@.len() implies (#[trigger] v@[k]).wf() by {
                    if k < i {
                        assert(v@[k] == here[k]);
                    } else {
                        assert(v@[k] == here[k + 1]);
                    }
                }
                j = j + 1;
            }
        }
    }
    proof {
        assert(v@.skip(i as int).len() == 0);
        assert(src.skip(j).len() == 0);
        assert(old_views(src).take(j) =~= old_views(src));
        assert(v@.take(i as int) =~= v@);
    }
}

/// Drops the expired keys of every chain.
fn clean_chains(chains: &mut IdMap<RecvChainState>, now: i64)
    requires
        old(chains).wf(),
    ensures
        final(chains).wf(),
        view_map(final(chains).map()) == cleaned_chains(view_map(old(chains).map()), now),
{
    let ghost ids = entry_ids(chains.entries@);
    let ghost src = chains.map();
    let ghost want = cleaned_chains(view_map(src), now);
    let mut i: usize = 0;
    proof {
        lemma_entry_ids(chains.entries@);
    }
    while i < chains.entries.len()
        invariant
            i <= chains.entries@.len(),
            chains.wf(),
            ids == entry_ids(chains.entries@),
            ids.no_duplicates(),
            ids.to_set() == src.dom(),
            want == cleaned_chains(view_map(src), now),
            chains.map().dom() == src.dom(),
            forall|k: int| 0 <= k < i ==> chains.map()[#[trigger] ids[k]]@ == want[ids[k]],
            forall|k: int| i <= k < ids.len() ==> chains.map()[#[trigger] ids[k]] == src[ids[k]],
        decreases chains.entries.len() - i,
    {
        let ghost here = chains.map();
        proof {
            crate::util::id_map::lemma_entry_value(chains.entries@, i as int);
            assert(ids[i as int] == chains.entries@[i as int].0@);
            assert(ids.to_set().contains(ids[i as int]));
        }
        let mut chain = chains.entries[i].1.clone();
        chain.drop_expired(now);
        chains.set_at(i, chain);
        proof {
            assert forall|k: int| 0 <= k < i + 1 implies chains.map()[#[trigger] ids[k]]@
                == want[ids[k]] by {
                assert(ids.to_set().contains(ids[k]));
                if k < i {
                    assert(ids[k] != ids[i as int]);
                    assert(here[ids[k]]@ == want[ids[k]]);
                }
            }
            assert(chains.map().dom() =~= src.dom());
        }
        i += 1;
    }
    proof {
        assert forall|id: Seq<char>| src.contains_key(id) implies chains.map()[id]@ == want[id] by {
            assert(ids.to_set().contains(id));
            let k = choose|k: int| 0 <= k < ids.len() && ids[k] == id;
            assert(ids[k] == id);
        }
        assert(view_map(chains.map()) =~= want);
    }
}

/// A copy of bytes.
pub(crate) fn bytes_vec(bytes: &[u8]) -> (v: Vec<u8>)
    ensures
        v@ == bytes@,
{
    vstd::slice::slice_to_vec(bytes)
}

impl GroupCryptoState {
    /// The lists hold no identifier twice, and the group is sound.
    pub open spec fn wf(&self) -> bool {
        &&& self.members.wf()
        &&& self.recv_chains.wf()
        &&& self.key_conflicts.wf()
        &&& forall|i: int| 0 <= i < self.old_epochs@.len() ==> (#[trigger] self.old_epochs@[i]).wf()
        &&& sound(self@)
    }

    /// The state of a member with a given key secret.
    pub fn with_key_secret(
        group_id: &str,
        my_member_id: &str,
        my_nickname: &str,
        epoch: u64,
        room_auth_key: [u8; 32],
        x25519_secret: [u8; 32],
    ) -> (state: Self)
        ensures
            state.wf(),
            state@ == fresh_group(
                group_id@,
                my_member_id@,
                my_nickname@,
                epoch,
                room_auth_key@,
                x25519_secret@,
            ),
    {
        let public = x25519_public_key(&x25519_secret);
        let mut members = IdMap::<MemberCryptoInfo>::new();
        let info = MemberCryptoInfo {
            member_id: my_member_id.to_owned(),
            nickname: my_nickname.to_owned(),
            x25519_public: Some(bytes_vec(public.as_slice())),
        };
        let ghost before = members.map();
        members.insert(my_member_id.to_owned(), info);
        proof {
            lemma_view_insert(before, my_member_id@, info);
            assert(view_map(before) =~= Map::<Seq<char>, MemberView>::empty());
        }
        let state = GroupCryptoState {
            group_id: group_id.to_owned(),
            epoch,
            my_member_id: my_member_id.to_owned(),
            my_sender_chain: None,
            recv_chains: IdMap::new(),
            members,
            old_epochs: Vec::new(),
            room_auth_key,
            skipped_key_ttl_secs: DEFAULT_SKIPPED_KEY_TTL_SECS,
            default_max_skip: DEFAULT_MAX_SKIP,
            key_conflicts: IdMap::new(),
            pending_transition: None,
            x25519_secret,
            x25519_public: public,
            roster_initialized: false,
        };
        proof {
            assert(state@.recv =~= Map::<Seq<char>, RecvView>::empty());
            assert(state@.old =~= Seq::<OldView>::empty());
            assert(state@.conflicts =~= Set::<Seq<char>>::empty());
        }
        state
    }

    /// A member that waits for its first epoch.
    pub fn new_pending_epoch(
        group_id: &str,
        my_member_id: &str,
        my_nickname: &str,
        epoch: u64,
        room_auth_key: [u8; 32],
    ) -> (out: Result<Self, CryptoError>)
        ensures
            out matches Ok(state) && state.wf() && state@ == fresh_group(
                group_id@,
                my_member_id@,
                my_nickname@,
                epoch,
                room_auth_key@,
                state@.secret,
            ),
    {
        let secret = random_bytes32();
        Ok(
            Self::with_key_secret(
                group_id,
                my_member_id,
                my_nickname,
                epoch,
                room_auth_key,
                secret,
            ),
        )
    }

    /// The creator of a group, at its first epoch.
    pub fn new_single_epoch(
        group_id: &str,
        my_member_id: &str,
        my_nickname: &str,
        epoch: u64,
        group_secret: [u8; 32],
        room_auth_key: [u8; 32],
    ) -> (out: Result<Self, CryptoError>)
        ensures
            out matches Ok(state) && state.wf() && state@ == activated(
                fresh_group(
                    group_id@,
                    my_member_id@,
                    my_nickname@,
                    epoch,
                    room_auth_key@,
                    state@.secret,
                ),
                epoch,
                group_secret@,
                0,
                state@.secret,
            ),
    {
        let secret = random_bytes32();
        let mut state = Self::with_key_secret(
            group_id,
            my_member_id,
            my_nickname,
            epoch,
            room_auth_key,
            secret,
        );
        let ghost before = state@;
        state.activate_epoch(epoch, group_secret);
        proof {
            let g = fresh_group(
                group_id@,
                my_member_id@,
                my_nickname@,
                epoch,
                room_auth_key@,
                state@.secret,
            );
            assert(rekeyed(before.members, before.me, state@.public) =~= rekeyed(
                g.members,
                g.me,
                state@.public,
            ));
            let root = sender_chain_root(group_secret@, g.group_id, epoch);
            assert(epoch_chains(root, before.members, before.me, before.max_skip) =~= epoch_chains(
                root,
                g.members,
                g.me,
                g.max_skip,
            ));
            assert(state@ =~= activated(g, epoch, group_secret@, 0, state@.secret));
        }
        Ok(state)
    }

    /// Starts an epoch, at a given time and with a given secret for the next key pair.
    pub fn activate_epoch_with(
        &mut self,
        new_epoch: u64,
        group_secret: [u8; 32],
        now: i64,
        next_secret: [u8; 32],
    )
        requires
            old(self).wf(),
        ensures
            final(self).wf(),
            final(self)@ == activated(old(self)@, new_epoch, group_secret@, now, next_secret@),
    {
        let ghost g = self@;
        if self.my_sender_chain.is_some() {
            let expires_at: i64 = saturating_sum_of(now, self.skipped_key_ttl_secs);
            let ended = OldEpochState {
                epoch: self.epoch,
                members: copy_map(&self.members),
                recv_chains: copy_map(&self.recv_chains),
                expires_at,
            };
            let ghost kept = self.old_epochs@;
            self.old_epochs.push(ended);
            assert(old_views(self.old_epochs@) =~= old_views(kept).push(ended@));
            retain_unexpired(&mut self.old_epochs, now);
        }
        assert(self@.old == retired(g, now));
        let mut root = derive_sender_chain_root(&group_secret, self.group_id.as_str(), new_epoch);
        let chain_key = derive_sender_chain_key(&root, self.my_member_id.as_str());
        let next_recv_chains = self.start_chains(&root);
        zeroize(&mut root);
        let public = x25519_public_key(&next_secret);
        zeroize(&mut self.x25519_secret);
        self.x25519_secret = next_secret;
        self.x25519_public = public;
        let next_members = self.rekeyed_members();
        self.members = next_members;
        self.epoch = new_epoch;
        self.my_sender_chain = Some(ChainState { chain_key, msg_no: 0 });
        self.recv_chains = next_recv_chains;
        self.pending_transition = None;
        proof {
            assert(self@ =~= activated(g, new_epoch, group_secret@, now, next_secret@));
            lemma_sound_activated(g, new_epoch, group_secret@, now, next_secret@);
        }
    }

    /// The start of every other member's chain.
    pub(crate) fn start_chains(&self, root: &[u8; 32]) -> (chains: IdMap<RecvChainState>)
        requires
            self.members.wf(),
        ensures
            chains.wf(),
            view_map(chains.map()) == epoch_chains(
                root@,
                self@.members,
                self@.me,
                self@.max_skip,
            ),
    {
        let ghost ids = entry_ids(self.members.entries@);
        let ghost want = epoch_chains(root@, self@.members, self@.me, self@.max_skip);
        let mut chains = IdMap::<RecvChainState>::new();
        let mut i: usize = 0;
        proof {
            lemma_entry_ids(self.members.entries@);
            assert(view_map(chains.map()) =~= want.restrict(ids.take(0).to_set()));
        }
        while i < self.members.entries.len()
            invariant
                i <= self.members.entries@.len(),
                self.members.wf(),
                chains.wf(),
                ids == entry_ids(self.members.entries@),
                ids.to_set() == self.members.map().dom(),
                want == epoch_chains(root@, self@.members, self@.me, self@.max_skip),
                view_map(chains.map()) == want.restrict(ids.take(i as int).to_set()),
            decreases self.members.entries.len() - i,
        {
            let ghost before = chains.map();
            let id = self.members.entries[i].0.clone();
            proof {
                assert(ids[i as int] == id@);
                assert(ids.to_set().contains(ids[i as int]));
            }
            if same_text(id.as_str(), self.my_member_id.as_str()) {
                proof {
                    lemma_restrict_skip(want, ids, i as int);
                }
            } else {
                let key = derive_sender_chain_key(root, id.as_str());
                let chain = RecvChainState::new(key, self.default_max_skip);
                proof {
                    lemma_restrict_step(want, ids, i as int);
                    lemma_view_insert(before, id@, chain);
                }
                chains.insert(id, chain);
            }
            i += 1;
        }
        proof {
            assert(ids.take(ids.len() as int) =~= ids);
            assert(want.restrict(ids.to_set()) =~= want);
        }
        chains
    }

    /// The roster with only this member's key.
    fn rekeyed_members(&self) -> (out: IdMap<MemberCryptoInfo>)
        requires
            self.members.wf(),
        ensures
            out.wf(),
            view_map(out.map()) == rekeyed(self@.members, self@.me, self@.public),
    {
        let ghost ids = entry_ids(self.members.entries@);
        let ghost want = rekeyed(self@.members, self@.me, self@.public);
        let mut out = IdMap::<MemberCryptoInfo>::new();
        let mut i: usize = 0;
        proof {
            lemma_entry_ids(self.members.entries@);
            assert(view_map(out.map()) =~= want.restrict(ids.take(0).to_set()));
        }
        while i < self.members.entries.len()
            invariant
                i <= self.members.entries@.len(),
                self.members.wf(),
                out.wf(),
                ids == entry_ids(self.members.entries@),
                ids.to_set() == self.members.map().dom(),
                want == rekeyed(self@.members, self@.me, self@.public),
                view_map(out.map()) == want.restrict(ids.take(i as int).to_set()),
            decreases self.members.entries.len() - i,
        {
            let ghost before = out.map();
            let id = self.members.entries[i].0.clone();
            let info = &self.members.entries[i].1;
            proof {
                crate::util::id_map::lemma_entry_value(self.members.entries@, i as int);
                assert(ids[i as int] == id@);
                assert(ids.to_set().contains(ids[i as int]));
            }
            let key = if same_text(id.as_str(), self.my_member_id.as_str()) {
                Some(bytes_vec(self.x25519_public.as_slice()))
            } else {
                None
            };
            let next = MemberCryptoInfo {
                member_id: info.member_id.clone(),
                nickname: info.nickname.clone(),
                x25519_public: key,
            };
            proof {
                lemma_restrict_step(want, ids, i as int);
                lemma_view_insert(before, id@, next);
                assert(next@ =~= want[id@]);
            }
            out.insert(id, next);
            i += 1;
        }
        proof {
            assert(ids.take(ids.len() as int) =~= ids);
            assert(want.restrict(ids.to_set()) =~= want);
        }
        out
    }

    /// Starts an epoch now, with a random next key pair.
    pub(crate) fn activate_epoch(&mut self, new_epoch: u64, group_secret: [u8; 32])
        requires
            old(self).wf(),
        ensures
            final(self).wf(),
            exists|now: i64|
                final(self)@ == #[trigger] activated(
                    old(self)@,
                    new_epoch,
                    group_secret@,
                    now,
                    final(self)@.secret,
                ),
    {
        let now = unix_timestamp();
        let next_secret = random_bytes32();
        self.activate_epoch_with(new_epoch, group_secret, now, next_secret);
        assert(self@ == activated(old(self)@, new_epoch, group_secret@, now, self@.secret));
    }

    /// Takes up the list of members that the server sent.
    pub fn replace_members(&mut self, members: Vec<(String, String)>) -> (out: Result<
        (),
        CryptoError,
    >)
        requires
            old(self).wf(),
        ensures
            out is Ok,
            final(self).wf(),
            final(self)@ == with_members(old(self)@, pair_views(members@)),
    {
        let ghost g = self@;
        let ghost list = pair_views(members@);
        let mut next = IdMap::<MemberCryptoInfo>::new();
        let mut i: usize = 0;
        assert(view_map(next.map()) =~= listed_roster(g, list.take(0)));
        while i < members.len()
            invariant
                i <= members@.len(),
                self.wf(),
                next.wf(),
                g == self@,
                list == pair_views(members@),
                view_map(next.map()) == listed_roster(g, list.take(i as int)),
            decreases members.len() - i,
        {
            let ghost before = next.map();
            let member_id = members[i].0.clone();
            let key = if same_text(member_id.as_str(), self.my_member_id.as_str()) {
                Some(bytes_vec(self.x25519_public.as_slice()))
            } else {
                match self.members.get(member_id.as_str()) {
                    Some(info) => copy_opt_bytes(&info.x25519_public),
                    None => None,
                }
            };
            let info = MemberCryptoInfo {
                member_id: member_id.clone(),
                nickname: members[i].1.clone(),
                x25519_public: key,
            };
            proof {
                assert(list.take(i + 1).drop_last() =~= list.take(i as int));
                assert(list.take(i + 1).last() == list[i as int]);
                lemma_view_insert(before, member_id@, info);
            }
            next.insert(member_id, info);
            i += 1;
        }
        assert(list.take(list.len() as int) =~= list);
        if !next.contains_key(self.my_member_id.as_str()) {
            let nickname = match self.members.get(self.my_member_id.as_str()) {
                Some(info) => info.nickname.clone(),
                None => self.my_member_id.clone(),
            };
            let info = MemberCryptoInfo {
                member_id: self.my_member_id.clone(),
                nickname,
                x25519_public: Some(bytes_vec(self.x25519_public.as_slice())),
            };
            proof {
                lemma_view_insert(next.map(), self.my_member_id@, info);
            }
            next.insert(self.my_member_id.clone(), info);
        }
        assert(view_map(next.map()) =~= next_roster(g, list));
        let previous_members = sorted_ids(&self.members);
        let next_member_ids = sorted_ids(&next);
        proof {
            assert(g.members.dom() =~= self.members.map().dom());
            assert(next_roster(g, list).dom() =~= next.map().dom());
        }
        if self.roster_initialized {
            if !same_strings(&previous_members, &next_member_ids) {
                self.pending_transition = detect_roster_transition(
                    previous_members,
                    next_member_ids,
                );
            }
        } else {
            if self.my_sender_chain.is_some() {
                self.pending_transition = detect_roster_transition(
                    previous_members,
                    next_member_ids,
                );
            } else {
                self.pending_transition = detect_initial_join_transition(
                    self.my_member_id.as_str(),
                    previous_members,
                    next_member_ids,
                );
            }
            self.roster_initialized = true;
        }
        let kept = self.kept_chains(&next);
        self.recv_chains = kept;
        self.members = next;
        proof {
            assert(self@ =~= with_members(g, list));
            lemma_sound_with_members(g, list);
        }
        Ok(())
    }

    /// The receive chains of members that a roster holds.
    fn kept_chains(&self, roster: &IdMap<MemberCryptoInfo>) -> (kept: IdMap<RecvChainState>)
        requires
            self.recv_chains.wf(),
            roster.wf(),
        ensures
            kept.wf(),
            view_map(kept.map()) == self@.recv.restrict(roster.map().dom()),
    {
        let chains = copy_map(&self.recv_chains);
        let kept = chains.keep_ids_of(roster);
        assert(view_map(kept.map()) =~= self@.recv.restrict(roster.map().dom()));
        kept
    }

    /// The nickname of a member.
    pub fn member_display_name(&self, sender_id: &str) -> (name: Option<String>)
        requires
            self.wf(),
        ensures
            match name {
                Some(n) => self@.members.contains_key(sender_id@)
                    && self@.members[sender_id@].nickname == n@,
                None => !self@.members.contains_key(sender_id@),
            },
    {
        match self.members.get(sender_id) {
            Some(member) => Some(member.nickname.clone()),
            None => None,
        }
    }

    /// Drops what has expired at a given time.
    pub fn cleanup_expired_at(&mut self, now: i64)
        requires
            old(self).wf(),
        ensures
            final(self).wf(),
            final(self)@ == cleaned(old(self)@, now),
    {
        let ghost g = self@;
        clean_chains(&mut self.recv_chains, now);
        retain_unexpired(&mut self.old_epochs, now);
        let ghost live = old_views(self.old_epochs@);
        let ghost clean = |o: OldView|
            OldView { recv_chains: cleaned_chains(o.recv_chains, now), ..o };
        let mut i: usize = 0;
        while i < self.old_epochs.len()
            invariant
                i <= self.old_epochs@.len(),
                self.wf(),
                clean == (|o: OldView|
                    OldView { recv_chains: cleaned_chains(o.recv_chains, now), ..o }),
                live.len() == self.old_epochs@.len(),
                forall|k: int| 0 <= k < i ==> (#[trigger] self.old_epochs@[k])@ == clean(live[k]),
                forall|k: int|
                    i <= k < live.len() ==> (#[trigger] self.old_epochs@[k])@ == live[k],
                self@ == (GroupView {
                    recv: cleaned_chains(g.recv, now),
                    old: old_views(self.old_epochs@),
                    ..g
                }),
            decreases self.old_epochs.len() - i,
        {
            let ghost here = self.old_epochs@;
            let mut chains = copy_map(&self.old_epochs[i].recv_chains);
            clean_chains(&mut chains, now);
            self.old_epochs[i].recv_chains = chains;
            proof {
                assert forall|k: int| 0 <= k < self.old_epochs@.len() && k != i implies (
                #[trigger] self.old_epochs@[k]) == here[k] by {}
                assert(self.old_epochs@[i as int]@ =~= clean(live[i as int]));
            }
            i += 1;
        }
        proof {
            assert(self@.old =~= live.map_values(clean));
            assert(self@ =~= cleaned(g, now));
        }
    }

    /// Drops what has expired.
    pub fn cleanup_expired_skipped_keys(&mut self)
        requires
            old(self).wf(),
        ensures
            final(self).wf(),
            exists|now: i64| final(self)@ == #[trigger] cleaned(old(self)@, now),
    {
        let now = unix_timestamp();
        self.cleanup_expired_at(now);
    }
}

/// The identifiers of a map in ascending order.
fn sorted_ids<V>(m: &IdMap<V>) -> (ids: Vec<String>)
    requires
        m.wf(),
    ensures
        views(ids@) == sorted_set(m.map().dom()),
{
    let ids = m.ids();
    proof {
        lemma_sorted_set(views(ids@), m.map().dom());
    }
    sort_strings(ids)
}

/// An identifier outside the map adds nothing to a restriction.
proof fn lemma_restrict_skip<W>(m: Map<Seq<char>, W>, ids: Seq<Seq<char>>, i: int)
    requires
        0 <= i < ids.len(),
        !m.contains_key(ids[i]),
    ensures
        m.restrict(ids.take(i + 1).to_set()) == m.restrict(ids.take(i).to_set()),
{
    let a = ids.take(i);
    let b = ids.take(i + 1);
    assert forall|x: Seq<char>| m.contains_key(x) implies b.to_set().contains(x)
        == a.to_set().contains(x) by {
        if a.contains(x) {
            let k = choose|k: int| 0 <= k < a.len() && a[k] == x;
            assert(b[k] == x);
        }
        if b.contains(x) {
            let k = choose|k: int| 0 <= k < b.len() && b[k] == x;
            assert(a[k] == x);
        }
    }
    assert(m.restrict(b.to_set()) =~= m.restrict(a.to_set()));
}

} // verus!
