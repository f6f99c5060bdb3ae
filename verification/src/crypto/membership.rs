//! Key announcements and epoch commits.
use crate::crypto::aead::sealable;
use crate::crypto::chain::{bytes12_from_slice, bytes32_from_slice};
use crate::crypto::epoch::{
    announce_mac, compute_key_announce_mac, contains_text, context_of,
    proposer_candidates_for_event, proposer_order, roster_hash, unwrap_epoch_secret_from_commit,
    validate_epoch_commit, wrap_epoch_secret_with_nonce, wrapped_secret, EpochCommitContext,
};
use crate::crypto::error::CryptoError;
use crate::crypto::group::{
    announced, bytes_vec, carries_secret, committed, committed_secret, first_for, joins_later_epoch,
    lemma_view_insert, may_propose, opens_for, pending_proposers, proposed_commit, proposed_plain,
    GroupCryptoState, GroupView, MemberCryptoInfo, PendingRosterTransition, PendingView,
    KEY_ANNOUNCE_NONCE_LEN,
};
use crate::crypto::messages::{
    plain_tree, AnnounceView, CommitView, EpochCommit, EpochEventType, EpochSecretPlain,
    MemberKeyAnnounce, WrappedEpochSecret, WrappedView,
};
use crate::outside::clock::unix_timestamp;
use crate::outside::json::json_bytes;
use crate::outside::random::{random_bytes, random_bytes32};
use crate::outside::x25519::x25519_public;
use crate::util::order::same_bytes;
use crate::util::text::{same_text, views};
use vstd::prelude::*;

verus! {

/// The wrapped secrets for a list of recipients, one nonce each.
pub open spec fn wrapped_for_all(
    g: GroupView,
    p: PendingView,
    group_secret: Seq<u8>,
    nonces: Seq<Seq<u8>>,
) -> Seq<WrappedView> {
    Seq::new(
        p.new_members.len(),
        |i: int|
            wrapped_secret(
                p.new_members[i],
                g.members[p.new_members[i]].x25519_public->0,
                g.secret,
                g.auth_key,
                context_of(proposed_commit(g, p, Seq::empty())),
                proposed_plain(g, p, p.new_members[i], group_secret),
                nonces[i],
            ),
    )
}

/// Whether every recipient's part is short enough to be encrypted.
pub open spec fn all_sealable(g: GroupView, p: PendingView, group_secret: Seq<u8>) -> bool {
    forall|i: int|
        0 <= i < p.new_members.len() ==> sealable(
            json_bytes(
                plain_tree(proposed_plain(g, p, #[trigger] p.new_members[i], group_secret)),
            ),
        )
}

/// Whether a wrapped secret is the one for the new member at `k`, and opens for that member.
#[verifier::opaque]
spec fn serves(
    g: GroupView,
    p: PendingView,
    group_secret: Seq<u8>,
    nonce: Seq<u8>,
    k: int,
    w: WrappedView,
) -> bool {
    let id = p.new_members[k];
    let public = g.members[id].x25519_public->0;
    let commit = proposed_commit(g, p, Seq::empty());
    let plain = proposed_plain(g, p, id, group_secret);
    &&& sealable(json_bytes(plain_tree(plain)))
    &&& w == wrapped_secret(id, public, g.secret, g.auth_key, context_of(commit), plain, nonce)
    &&& opens_for(w, id, public, g.auth_key, commit, plain)
}

/// A commit whose parts serve every new member carries the secret.
#[verifier::spinoff_prover]
proof fn lemma_served(
    g: GroupView,
    p: PendingView,
    group_secret: Seq<u8>,
    nonces: Seq<Seq<u8>>,
    commit: CommitView,
)
    requires
        group_secret.len() == 32,
        commit == proposed_commit(g, p, commit.wrapped_secrets),
        commit.wrapped_secrets.len() == p.new_members.len(),
        forall|k: int|
            0 <= k < p.new_members.len() ==> serves(
                g,
                p,
                group_secret,
                nonces[k],
                k,
                #[trigger] commit.wrapped_secrets[k],
            ),
    ensures
        all_sealable(g, p, group_secret),
        commit.wrapped_secrets == wrapped_for_all(g, p, group_secret, nonces),
        carries_secret(g, p, commit, group_secret),
{
    let bare = proposed_commit(g, p, Seq::empty());
    assert(context_of(commit) == context_of(bare));
    assert forall|k: int| 0 <= k < p.new_members.len() implies sealable(
        json_bytes(plain_tree(proposed_plain(g, p, #[trigger] p.new_members[k], group_secret))),
    ) by {
        assert(serves(g, p, group_secret, nonces[k], k, commit.wrapped_secrets[k]));
        reveal(serves);
    }
    assert forall|k: int| 0 <= k < p.new_members.len() implies (
    #[trigger] commit.wrapped_secrets[k]) == wrapped_for_all(g, p, group_secret, nonces)[k]
        && commit.wrapped_secrets[k].recipient_id == p.new_members[k] && opens_for(
        commit.wrapped_secrets[k],
        p.new_members[k],
        g.members[p.new_members[k]].x25519_public->0,
        g.auth_key,
        commit,
        proposed_plain(g, p, p.new_members[k], group_secret),
    ) by {
        reveal(serves);
    }
    assert(commit.wrapped_secrets =~= wrapped_for_all(g, p, group_secret, nonces));
}

/// The announcement of a member's own key, with a given nonce.
pub open spec fn own_announce(g: GroupView, nonce: Seq<u8>) -> AnnounceView {
    AnnounceView {
        group_id: g.group_id,
        epoch: g.epoch,
        member_id: g.me,
        x25519_public: g.public,
        nonce,
        mac: announce_mac(g.auth_key, g.group_id, g.epoch, g.me, g.public, nonce),
    }
}

/// Nonces as sequences.
pub open spec fn nonce_views(nonces: Seq<[u8; 12]>) -> Seq<Seq<u8>> {
    nonces.map_values(|n: [u8; 12]| n@)
}

impl GroupCryptoState {
    /// The announcement of this member's key, with a given nonce.
    pub fn key_announce_with_nonce(&self, nonce: Vec<u8>) -> (announce: MemberKeyAnnounce)
        ensures
            announce@ == own_announce(self@, nonce@),
    {
        let mac = compute_key_announce_mac(
            &self.room_auth_key,
            self.group_id.as_str(),
            self.epoch,
            self.my_member_id.as_str(),
            self.x25519_public.as_slice(),
            nonce.as_slice(),
        );
        MemberKeyAnnounce {
            group_id: self.group_id.clone(),
            epoch: self.epoch,
            member_id: self.my_member_id.clone(),
            x25519_public: bytes_vec(self.x25519_public.as_slice()),
            nonce,
            mac,
        }
    }

    /// The announcement of this member's key.
    pub fn local_key_announce(&self) -> (announce: MemberKeyAnnounce)
        ensures
            announce@.nonce.len() == KEY_ANNOUNCE_NONCE_LEN,
            announce@ == own_announce(self@, announce@.nonce),
    {
        let nonce = random_bytes(KEY_ANNOUNCE_NONCE_LEN);
        self.key_announce_with_nonce(nonce)
    }

    /// Takes up a member's announced key; true when the key is new.
    pub fn apply_key_announce(&mut self, announce: &MemberKeyAnnounce) -> (out: Result<
        bool,
        CryptoError,
    >)
        requires
            old(self).wf(),
        ensures
            final(self).wf(),
            out == announced(old(self)@, announce@).0,
            final(self)@ == announced(old(self)@, announce@).1,
    {
        let ghost g = self@;
        if !same_text(announce.group_id.as_str(), self.group_id.as_str()) {
            return Err(CryptoError::AnnounceGroup);
        }
        if announce.x25519_public.len() != 32 {
            return Err(CryptoError::AnnounceKeyLength);
        }
        let mac = compute_key_announce_mac(
            &self.room_auth_key,
            announce.group_id.as_str(),
            announce.epoch,
            announce.member_id.as_str(),
            announce.x25519_public.as_slice(),
            announce.nonce.as_slice(),
        );
        if !same_bytes(announce.mac.as_slice(), mac.as_slice()) {
            return Err(CryptoError::AnnounceMac);
        }
        let at = match self.members.position(announce.member_id.as_str()) {
            Some(at) => at,
            None => {
                return Ok(false);
            },
        };
        let member = &self.members.entries[at].1;
        assert(g.members[announce.member_id@] == member@);
        match &member.x25519_public {
            Some(known) => {
                if same_bytes(known.as_slice(), announce.x25519_public.as_slice()) {
                    return Ok(false);
                }
                let ghost before = self.key_conflicts.map();
                self.key_conflicts.insert(announce.member_id.clone(), ());
                assert(self@.conflicts =~= g.conflicts.insert(announce.member_id@));
                assert(self@ =~= announced(g, announce@).1);
                Err(CryptoError::AnnounceKeyConflict)
            },
            None => {
                let next = MemberCryptoInfo {
                    member_id: member.member_id.clone(),
                    nickname: member.nickname.clone(),
                    x25519_public: Some(bytes_vec(announce.x25519_public.as_slice())),
                };
                proof {
                    lemma_view_insert(self.members.map(), announce.member_id@, next);
                }
                self.members.set_at(at, next);
                proof {
                    assert(self@ =~= announced(g, announce@).1);
                    assert(self@.members.dom() =~= g.members.dom());
                }
                Ok(true)
            },
        }
    }

    /// Whether it is this member's turn to propose a member's joining.
    pub fn can_build_join_commit(&self) -> (yes: bool)
        requires
            self.wf(),
        ensures
            yes == (may_propose(self@) && (self@.pending matches Some(p) && p.event_type
                == EpochEventType::Join)),
    {
        self.can_build_pending_epoch_commit() && match &self.pending_transition {
            Some(pending) => pending.event_type == EpochEventType::Join,
            None => false,
        }
    }

    /// Whether it is this member's turn to propose the pending transition, and it can.
    pub fn can_build_pending_epoch_commit(&self) -> (yes: bool)
        requires
            self.wf(),
        ensures
            yes == may_propose(self@),
    {
        if self.my_sender_chain.is_none() {
            return false;
        }
        let pending = match &self.pending_transition {
            Some(pending) => pending,
            None => {
                return false;
            },
        };
        let candidates = proposer_candidates_for_event(
            pending.event_type,
            pending.old_members.as_slice(),
            pending.new_members.as_slice(),
        );
        let proposer = proposer_order(
            self.group_id.as_str(),
            self.epoch,
            pending.event_type,
            pending.affected_member_id.as_str(),
            candidates.as_slice(),
        );
        assert(views(proposer@) == pending_proposers(self@, pending@));
        assert(views(proposer@).len() == proposer@.len());
        if proposer.len() == 0 {
            return false;
        }
        assert(views(proposer@)[0] == proposer@[0]@);
        if !same_text(proposer[0].as_str(), self.my_member_id.as_str()) {
            return false;
        }
        let mut i: usize = 0;
        let ghost ids = views(pending.new_members@);
        while i < pending.new_members.len()
            invariant
                i <= pending.new_members@.len(),
                self.wf(),
                self@.pending == Some(pending@),
                ids == views(pending.new_members@),
                forall|k: int|
                    0 <= k < i ==> self@.members.contains_key(#[trigger] ids[k]) && (
                    self@.members[ids[k]].x25519_public matches Some(p) && p.len() == 32),
            decreases pending.new_members.len() - i,
        {
            assert(ids[i as int] == pending.new_members@[i as int]@);
            let known = match self.members.get(pending.new_members[i].as_str()) {
                Some(member) => match &member.x25519_public {
                    Some(public) => public.len() == 32,
                    None => false,
                },
                None => false,
            };
            if !known {
                return false;
            }
            i += 1;
        }
        true
    }

    /// The secret of the proposed epoch, wrapped for one new member.
    #[verifier::spinoff_prover]
    fn wrap_for(
        &self,
        pending: &PendingRosterTransition,
        context: &EpochCommitContext,
        i: usize,
        group_secret: &[u8; 32],
        nonce: &[u8; 12],
    ) -> (out: Result<WrappedEpochSecret, CryptoError>)
        requires
            self.wf(),
            self@.pending == Some(pending@),
            may_propose(self@),
            i < pending@.new_members.len(),
            context@ == context_of(proposed_commit(self@, pending@, Seq::empty())),
        ensures
            match out {
                Ok(w) => serves(self@, pending@, group_secret@, nonce@, i as int, w@),
                Err(e) => e == CryptoError::WrapFailed && !sealable(
                    json_bytes(
                        plain_tree(
                            proposed_plain(
                                self@,
                                pending@,
                                pending@.new_members[i as int],
                                group_secret@,
                            ),
                        ),
                    ),
                ),
            },
    {
        let ghost g = self@;
        let ghost p = pending@;
        let recipient_id = pending.new_members[i].as_str();
        assert(p.new_members[i as int] == recipient_id@);
        let recipient_public = match self.members.get(recipient_id) {
            Some(member) => match &member.x25519_public {
                Some(public) => public,
                None => {
                    assert(false);
                    return Err(CryptoError::MissingRecipientKey);
                },
            },
            None => {
                assert(false);
                return Err(CryptoError::MissingRecipientKey);
            },
        };
        let plain = EpochSecretPlain {
            group_id: context.group_id.clone(),
            old_epoch: context.old_epoch,
            new_epoch: context.new_epoch,
            event_type: context.event_type,
            recipient_id: pending.new_members[i].clone(),
            group_secret: bytes_vec(group_secret.as_slice()),
            new_roster_hash: context.new_roster_hash.clone(),
        };
        assert(plain@ =~= proposed_plain(g, p, p.new_members[i as int], group_secret@));
        assert(g.members[recipient_id@].x25519_public == Some(recipient_public@));
        proof {
            reveal(serves);
        }
        wrap_epoch_secret_with_nonce(
            recipient_id,
            recipient_public.as_slice(),
            &self.x25519_secret,
            &self.room_auth_key,
            context,
            &plain,
            nonce,
        )
    }

    /// The commit for the pending transition, with a given epoch secret and nonces: nothing when it
    /// is not this member's turn.
    #[verifier::spinoff_prover]
    pub fn build_commit_with(&self, group_secret: [u8; 32], nonces: &Vec<[u8; 12]>) -> (out: Result<
        Option<EpochCommit>,
        CryptoError,
    >)
        requires
            self.wf(),
            self@.pending matches Some(p) ==> nonces@.len() == p.new_members.len(),
        ensures
            !may_propose(self@) ==> out == Ok::<Option<EpochCommit>, CryptoError>(None),
            may_propose(self@) ==> {
                let p = self@.pending->0;
                if all_sealable(self@, p, group_secret@) {
                    &&& out matches Ok(Some(commit))
                    &&& commit@ == proposed_commit(
                        self@,
                        p,
                        wrapped_for_all(self@, p, group_secret@, nonce_views(nonces@)),
                    )
                    &&& carries_secret(self@, p, commit@, group_secret@)
                } else {
                    out == Err::<Option<EpochCommit>, CryptoError>(CryptoError::WrapFailed)
                }
            },
    {
        if !self.can_build_pending_epoch_commit() {
            return Ok(None);
        }
        let pending = match &self.pending_transition {
            Some(pending) => pending,
            None => {
                return Ok(None);
            },
        };
        let ghost g = self@;
        let ghost p = pending@;
        let ghost context_view = context_of(proposed_commit(g, p, Seq::empty()));
        let context = EpochCommitContext {
            group_id: self.group_id.clone(),
            old_epoch: self.epoch,
            new_epoch: self.epoch.saturating_add(1),
            event_type: pending.event_type,
            affected_member_id: pending.affected_member_id.clone(),
            old_roster_hash: roster_hash(pending.old_members.as_slice()),
            new_roster_hash: roster_hash(pending.new_members.as_slice()),
            proposer_id: self.my_member_id.clone(),
            proposer_attempt: 0,
        };
        assert(context@ =~= context_view);
        let mut wrapped_secrets: Vec<WrappedEpochSecret> = Vec::new();
        let mut i: usize = 0;
        while i < pending.new_members.len()
            invariant
                i <= pending.new_members@.len(),
                self.wf(),
                g == self@,
                p == pending@,
                g.pending == Some(p),
                may_propose(g),
                nonces@.len() == p.new_members.len(),
                context@ == context_view,
                context_view == context_of(proposed_commit(g, p, Seq::empty())),
                wrapped_secrets@.len() == i,
                forall|k: int|
                    0 <= k < i ==> serves(
                        g,
                        p,
                        group_secret@,
                        nonces@[k]@,
                        k,
                        (#[trigger] wrapped_secrets@[k])@,
                    ),
            decreases pending.new_members.len() - i,
        {
            let wrapped = match self.wrap_for(pending, &context, i, &group_secret, &nonces[i]) {
                Ok(wrapped) => wrapped,
                Err(e) => {
                    assert(!all_sealable(g, p, group_secret@));
                    return Err(e);
                },
            };
            wrapped_secrets.push(wrapped);
            i += 1;
        }
        let commit = EpochCommit {
            group_id: context.group_id,
            old_epoch: context.old_epoch,
            new_epoch: context.new_epoch,
            event_type: context.event_type,
            affected_member_id: context.affected_member_id,
            old_roster_hash: context.old_roster_hash,
            new_roster_hash: context.new_roster_hash,
            proposer_id: context.proposer_id,
            proposer_attempt: context.proposer_attempt,
            wrapped_secrets,
        };
        proof {
            let parts = commit@.wrapped_secrets;
            assert(commit@ =~= proposed_commit(g, p, parts));
            assert forall|k: int| 0 <= k < p.new_members.len() implies serves(
                g,
                p,
                group_secret@,
                nonce_views(nonces@)[k],
                k,
                #[trigger] parts[k],
            ) by {
                assert(parts[k] == wrapped_secrets@[k]@);
            }
            lemma_served(g, p, group_secret@, nonce_views(nonces@), commit@);
        }
        Ok(Some(commit))
    }

    /// The commit for a pending joining.
    pub fn build_join_epoch_commit(&mut self) -> (out: Result<Option<EpochCommit>, CryptoError>)
        requires
            old(self).wf(),
        ensures
            *final(self) == *old(self),
            commit_outcome(
                old(self)@,
                may_propose(old(self)@) && old(self)@.pending->0.event_type == EpochEventType::Join,
                out,
            ),
    {
        let joining = match &self.pending_transition {
            Some(pending) => pending.event_type == EpochEventType::Join,
            None => false,
        };
        if !joining {
            assert(commit_outcome_with(self@, false, Ok(None), Seq::new(32, |i: int| 0u8)));
            return Ok(None);
        }
        self.build_pending_epoch_commit()
    }

    /// The commit for the pending transition.
    pub fn build_pending_epoch_commit(&mut self) -> (out: Result<Option<EpochCommit>, CryptoError>)
        requires
            old(self).wf(),
        ensures
            *final(self) == *old(self),
            commit_outcome(old(self)@, may_propose(old(self)@), out),
    {
        let count: usize = match &self.pending_transition {
            Some(pending) => pending.new_members.len(),
            None => 0,
        };
        let group_secret = random_bytes32();
        let nonces = random_nonces(count);
        let out = self.build_commit_with(group_secret, &nonces);
        assert(commit_outcome_with(self@, may_propose(self@), out, group_secret@));
        out
    }

    /// Whether a member that has just joined may follow a commit of a later epoch.
    fn can_accept_join_commit_from_later_epoch(
        &self,
        pending: &PendingRosterTransition,
        commit: &EpochCommit,
    ) -> (yes: bool)
        ensures
            yes == joins_later_epoch(self@, pending@, commit@),
    {
        self.epoch < commit.old_epoch && pending.event_type == EpochEventType::Join
            && commit.event_type == EpochEventType::Join && same_text(
            pending.affected_member_id.as_str(),
            self.my_member_id.as_str(),
        ) && same_text(commit.affected_member_id.as_str(), self.my_member_id.as_str())
            && !contains_text(pending.old_members.as_slice(), self.my_member_id.as_str())
            && contains_text(pending.new_members.as_slice(), self.my_member_id.as_str())
    }

    /// The secret of the epoch that a commit starts; nothing when the commit is out of date.
    fn secret_from_commit(
        &self,
        commit: &EpochCommit,
    ) -> (out: Result<Option<[u8; 32]>, CryptoError>)
        ensures
            match (out, committed_secret(self@, commit@)) {
                (Ok(Some(secret)), Ok(Some(v))) => secret@ == v,
                (Ok(None), Ok(None)) => true,
                (Err(e), Err(f)) => e == f,
                _ => false,
            },
    {
        let pending = match &self.pending_transition {
            Some(pending) => pending,
            None => {
                if commit.old_epoch < self.epoch || commit.new_epoch <= self.epoch {
                    return Ok(None);
                }
                return Err(CryptoError::MissingPendingForCommit);
            },
        };
        let expected_old_epoch: u64 = if self.can_accept_join_commit_from_later_epoch(
            pending,
            commit,
        ) {
            commit.old_epoch
        } else {
            self.epoch
        };
        match validate_epoch_commit(
            self.group_id.as_str(),
            expected_old_epoch,
            commit,
            pending.old_members.as_slice(),
            pending.new_members.as_slice(),
        ) {
            Ok(_) => {},
            Err(e) => {
                return Err(e);
            },
        }
        let at = first_wrapped_for(&commit.wrapped_secrets, self.my_member_id.as_str());
        if at >= commit.wrapped_secrets.len() {
            return Err(CryptoError::CommitWithoutMySecret);
        }
        assert(commit@.wrapped_secrets[at as int] == commit.wrapped_secrets@[at as int]@);
        let plain = match unwrap_epoch_secret_from_commit(
            self.my_member_id.as_str(),
            &self.x25519_secret,
            &self.room_auth_key,
            commit,
            &commit.wrapped_secrets[at],
        ) {
            Ok(plain) => plain,
            Err(e) => {
                return Err(e);
            },
        };
        if !same_text(plain.group_id.as_str(), commit.group_id.as_str()) {
            return Err(CryptoError::PlainGroup);
        }
        if plain.old_epoch != commit.old_epoch {
            return Err(CryptoError::PlainOldEpoch);
        }
        if plain.new_epoch != commit.new_epoch {
            return Err(CryptoError::PlainNewEpoch);
        }
        if plain.event_type != commit.event_type {
            return Err(CryptoError::PlainEventType);
        }
        if !same_text(plain.recipient_id.as_str(), self.my_member_id.as_str()) {
            return Err(CryptoError::WrappedRecipient);
        }
        if !same_text(plain.new_roster_hash.as_str(), commit.new_roster_hash.as_str()) {
            return Err(CryptoError::PlainRosterHash);
        }
        match bytes32_from_slice(plain.group_secret.as_slice()) {
            Ok(secret) => Ok(Some(secret)),
            Err(_) => Err(CryptoError::PlainSecretLength),
        }
    }

    /// Follows a commit into its epoch, at a given time and with a given secret for the next key
    /// pair; false when the commit is out of date.
    pub fn apply_epoch_commit_with(
        &mut self,
        commit: &EpochCommit,
        now: i64,
        next_secret: [u8; 32],
    ) -> (out: Result<bool, CryptoError>)
        requires
            old(self).wf(),
        ensures
            final(self).wf(),
            out == committed(old(self)@, commit@, now, next_secret@).0,
            final(self)@ == committed(old(self)@, commit@, now, next_secret@).1,
    {
        match self.secret_from_commit(commit) {
            Ok(Some(secret)) => {
                self.activate_epoch_with(commit.new_epoch, secret, now, next_secret);
                Ok(true)
            },
            Ok(None) => Ok(false),
            Err(e) => Err(e),
        }
    }

    /// Follows a commit into its epoch; false when the commit is out of date.
    pub fn apply_epoch_commit(&mut self, commit: &EpochCommit) -> (out: Result<bool, CryptoError>)
        requires
            old(self).wf(),
        ensures
            final(self).wf(),
            exists|now: i64, fresh: Seq<u8>|
                fresh.len() == 32
                    && (out, final(self)@) == #[trigger] committed(old(self)@, commit@, now, fresh),
    {
        let now = unix_timestamp();
        let next_secret = random_bytes32();
        let out = self.apply_epoch_commit_with(commit, now, next_secret);
        assert((out, self@) == committed(old(self)@, commit@, now, next_secret@));
        out
    }

    /// The public key that this member announces.
    pub fn current_x25519_public(&self) -> (public: &[u8; 32])
        ensures
            public@ == self@.public,
    {
        &self.x25519_public
    }

    /// The secret behind the announced key.
    pub fn current_x25519_secret_for_test(&self) -> (secret: [u8; 32])
        ensures
            secret@ == self@.secret,
    {
        self.x25519_secret
    }

    /// Starts the receive chains of the current roster from a secret.
    pub fn install_test_recv_chains_for_current_roster(&mut self, group_secret: [u8; 32]) -> (out:
        Result<(), CryptoError>)
        requires
            old(self).wf(),
        ensures
            out is Ok,
            final(self).wf(),
            final(self)@ == (GroupView {
                recv: crate::crypto::group::epoch_chains(
                    crate::crypto::chain::sender_chain_root(
                        group_secret@,
                        old(self)@.group_id,
                        old(self)@.epoch,
                    ),
                    old(self)@.members,
                    old(self)@.me,
                    old(self)@.max_skip,
                ),
                ..old(self)@
            }),
    {
        let root = crate::crypto::chain::derive_sender_chain_root(
            &group_secret,
            self.group_id.as_str(),
            self.epoch,
        );
        let chains = self.start_chains(&root);
        self.recv_chains = chains;
        Ok(())
    }
}

/// What building a commit with a given secret may give.
pub open spec fn commit_outcome_with(
    g: GroupView,
    turn: bool,
    out: Result<Option<EpochCommit>, CryptoError>,
    group_secret: Seq<u8>,
) -> bool {
    if !turn {
        out == Ok::<Option<EpochCommit>, CryptoError>(None)
    } else if all_sealable(g, g.pending->0, group_secret) {
        out matches Ok(Some(commit)) && carries_secret(g, g.pending->0, commit@, group_secret)
    } else {
        out == Err::<Option<EpochCommit>, CryptoError>(CryptoError::WrapFailed)
    }
}

/// What building a commit may give: a commit that carries one secret to every new member, when it
/// is the member's turn and the parts are short enough.
pub open spec fn commit_outcome(
    g: GroupView,
    turn: bool,
    out: Result<Option<EpochCommit>, CryptoError>,
) -> bool {
    exists|group_secret: Seq<u8>|
        group_secret.len() == 32 && #[trigger] commit_outcome_with(g, turn, out, group_secret)
}

/// A number of random nonces.
fn random_nonces(count: usize) -> (nonces: Vec<[u8; 12]>)
    ensures
        nonces@.len() == count,
{
    let mut nonces: Vec<[u8; 12]> = Vec::new();
    while nonces.len() < count
        invariant
            nonces@.len() <= count,
        decreases count - nonces.len(),
    {
        let bytes = random_bytes(12);
        match bytes12_from_slice(bytes.as_slice()) {
            Some(nonce) => {
                nonces.push(nonce);
            },
            None => {
                assert(false);
                nonces.push([0u8;12]);
            },
        }
    }
    nonces
}

/// Where the first wrapped secret for a recipient stands.
fn first_wrapped_for(wrapped: &Vec<WrappedEpochSecret>, recipient: &str) -> (at: usize)
    ensures
        at == first_for(wrapped@.map_values(|w: WrappedEpochSecret| w@), recipient@),
        at <= wrapped@.len(),
{
    let ghost all = wrapped@.map_values(|w: WrappedEpochSecret| w@);
    let mut i: usize = 0;
    assert(all.skip(0) =~= all);
    while i < wrapped.len()
        invariant
            i <= wrapped@.len(),
            all == wrapped@.map_values(|w: WrappedEpochSecret| w@),
            first_for(all, recipient@) == i + first_for(all.skip(i as int), recipient@),
        decreases wrapped.len() - i,
    {
        assert(all.skip(i as int)[0] == wrapped@[i as int]@);
        if same_text(wrapped[i].recipient_id.as_str(), recipient) {
            return i;
        }
        assert(all.skip(i as int).drop_first() =~= all.skip(i + 1));
        i += 1;
    }
    i
}

} // verus!
