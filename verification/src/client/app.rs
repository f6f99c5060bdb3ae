//! What a client sends of its own accord to keep the group's keys up to date.
use crate::crypto::error::CryptoError;
use crate::crypto::group::{
    committed, may_propose, GroupCryptoState, GroupView, KEY_ANNOUNCE_NONCE_LEN,
};
use crate::crypto::membership::{commit_outcome, own_announce};
use crate::crypto::messages::{
    announce_tree, commit_tree, AnnounceView, CommitView, EpochCommit, MemberKeyAnnounce,
};
use crate::outside::clock::unix_timestamp;
use crate::outside::json::json_bytes;
use crate::outside::random::{random_bytes, random_bytes32};
use crate::protocol::line::{
    build_epoch_commit_line, build_key_announce_line, epoch_commit_of_line, key_announce_of_line,
    tagged_line,
};
use crate::util::text::views;
use vstd::prelude::*;

verus! {

/// The line that announces a key.
pub open spec fn announce_line(a: AnnounceView) -> Seq<char> {
    tagged_line("/KEY_ANNOUNCE"@, json_bytes(announce_tree(a)))
}

/// The line that commits to an epoch.
pub open spec fn commit_line(c: CommitView) -> Seq<char> {
    tagged_line("/EPOCH_COMMIT"@, json_bytes(commit_tree(c)))
}

/// The lines that a member sends, and the group that results: its key, the commit that it may
/// propose, and, when it follows that commit itself, its key in the new epoch.
pub open spec fn upkeep(
    g: GroupView,
    announce: AnnounceView,
    commit: Option<CommitView>,
    now: i64,
    fresh: Seq<u8>,
    nonce: Seq<u8>,
) -> (GroupView, Seq<Seq<char>>) {
    match commit {
        None => (g, seq![announce_line(announce)]),
        Some(c) => {
            let (out, next) = committed(g, c, now, fresh);
            if out == Ok::<bool, CryptoError>(true) {
                (
                    next,
                    seq![
                        announce_line(announce),
                        commit_line(c),
                        announce_line(own_announce(next, nonce)),
                    ],
                )
            } else {
                (next, seq![announce_line(announce), commit_line(c)])
            }
        },
    }
}

/// A commit as a value.
pub open spec fn commit_of(c: Option<EpochCommit>) -> Option<CommitView> {
    match c {
        Some(c) => Some(c@),
        None => None,
    }
}

/// The lines that a member sends, with a given announcement and commit. They can be read back.
pub fn upkeep_lines_with(
    group: &mut GroupCryptoState,
    announce: &MemberKeyAnnounce,
    commit: &Option<EpochCommit>,
    now: i64,
    next_secret: [u8; 32],
    nonce: Vec<u8>,
) -> (lines: Vec<String>)
    requires
        old(group).wf(),
    ensures
        final(group).wf(),
        (final(group)@, views(lines@)) == upkeep(
            old(group)@,
            announce@,
            commit_of(*commit),
            now,
            next_secret@,
            nonce@,
        ),
        lines@.len() > 0,
        key_announce_of_line(lines@[0]@) == Some(announce@),
        commit matches Some(c) ==> lines@.len() > 1 && epoch_commit_of_line(lines@[1]@) == Some(c@),
        lines@.len() > 2 ==> key_announce_of_line(lines@[2]@) == Some(
            own_announce(final(group)@, nonce@),
        ),
{
    let mut lines: Vec<String> = Vec::new();
    match build_key_announce_line(announce) {
        Ok(line) => lines.push(line),
        Err(_) => {
            assert(false);
        },
    }
    assert(views(lines@) =~= seq![announce_line(announce@)]);
    match commit {
        None => {},
        Some(c) => {
            match build_epoch_commit_line(c) {
                Ok(line) => lines.push(line),
                Err(_) => {
                    assert(false);
                },
            }
            assert(views(lines@) =~= seq![announce_line(announce@), commit_line(c@)]);
            match group.apply_epoch_commit_with(c, now, next_secret) {
                Ok(true) => {
                    let own = group.key_announce_with_nonce(nonce);
                    match build_key_announce_line(&own) {
                        Ok(line) => lines.push(line),
                        Err(_) => {
                            assert(false);
                        },
                    }
                    assert(views(lines@) =~= seq![
                        announce_line(announce@),
                        commit_line(c@),
                        announce_line(own@),
                    ]);
                },
                _ => {},
            }
        },
    }
    lines
}

/// The commit that a member may propose, if any.
pub open spec fn may_commit(g: GroupView, commit: Option<EpochCommit>) -> bool {
    exists|out: Result<Option<EpochCommit>, CryptoError>| #[trigger]
        commit_outcome(g, may_propose(g), out) && commit == match out {
            Ok(c) => c,
            Err(_) => None,
        }
}

/// The lines that a member sends to keep the group's keys up to date.
pub fn trigger_phase2_actions(group: &mut GroupCryptoState) -> (lines: Vec<String>)
    requires
        old(group).wf(),
    ensures
        final(group).wf(),
        exists|
            first: Seq<u8>,
            commit: Option<EpochCommit>,
            now: i64,
            fresh: Seq<u8>,
            nonce: Seq<u8>,
        |
            first.len() == KEY_ANNOUNCE_NONCE_LEN && fresh.len() == 32 && nonce.len()
                == KEY_ANNOUNCE_NONCE_LEN && may_commit(old(group)@, commit)
                    && (final(group)@, views(lines@)) == #[trigger] upkeep(
                old(group)@,
                own_announce(old(group)@, first),
                commit_of(commit),
                now,
                fresh,
                nonce,
            ),
        lines@.len() > 0,
        key_announce_of_line(lines@[0]@) matches Some(a) && a == own_announce(old(group)@, a.nonce),
{
    let announce = group.local_key_announce();
    let ghost first = announce@.nonce;
    let built = group.build_pending_epoch_commit();
    let ghost out = built;
    let commit = match built {
        Ok(commit) => commit,
        Err(_) => None,
    };
    let now = unix_timestamp();
    let next_secret = random_bytes32();
    let nonce = random_bytes(KEY_ANNOUNCE_NONCE_LEN);
    let ghost second = nonce@;
    assert(may_commit(old(group)@, commit)) by {
        assert(commit_outcome(old(group)@, may_propose(old(group)@), out));
    }
    let lines = upkeep_lines_with(group, &announce, &commit, now, next_secret, nonce);
    assert((group@, views(lines@)) == upkeep(
        old(group)@,
        own_announce(old(group)@, first),
        commit_of(commit),
        now,
        next_secret@,
        second,
    ));
    lines
}

} // verus!
