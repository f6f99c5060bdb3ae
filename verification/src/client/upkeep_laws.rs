//! What a member sends of its own accord.
use crate::client::app::{announce_line, commit_line, upkeep};
use crate::crypto::error::CryptoError;
use crate::crypto::group::{committed, GroupView};
use crate::crypto::membership::own_announce;
use crate::crypto::messages::{AnnounceView, CommitView};
use vstd::prelude::*;

verus! {

/// A member always announces its key first. A commit that it built follows; when it follows that
/// commit itself, it is in the new epoch and announces its new key there. Without a commit the group
/// stays as it is.
pub proof fn law_upkeep_announces_and_commits(
    g: GroupView,
    announce: AnnounceView,
    commit: Option<CommitView>,
    now: i64,
    fresh: Seq<u8>,
    nonce: Seq<u8>,
)
    ensures
        ({
            let (next, lines) = upkeep(g, announce, commit, now, fresh, nonce);
            &&& lines.len() > 0
            &&& lines[0] == announce_line(announce)
            &&& commit is None ==> next == g && lines.len() == 1
            &&& commit is Some ==> {
                let r = committed(g, commit->0, now, fresh);
                &&& lines.len() >= 2
                &&& lines[1] == commit_line(commit->0)
                &&& next == r.1
                &&& r.0 == Ok::<bool, CryptoError>(true) <==> lines.len() == 3
                &&& lines.len() == 3 ==> lines[2] == announce_line(own_announce(next, nonce))
                &&& lines.len() == 3 ==> next.epoch == (commit->0).new_epoch
                &&& lines.len() <= 3
            }
        }),
{
}

} // verus!
