//! Changes of epoch: rosters, proposers, and epoch secrets wrapped for each member.
use crate::crypto::aead::{chacha_open, chacha_opened, chacha_seal, sealable};
use crate::crypto::chain::{
    be_bytes, be_bytes_of, bytes12_from_slice, bytes32_from_slice, derive32, push_bytes,
};
use crate::crypto::error::CryptoError;
use crate::crypto::messages::{
    plain_from_bytes, plain_read, plain_to_bytes, plain_tree, CommitView, EpochCommit,
    EpochEventType, EpochSecretPlain, PlainView, WrappedEpochSecret, WrappedView,
};
use crate::crypto::transport::lemma_be_value;
use crate::outside::aead::chacha_sealed;
use crate::outside::digest::{hkdf_sha256, hmac_sha256, hmac_tag, sha256, sha256_digest};
use crate::outside::encoding::{hex_encode, hex_text};
use crate::outside::json::json_bytes;
use crate::outside::x25519::{x25519_public, x25519_public_key, x25519_shared, x25519_shared_secret};
use crate::util::order::{ranked_order, sort_by_key, sort_strings, sorted_texts, Ranked};
use crate::util::text::{same_text, views};
use vstd::prelude::*;
use vstd::utf8::encode_utf8;

verus! {

pub type MemberId = String;

pub const PROPOSER_SORT_LABEL: &'static str = "rust-chat proposer v1";

pub const EPOCH_SECRET_WRAP_LABEL: &'static str = "rust-chat epoch-secret-wrap v1";

pub const EPOCH_COMMIT_CONTEXT_LABEL: &'static str = "rust-chat epoch-commit-context v1";

pub const KEY_ANNOUNCE_MAC_LABEL: &'static str = "rust-chat key-announce-mac v1";

/// The four bytes of a number, the most significant first.
pub open spec fn be_bytes4(n: u32) -> Seq<u8> {
    Seq::new(4, |i: int| ((n >> ((24 - 8 * i) as u32)) & 0xff) as u8)
}

/// Different numbers have different bytes.
pub proof fn lemma_be_bytes4_injective(a: u32, b: u32)
    requires
        be_bytes4(a) == be_bytes4(b),
    ensures
        a == b,
{
    let x = be_bytes4(a);
    let y = be_bytes4(b);
    assert(x[0] == ((a >> 24u32) & 0xff) as u8 && y[0] == ((b >> 24u32) & 0xff) as u8);
    assert(x[1] == ((a >> 16u32) & 0xff) as u8 && y[1] == ((b >> 16u32) & 0xff) as u8);
    assert(x[2] == ((a >> 8u32) & 0xff) as u8 && y[2] == ((b >> 8u32) & 0xff) as u8);
    assert(x[3] == ((a >> 0u32) & 0xff) as u8 && y[3] == ((b >> 0u32) & 0xff) as u8);
    assert(((a >> 24u32) & 0xff) as u8 == ((b >> 24u32) & 0xff) as u8 && ((a >> 16u32)
        & 0xff) as u8 == ((b >> 16u32) & 0xff) as u8 && ((a >> 8u32) & 0xff) as u8 == ((b >> 8u32)
        & 0xff) as u8 && ((a >> 0u32) & 0xff) as u8 == ((b >> 0u32) & 0xff) as u8 ==> a == b)
        by (bit_vector);
}

/// The four bytes of a number, the most significant first.
pub fn be_bytes4_of(n: u32) -> (bytes: [u8; 4])
    ensures
        bytes@ == be_bytes4(n),
{
    let bytes: [u8; 4] = [
        ((n >> 24u32) & 0xff) as u8,
        ((n >> 16u32) & 0xff) as u8,
        ((n >> 8u32) & 0xff) as u8,
        ((n >> 0u32) & 0xff) as u8,
    ];
    assert(bytes@ =~= be_bytes4(n));
    bytes
}

/// Each field behind its length, so that different field lists have different bytes.
pub open spec fn canonical(fields: Seq<Seq<u8>>) -> Seq<u8>
    decreases fields.len(),
{
    if fields.len() == 0 {
        Seq::empty()
    } else {
        canonical(fields.drop_last()) + be_bytes(fields.last().len() as u64) + fields.last()
    }
}

/// The views of a list of byte slices.
pub open spec fn slice_views(fields: Seq<&[u8]>) -> Seq<Seq<u8>> {
    fields.map_values(|f: &[u8]| f@)
}

pub fn canonical_bytes(fields: &Vec<&[u8]>) -> (out: Vec<u8>)
    ensures
        out@ == canonical(slice_views(fields@)),
{
    let mut out: Vec<u8> = Vec::new();
    let mut i: usize = 0;
    while i < fields.len()
        invariant
            i <= fields@.len(),
            out@ == canonical(slice_views(fields@).take(i as int)),
        decreases fields.len() - i,
    {
        let field = fields[i];
        push_bytes(&mut out, be_bytes_of(field.len() as u64).as_slice());
        push_bytes(&mut out, field);
        proof {
            let all = slice_views(fields@);
            assert(all.take(i + 1).drop_last() =~= all.take(i as int));
            assert(all.take(i + 1).last() == field@);
        }
        i += 1;
    }
    assert(slice_views(fields@).take(fields@.len() as int) =~= slice_views(fields@));
    out
}

/// The first field stands first.
proof fn lemma_canonical_first(fields: Seq<Seq<u8>>)
    requires
        fields.len() > 0,
    ensures
        canonical(fields) == be_bytes(fields[0].len() as u64) + fields[0] + canonical(
            fields.drop_first(),
        ),
    decreases fields.len(),
{
    if fields.len() == 1 {
        assert(fields.drop_last() =~= Seq::<Seq<u8>>::empty());
        assert(fields.drop_first() =~= Seq::<Seq<u8>>::empty());
        assert(canonical(fields) =~= be_bytes(fields[0].len() as u64) + fields[0] + canonical(
            fields.drop_first(),
        ));
    } else {
        lemma_canonical_first(fields.drop_last());
        assert(fields.drop_last().drop_first() =~= fields.drop_first().drop_last());
        assert(canonical(fields) =~= be_bytes(fields[0].len() as u64) + fields[0] + canonical(
            fields.drop_first(),
        ));
    }
}

/// Different lists of fields have different bytes.
pub proof fn law_canonical_bytes_tell_fields_apart(a: Seq<Seq<u8>>, b: Seq<Seq<u8>>)
    requires
        forall|i: int| 0 <= i < a.len() ==> (#[trigger] a[i]).len() <= u64::MAX,
        forall|i: int| 0 <= i < b.len() ==> (#[trigger] b[i]).len() <= u64::MAX,
        canonical(a) == canonical(b),
    ensures
        a == b,
    decreases a.len(),
{
    if a.len() > 0 {
        lemma_canonical_first(a);
    }
    if b.len() > 0 {
        lemma_canonical_first(b);
    }
    if a.len() == 0 || b.len() == 0 {
        assert(canonical(a).len() == 0 <==> a.len() == 0);
        assert(canonical(b).len() == 0 <==> b.len() == 0);
        assert(a =~= b);
    } else {
        let n = a[0].len() as u64;
        let m = b[0].len() as u64;
        assert(be_bytes(n) =~= canonical(a).take(8));
        assert(be_bytes(m) =~= canonical(b).take(8));
        lemma_be_value(n);
        lemma_be_value(m);
        assert(a[0].len() == b[0].len());
        assert(a[0] =~= canonical(a).subrange(8, 8int + a[0].len()));
        assert(b[0] =~= canonical(b).subrange(8, 8int + b[0].len()));
        assert(canonical(a.drop_first()) =~= canonical(a).skip(8int + a[0].len()));
        assert(canonical(b.drop_first()) =~= canonical(b).skip(8int + b[0].len()));
        law_canonical_bytes_tell_fields_apart(a.drop_first(), b.drop_first());
        assert(a =~= seq![a[0]] + a.drop_first());
        assert(b =~= seq![b[0]] + b.drop_first());
    }
}

/// The name of an event in hashed data.
pub open spec fn event_tag(event: EpochEventType) -> Seq<u8> {
    match event {
        EpochEventType::Join => encode_utf8("join"@),
        EpochEventType::Leave => encode_utf8("leave"@),
        EpochEventType::Kick => encode_utf8("kick"@),
        EpochEventType::Rotate => encode_utf8("rotate"@),
    }
}

pub fn epoch_event_type_tag(event: &EpochEventType) -> (tag: &'static [u8])
    ensures
        tag@ == event_tag(*event),
{
    match event {
        EpochEventType::Join => "join".as_bytes(),
        EpochEventType::Leave => "leave".as_bytes(),
        EpochEventType::Kick => "kick".as_bytes(),
        EpochEventType::Rotate => "rotate".as_bytes(),
    }
}

/// The rank of a candidate for proposing an epoch change: the lowest proposes first.
pub open spec fn proposer_rank(
    group_id: Seq<char>,
    old_epoch: u64,
    event: EpochEventType,
    affected: Seq<char>,
    candidate: Seq<char>,
) -> Seq<u8> {
    sha256(
        encode_utf8(PROPOSER_SORT_LABEL@) + encode_utf8(group_id) + be_bytes(old_epoch) + event_tag(
            event,
        ) + encode_utf8(affected) + encode_utf8(candidate),
    )
}

/// The candidates by rank, and by identifier among equal ranks.
pub open spec fn ordered_proposers(
    group_id: Seq<char>,
    old_epoch: u64,
    event: EpochEventType,
    affected: Seq<char>,
    candidates: Seq<Seq<char>>,
) -> Seq<Seq<char>> {
    candidates.map_values(
        |c: Seq<char>| (proposer_rank(group_id, old_epoch, event, affected, c), c),
    ).sort_by(ranked_order()).map_values(|r: (Seq<u8>, Seq<char>)| r.1)
}

pub fn proposer_order(
    group_id: &str,
    old_epoch: u64,
    event_type: EpochEventType,
    affected_member_id: &str,
    candidates: &[MemberId],
) -> (order: Vec<MemberId>)
    ensures
        views(order@) == ordered_proposers(
            group_id@,
            old_epoch,
            event_type,
            affected_member_id@,
            views(candidates@),
        ),
{
    let ghost want = views(candidates@).map_values(
        |c: Seq<char>|
            (proposer_rank(group_id@, old_epoch, event_type, affected_member_id@, c), c),
    );
    let mut ranked: Vec<Ranked> = Vec::new();
    let mut i: usize = 0;
    while i < candidates.len()
        invariant
            i <= candidates@.len(),
            want == views(candidates@).map_values(
                |c: Seq<char>|
                    (proposer_rank(group_id@, old_epoch, event_type, affected_member_id@, c), c),
            ),
            crate::util::order::keys_of(ranked@) == want.take(i as int),
        decreases candidates.len() - i,
    {
        let mut data: Vec<u8> = Vec::new();
        push_bytes(&mut data, PROPOSER_SORT_LABEL.as_bytes());
        push_bytes(&mut data, group_id.as_bytes());
        push_bytes(&mut data, be_bytes_of(old_epoch).as_slice());
        push_bytes(&mut data, epoch_event_type_tag(&event_type));
        push_bytes(&mut data, affected_member_id.as_bytes());
        push_bytes(&mut data, candidates[i].as_str().as_bytes());
        let digest = sha256_digest(data.as_slice());
        assert(data@ =~= encode_utf8(PROPOSER_SORT_LABEL@) + encode_utf8(group_id@) + be_bytes(
            old_epoch,
        ) + event_tag(event_type) + encode_utf8(affected_member_id@) + encode_utf8(
            candidates@[i as int]@,
        ));
        let ghost before = ranked@;
        let entry = Ranked {
            rank: vstd::slice::slice_to_vec(digest.as_slice()),
            text: candidates[i].clone(),
        };
        ranked.push(entry);
        proof {
            assert(views(candidates@)[i as int] == candidates@[i as int]@);
            assert(crate::util::order::keys_of(ranked@) =~= crate::util::order::keys_of(before).push(
                want[i as int],
            ));
            assert(want.take(i as int).push(want[i as int]) =~= want.take(i + 1));
        }
        i += 1;
    }
    assert(want.take(want.len() as int) =~= want);
    let sorted = sort_by_key(ranked);
    let mut order: Vec<MemberId> = Vec::new();
    let mut k: usize = 0;
    while k < sorted.len()
        invariant
            k <= sorted@.len(),
            views(order@) == crate::util::order::keys_of(sorted@).map_values(
                |r: (Seq<u8>, Seq<char>)| r.1,
            ).take(k as int),
        decreases sorted.len() - k,
    {
        let ghost before = order@;
        order.push(sorted[k].text.clone());
        proof {
            let texts = crate::util::order::keys_of(sorted@).map_values(
                |r: (Seq<u8>, Seq<char>)| r.1,
            );
            assert(views(order@) =~= views(before).push(texts[k as int]));
            assert(texts.take(k as int).push(texts[k as int]) =~= texts.take(k + 1));
        }
        k += 1;
    }
    proof {
        let texts = crate::util::order::keys_of(sorted@).map_values(
            |r: (Seq<u8>, Seq<char>)| r.1,
        );
        assert(texts.take(texts.len() as int) =~= texts);
    }
    order
}

/// Each identifier followed by a zero byte.
pub open spec fn roster_bytes(ids: Seq<Seq<char>>) -> Seq<u8>
    decreases ids.len(),
{
    if ids.len() == 0 {
        Seq::empty()
    } else {
        roster_bytes(ids.drop_last()) + encode_utf8(ids.last()) + seq![0u8]
    }
}

/// The hash that stands for a roster, whatever the order of its members.
pub open spec fn roster_hash_text(ids: Seq<Seq<char>>) -> Seq<char> {
    hex_text(sha256(roster_bytes(sorted_texts(ids))))
}

/// The strings of a slice, copied.
pub fn copy_strings(v: &[String]) -> (out: Vec<String>)
    ensures
        views(out@) == views(v@),
        out@.len() == v@.len(),
{
    let mut out: Vec<String> = Vec::new();
    let mut i: usize = 0;
    while i < v.len()
        invariant
            i <= v@.len(),
            views(out@) == views(v@).take(i as int),
            out@.len() == i,
        decreases v.len() - i,
    {
        let ghost before = out@;
        out.push(v[i].clone());
        assert(views(out@) =~= views(before).push(v@[i as int]@));
        assert(views(v@).take(i as int).push(views(v@)[i as int]) =~= views(v@).take(i + 1));
        i += 1;
    }
    assert(views(v@).take(v@.len() as int) =~= views(v@));
    out
}

pub fn roster_hash(member_ids: &[MemberId]) -> (hash: String)
    ensures
        hash@ == roster_hash_text(views(member_ids@)),
{
    let sorted = sort_strings(copy_strings(member_ids));
    let mut data: Vec<u8> = Vec::new();
    let mut i: usize = 0;
    while i < sorted.len()
        invariant
            i <= sorted@.len(),
            data@ == roster_bytes(views(sorted@).take(i as int)),
        decreases sorted.len() - i,
    {
        push_bytes(&mut data, sorted[i].as_str().as_bytes());
        data.push(0);
        proof {
            let all = views(sorted@);
            assert(all.take(i + 1).drop_last() =~= all.take(i as int));
            assert(all.take(i + 1).last() == sorted@[i as int]@);
            assert(data@ =~= roster_bytes(all.take(i as int)) + encode_utf8(sorted@[i as int]@)
                + seq![0u8]);
        }
        i += 1;
    }
    assert(views(sorted@).take(sorted@.len() as int) =~= views(sorted@));
    hex_encode(sha256_digest(data.as_slice()).as_slice())
}

/// A roster's hash does not depend on the order in which its members are listed.
pub proof fn law_roster_hash_ignores_order(a: Seq<Seq<char>>, b: Seq<Seq<char>>)
    requires
        a.to_multiset() == b.to_multiset(),
    ensures
        roster_hash_text(a) == roster_hash_text(b),
{
    crate::util::order::lemma_str_order_total();
    let leq = crate::util::order::str_order();
    a.lemma_sort_by_ensures(leq);
    b.lemma_sort_by_ensures(leq);
    vstd::seq_lib::lemma_sorted_unique(a.sort_by(leq), b.sort_by(leq), leq);
}

/// The candidates that may propose an event's epoch change: those in both rosters.
pub open spec fn candidates_for(
    event: EpochEventType,
    old_members: Seq<Seq<char>>,
    new_members: Seq<Seq<char>>,
) -> Seq<Seq<char>> {
    match event {
        EpochEventType::Join => old_members,
        _ => new_members,
    }
}

pub fn proposer_candidates_for_event(
    event_type: EpochEventType,
    old_members: &[MemberId],
    new_members: &[MemberId],
) -> (candidates: Vec<MemberId>)
    ensures
        views(candidates@) == candidates_for(event_type, views(old_members@), views(new_members@)),
{
    match event_type {
        EpochEventType::Join => copy_strings(old_members),
        EpochEventType::Leave | EpochEventType::Kick => copy_strings(new_members),
        EpochEventType::Rotate => copy_strings(new_members),
    }
}

/// Whether a list of strings holds a text.
pub fn contains_text(v: &[String], text: &str) -> (yes: bool)
    ensures
        yes == views(v@).contains(text@),
{
    let mut i: usize = 0;
    while i < v.len()
        invariant
            i <= v@.len(),
            forall|k: int| 0 <= k < i ==> (#[trigger] v@[k])@ != text@,
        decreases v.len() - i,
    {
        if same_text(v[i].as_str(), text) {
            assert(views(v@)[i as int] == text@);
            return true;
        }
        i += 1;
    }
    proof {
        if views(v@).contains(text@) {
            let k = choose|k: int| 0 <= k < views(v@).len() && views(v@)[k] == text@;
            assert(v@[k]@ == text@);
        }
    }
    false
}

/// The recipients of a commit's wrapped secrets, in its order.
pub open spec fn recipients(wrapped: Seq<WrappedView>) -> Seq<Seq<char>> {
    wrapped.map_values(|w: WrappedView| w.recipient_id)
}

/// Why a commit is refused, or nothing when it is valid. The recipients have to be the new members,
/// each of whom occurs once; a recipient may be served more than once.
pub open spec fn commit_fault(
    local_group_id: Seq<char>,
    local_epoch: u64,
    commit: CommitView,
    old_members: Seq<Seq<char>>,
    new_members: Seq<Seq<char>>,
) -> Option<CryptoError> {
    let order = ordered_proposers(
        commit.group_id,
        commit.old_epoch,
        commit.event_type,
        commit.affected_member_id,
        candidates_for(commit.event_type, old_members, new_members),
    );
    if commit.group_id != local_group_id {
        Some(CryptoError::CommitGroup)
    } else if commit.old_epoch != local_epoch {
        Some(CryptoError::CommitOldEpoch)
    } else if commit.new_epoch != crate::crypto::chain::next_number(commit.old_epoch) {
        Some(CryptoError::CommitNewEpoch)
    } else if commit.old_roster_hash != roster_hash_text(old_members) {
        Some(CryptoError::CommitOldRoster)
    } else if commit.new_roster_hash != roster_hash_text(new_members) {
        Some(CryptoError::CommitNewRoster)
    } else if commit.proposer_attempt >= order.len() {
        Some(CryptoError::CommitAttempt)
    } else if order[commit.proposer_attempt as int] != commit.proposer_id {
        Some(CryptoError::CommitProposer)
    } else if !(new_members.no_duplicates() && recipients(commit.wrapped_secrets).to_set()
        == new_members.to_set()) {
        Some(CryptoError::CommitRecipients)
    } else {
        None
    }
}

/// Whether no text occurs twice.
fn all_different(v: &[String]) -> (yes: bool)
    ensures
        yes == views(v@).no_duplicates(),
{
    let mut i: usize = 0;
    while i < v.len()
        invariant
            i <= v@.len(),
            forall|a: int, b: int| 0 <= a < b < i ==> (#[trigger] views(v@)[a]) != (
            #[trigger] views(v@)[b]),
        decreases v.len() - i,
    {
        let head = vstd::slice::slice_subrange(v, 0, i);
        assert(views(head@) =~= views(v@).take(i as int));
        if contains_text(head, v[i].as_str()) {
            proof {
                let a = choose|a: int|
                    0 <= a < views(head@).len() && views(head@)[a] == v@[i as int]@;
                assert(views(v@)[a] == views(v@)[i as int]);
            }
            return false;
        }
        proof {
            assert forall|a: int| 0 <= a < i implies (#[trigger] views(v@)[a]) != views(
                v@,
            )[i as int] by {
                assert(views(head@)[a] == views(v@)[a]);
                assert(views(head@).contains(views(v@)[a]));
            }
        }
        i += 1;
    }
    true
}

/// Whether the recipients of the wrapped secrets are exactly the members, each listed once.
fn recipients_match(wrapped: &Vec<WrappedEpochSecret>, members: &[MemberId]) -> (yes: bool)
    ensures
        yes == (views(members@).no_duplicates() && recipients(
            wrapped@.map_values(|w: WrappedEpochSecret| w@),
        ).to_set() == views(members@).to_set()),
{
    let ghost rs = recipients(wrapped@.map_values(|w: WrappedEpochSecret| w@));
    let ghost ms = views(members@);
    if !all_different(members) {
        return false;
    }
    let mut served: Vec<String> = Vec::new();
    let mut i: usize = 0;
    while i < wrapped.len()
        invariant
            i <= wrapped@.len(),
            rs == recipients(wrapped@.map_values(|w: WrappedEpochSecret| w@)),
            ms == views(members@),
            views(served@) == rs.take(i as int),
            forall|k: int| 0 <= k < i ==> ms.contains(#[trigger] rs[k]),
        decreases wrapped.len() - i,
    {
        assert(rs[i as int] == wrapped@[i as int]@.recipient_id);
        if !contains_text(members, wrapped[i].recipient_id.as_str()) {
            assert(rs.contains(rs[i as int]));
            assert(rs.to_set().contains(rs[i as int]));
            assert(!ms.to_set().contains(rs[i as int]));
            return false;
        }
        let ghost before = served@;
        served.push(wrapped[i].recipient_id.clone());
        assert(views(served@) =~= views(before).push(rs[i as int]));
        assert(rs.take(i as int).push(rs[i as int]) =~= rs.take(i + 1));
        i += 1;
    }
    assert(rs.take(rs.len() as int) =~= rs);
    let mut j: usize = 0;
    while j < members.len()
        invariant
            j <= members@.len(),
            rs == recipients(wrapped@.map_values(|w: WrappedEpochSecret| w@)),
            ms == views(members@),
            views(served@) == rs,
            forall|k: int| 0 <= k < j ==> rs.contains(#[trigger] ms[k]),
        decreases members.len() - j,
    {
        assert(ms[j as int] == members@[j as int]@);
        if !contains_text(served.as_slice(), members[j].as_str()) {
            assert(ms.contains(ms[j as int]));
            assert(ms.to_set().contains(ms[j as int]));
            assert(!rs.to_set().contains(ms[j as int]));
            return false;
        }
        j += 1;
    }
    proof {
        assert forall|x: Seq<char>| rs.to_set().contains(x) == ms.to_set().contains(x) by {
            if rs.contains(x) {
                let k = choose|k: int| 0 <= k < rs.len() && rs[k] == x;
                assert(ms.contains(rs[k]));
            }
            if ms.contains(x) {
                let k = choose|k: int| 0 <= k < ms.len() && ms[k] == x;
                assert(rs.contains(ms[k]));
            }
        }
        assert(rs.to_set() =~= ms.to_set());
    }
    true
}

pub fn validate_epoch_commit(
    local_group_id: &str,
    local_epoch: u64,
    commit: &EpochCommit,
    old_members: &[MemberId],
    new_members: &[MemberId],
) -> (verdict: Result<(), CryptoError>)
    ensures
        match commit_fault(
            local_group_id@,
            local_epoch,
            commit@,
            views(old_members@),
            views(new_members@),
        ) {
            None => verdict == Ok::<(), CryptoError>(()),
            Some(e) => verdict == Err::<(), CryptoError>(e),
        },
{
    if !same_text(commit.group_id.as_str(), local_group_id) {
        return Err(CryptoError::CommitGroup);
    }
    if commit.old_epoch != local_epoch {
        return Err(CryptoError::CommitOldEpoch);
    }
    if commit.new_epoch != commit.old_epoch.saturating_add(1) {
        return Err(CryptoError::CommitNewEpoch);
    }
    let old_hash = roster_hash(old_members);
    if !same_text(commit.old_roster_hash.as_str(), old_hash.as_str()) {
        return Err(CryptoError::CommitOldRoster);
    }
    let new_hash = roster_hash(new_members);
    if !same_text(commit.new_roster_hash.as_str(), new_hash.as_str()) {
        return Err(CryptoError::CommitNewRoster);
    }
    let candidates = proposer_candidates_for_event(commit.event_type, old_members, new_members);
    let ordered = proposer_order(
        commit.group_id.as_str(),
        commit.old_epoch,
        commit.event_type,
        commit.affected_member_id.as_str(),
        candidates.as_slice(),
    );
    let attempt: usize = commit.proposer_attempt as usize;
    assert(views(ordered@).len() == ordered@.len());
    if attempt >= ordered.len() {
        return Err(CryptoError::CommitAttempt);
    }
    assert(views(ordered@)[attempt as int] == ordered@[attempt as int]@);
    if !same_text(ordered[attempt].as_str(), commit.proposer_id.as_str()) {
        return Err(CryptoError::CommitProposer);
    }
    if !recipients_match(&commit.wrapped_secrets, new_members) {
        return Err(CryptoError::CommitRecipients);
    }
    Ok(())
}

/// What a wrapped epoch secret is bound to.
#[derive(Debug)]
pub struct EpochCommitContext {
    pub group_id: String,
    pub old_epoch: u64,
    pub new_epoch: u64,
    pub event_type: EpochEventType,
    pub affected_member_id: MemberId,
    pub old_roster_hash: String,
    pub new_roster_hash: String,
    pub proposer_id: MemberId,
    pub proposer_attempt: u32,
}

#[verifier::ext_equal]
pub struct ContextView {
    pub group_id: Seq<char>,
    pub old_epoch: u64,
    pub new_epoch: u64,
    pub event_type: EpochEventType,
    pub affected_member_id: Seq<char>,
    pub old_roster_hash: Seq<char>,
    pub new_roster_hash: Seq<char>,
    pub proposer_id: Seq<char>,
    pub proposer_attempt: u32,
}

impl View for EpochCommitContext {
    type V = ContextView;

    open spec fn view(&self) -> ContextView {
        ContextView {
            group_id: self.group_id@,
            old_epoch: self.old_epoch,
            new_epoch: self.new_epoch,
            event_type: self.event_type,
            affected_member_id: self.affected_member_id@,
            old_roster_hash: self.old_roster_hash@,
            new_roster_hash: self.new_roster_hash@,
            proposer_id: self.proposer_id@,
            proposer_attempt: self.proposer_attempt,
        }
    }
}

/// The context of a commit: all but its wrapped secrets.
pub open spec fn context_of(commit: CommitView) -> ContextView {
    ContextView {
        group_id: commit.group_id,
        old_epoch: commit.old_epoch,
        new_epoch: commit.new_epoch,
        event_type: commit.event_type,
        affected_member_id: commit.affected_member_id,
        old_roster_hash: commit.old_roster_hash,
        new_roster_hash: commit.new_roster_hash,
        proposer_id: commit.proposer_id,
        proposer_attempt: commit.proposer_attempt,
    }
}

/// The associated data of the secret wrapped for a recipient.
pub open spec fn context_hash(context: ContextView, recipient: Seq<char>) -> Seq<u8> {
    sha256(
        encode_utf8(EPOCH_COMMIT_CONTEXT_LABEL@) + canonical(
            seq![
                encode_utf8(context.group_id),
                be_bytes(context.old_epoch),
                be_bytes(context.new_epoch),
                event_tag(context.event_type),
                encode_utf8(context.affected_member_id),
                encode_utf8(context.old_roster_hash),
                encode_utf8(context.new_roster_hash),
                encode_utf8(context.proposer_id),
                be_bytes4(context.proposer_attempt),
                encode_utf8(recipient),
            ],
        ),
    )
}

pub fn epoch_commit_context_hash(context: &EpochCommitContext, recipient_id: &str) -> (hash: [u8;
    32])
    ensures
        hash@ == context_hash(context@, recipient_id@),
{
    let old_epoch = be_bytes_of(context.old_epoch);
    let new_epoch = be_bytes_of(context.new_epoch);
    let attempt = be_bytes4_of(context.proposer_attempt);
    let mut fields: Vec<&[u8]> = Vec::new();
    fields.push(context.group_id.as_str().as_bytes());
    fields.push(old_epoch.as_slice());
    fields.push(new_epoch.as_slice());
    fields.push(epoch_event_type_tag(&context.event_type));
    fields.push(context.affected_member_id.as_str().as_bytes());
    fields.push(context.old_roster_hash.as_str().as_bytes());
    fields.push(context.new_roster_hash.as_str().as_bytes());
    fields.push(context.proposer_id.as_str().as_bytes());
    fields.push(attempt.as_slice());
    fields.push(recipient_id.as_bytes());
    let mut data: Vec<u8> = Vec::new();
    push_bytes(&mut data, EPOCH_COMMIT_CONTEXT_LABEL.as_bytes());
    push_bytes(&mut data, canonical_bytes(&fields).as_slice());
    proof {
        let want = seq![
            encode_utf8(context@.group_id),
            be_bytes(context@.old_epoch),
            be_bytes(context@.new_epoch),
            event_tag(context@.event_type),
            encode_utf8(context@.affected_member_id),
            encode_utf8(context@.old_roster_hash),
            encode_utf8(context@.new_roster_hash),
            encode_utf8(context@.proposer_id),
            be_bytes4(context@.proposer_attempt),
            encode_utf8(recipient_id@),
        ];
        assert(slice_views(fields@) =~= want);
    }
    sha256_digest(data.as_slice())
}

/// The tag that authenticates a key announcement.
pub open spec fn announce_mac(
    room_auth_key: Seq<u8>,
    group_id: Seq<char>,
    epoch: u64,
    member_id: Seq<char>,
    public: Seq<u8>,
    nonce: Seq<u8>,
) -> Seq<u8> {
    hmac_sha256(
        room_auth_key,
        encode_utf8(KEY_ANNOUNCE_MAC_LABEL@) + canonical(
            seq![encode_utf8(group_id), be_bytes(epoch), encode_utf8(member_id), public, nonce],
        ),
    )
}

pub fn compute_key_announce_mac(
    room_auth_key: &[u8; 32],
    group_id: &str,
    epoch: u64,
    member_id: &str,
    x25519_public: &[u8],
    nonce: &[u8],
) -> (mac: Vec<u8>)
    ensures
        mac@ == announce_mac(
            room_auth_key@,
            group_id@,
            epoch,
            member_id@,
            x25519_public@,
            nonce@,
        ),
{
    let epoch_bytes = be_bytes_of(epoch);
    let mut fields: Vec<&[u8]> = Vec::new();
    fields.push(group_id.as_bytes());
    fields.push(epoch_bytes.as_slice());
    fields.push(member_id.as_bytes());
    fields.push(x25519_public);
    fields.push(nonce);
    let mut data: Vec<u8> = Vec::new();
    push_bytes(&mut data, KEY_ANNOUNCE_MAC_LABEL.as_bytes());
    push_bytes(&mut data, canonical_bytes(&fields).as_slice());
    proof {
        assert(slice_views(fields@) =~= seq![
            encode_utf8(group_id@),
            be_bytes(epoch),
            encode_utf8(member_id@),
            x25519_public@,
            nonce@,
        ]);
    }
    vstd::slice::slice_to_vec(hmac_tag(room_auth_key.as_slice(), data.as_slice()).as_slice())
}

/// The key that wraps an epoch secret between two members of a room.
pub open spec fn wrap_key(shared: Seq<u8>, room_auth_key: Seq<u8>) -> Seq<u8> {
    hkdf_sha256(Some(room_auth_key), shared, encode_utf8(EPOCH_SECRET_WRAP_LABEL@), 32)
}

/// The secret wrapped for a recipient with a given nonce.
pub open spec fn wrapped_secret(
    recipient_id: Seq<char>,
    recipient_public: Seq<u8>,
    proposer_secret: Seq<u8>,
    room_auth_key: Seq<u8>,
    context: ContextView,
    plain: PlainView,
    nonce: Seq<u8>,
) -> WrappedView {
    WrappedView {
        recipient_id,
        proposer_x25519_pub: x25519_public(proposer_secret),
        nonce,
        ciphertext: chacha_sealed(
            wrap_key(x25519_shared(proposer_secret, recipient_public), room_auth_key),
            nonce,
            context_hash(context, recipient_id),
            json_bytes(plain_tree(plain)),
        ),
    }
}

/// What a member finds in a wrapped epoch secret.
pub open spec fn unwrapped_secret(
    my_member_id: Seq<char>,
    my_secret: Seq<u8>,
    room_auth_key: Seq<u8>,
    context: ContextView,
    wrapped: WrappedView,
) -> Result<PlainView, CryptoError> {
    if wrapped.recipient_id != my_member_id {
        Err(CryptoError::WrappedRecipient)
    } else if wrapped.nonce.len() != 12 {
        Err(CryptoError::WrappedNonceLength)
    } else if wrapped.proposer_x25519_pub.len() != 32 {
        Err(CryptoError::Expected32Bytes)
    } else {
        match chacha_opened(
            wrap_key(x25519_shared(my_secret, wrapped.proposer_x25519_pub), room_auth_key),
            wrapped.nonce,
            context_hash(context, my_member_id),
            wrapped.ciphertext,
        ) {
            None => Err(CryptoError::UnwrapFailed),
            Some(bytes) => match plain_read(bytes) {
                None => Err(CryptoError::InvalidPlain),
                Some(plain) => Ok(plain),
            },
        }
    }
}

/// Wraps an epoch secret for a recipient. The holder of the secret behind the recipient's public
/// key finds in it what was wrapped.
pub fn wrap_epoch_secret_with_nonce(
    recipient_id: &str,
    recipient_x25519_public: &[u8],
    proposer_x25519_secret: &[u8; 32],
    room_auth_key: &[u8; 32],
    context: &EpochCommitContext,
    plain: &EpochSecretPlain,
    nonce: &[u8; 12],
) -> (out: Result<WrappedEpochSecret, CryptoError>)
    ensures
        match out {
            Ok(w) => {
                &&& recipient_x25519_public@.len() == 32
                &&& sealable(json_bytes(plain_tree(plain@)))
                &&& w@ == wrapped_secret(
                    recipient_id@,
                    recipient_x25519_public@,
                    proposer_x25519_secret@,
                    room_auth_key@,
                    context@,
                    plain@,
                    nonce@,
                )
                &&& forall|secret: Seq<u8>|
                    secret.len() == 32 && #[trigger] x25519_public(secret)
                        == recipient_x25519_public@ ==> unwrapped_secret(
                        recipient_id@,
                        secret,
                        room_auth_key@,
                        context@,
                        w@,
                    ) == Ok::<PlainView, CryptoError>(plain@)
            },
            Err(e) => if recipient_x25519_public@.len() != 32 {
                e == CryptoError::Expected32Bytes
            } else {
                e == CryptoError::WrapFailed && !sealable(json_bytes(plain_tree(plain@)))
            },
        },
{
    let recipient_public = match bytes32_from_slice(recipient_x25519_public) {
        Ok(p) => p,
        Err(e) => {
            return Err(e);
        },
    };
    let proposer_public = x25519_public_key(proposer_x25519_secret);
    let shared = x25519_shared_secret(proposer_x25519_secret, &recipient_public);
    let key = derive32(
        Some(room_auth_key.as_slice()),
        shared.as_slice(),
        EPOCH_SECRET_WRAP_LABEL.as_bytes(),
    );
    let plain_bytes = plain_to_bytes(plain);
    let aad = epoch_commit_context_hash(context, recipient_id);
    match chacha_seal(&key, nonce, aad.as_slice(), plain_bytes.as_slice()) {
        Some(ciphertext) => Ok(
            WrappedEpochSecret {
                recipient_id: recipient_id.to_owned(),
                proposer_x25519_pub: vstd::slice::slice_to_vec(proposer_public.as_slice()),
                nonce: vstd::slice::slice_to_vec(nonce.as_slice()),
                ciphertext,
            },
        ),
        None => Err(CryptoError::WrapFailed),
    }
}

/// The context of a commit.
pub fn commit_context(commit: &EpochCommit) -> (context: EpochCommitContext)
    ensures
        context@ == context_of(commit@),
{
    EpochCommitContext {
        group_id: commit.group_id.clone(),
        old_epoch: commit.old_epoch,
        new_epoch: commit.new_epoch,
        event_type: commit.event_type,
        affected_member_id: commit.affected_member_id.clone(),
        old_roster_hash: commit.old_roster_hash.clone(),
        new_roster_hash: commit.new_roster_hash.clone(),
        proposer_id: commit.proposer_id.clone(),
        proposer_attempt: commit.proposer_attempt,
    }
}

pub fn unwrap_epoch_secret_from_commit(
    my_member_id: &str,
    my_x25519_secret: &[u8; 32],
    room_auth_key: &[u8; 32],
    commit: &EpochCommit,
    wrapped: &WrappedEpochSecret,
) -> (out: Result<EpochSecretPlain, CryptoError>)
    ensures
        match (
            out,
            unwrapped_secret(
                my_member_id@,
                my_x25519_secret@,
                room_auth_key@,
                context_of(commit@),
                wrapped@,
            ),
        ) {
            (Ok(p), Ok(v)) => p@ == v,
            (Err(e), Err(f)) => e == f,
            _ => false,
        },
{
    if !same_text(wrapped.recipient_id.as_str(), my_member_id) {
        return Err(CryptoError::WrappedRecipient);
    }
    let nonce = match bytes12_from_slice(wrapped.nonce.as_slice()) {
        Some(n) => n,
        None => {
            return Err(CryptoError::WrappedNonceLength);
        },
    };
    let proposer_public = match bytes32_from_slice(wrapped.proposer_x25519_pub.as_slice()) {
        Ok(p) => p,
        Err(e) => {
            return Err(e);
        },
    };
    let shared = x25519_shared_secret(my_x25519_secret, &proposer_public);
    let key = derive32(
        Some(room_auth_key.as_slice()),
        shared.as_slice(),
        EPOCH_SECRET_WRAP_LABEL.as_bytes(),
    );
    let context = commit_context(commit);
    let aad = epoch_commit_context_hash(&context, my_member_id);
    match chacha_open(&key, &nonce, aad.as_slice(), wrapped.ciphertext.as_slice()) {
        Some(bytes) => match plain_from_bytes(bytes.as_slice()) {
            Some(plain) => Ok(plain),
            None => Err(CryptoError::InvalidPlain),
        },
        None => Err(CryptoError::UnwrapFailed),
    }
}

} // verus!
