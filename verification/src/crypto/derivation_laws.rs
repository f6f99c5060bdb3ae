//! What keys, tags and hashes are made of: every part that they have to depend on can be told from
//! the bytes that go into them.
use crate::crypto::chain::{
    be_bytes, message_key, message_nonce, next_chain_key, sender_chain_key, sender_chain_root,
};
use crate::crypto::epoch::{
    announce_mac, be_bytes4, canonical, context_hash, event_tag,
    law_canonical_bytes_tell_fields_apart, lemma_be_bytes4_injective, proposer_rank, roster_bytes,
    roster_hash_text, wrap_key, ContextView,
};
use crate::crypto::handshake::{handshake_proof, invite_token_id, transport_key};
use crate::crypto::messages::EpochEventType;
use crate::crypto::room::{
    join_credential_of, room_auth_key_of, room_key_of, room_line_bytes, room_line_key,
    room_line_text,
};
use crate::crypto::safety::lemma_text_bytes_injective;
use crate::crypto::transport::{lemma_be_value, new_transport, opened_bytes, TransportSide};
use crate::outside::digest::{hkdf_sha256, hmac_sha256, md5, sha256};
use crate::outside::encoding::{base64_bytes, hex_text};
use crate::util::order::{lemma_str_order_total, sorted_texts, str_order};
use vstd::prelude::*;
use vstd::utf8::encode_utf8;

verus! {

/// Texts with different first or last characters at some place have different bytes.
proof fn lemma_labels_differ(a: Seq<char>, b: Seq<char>)
    requires
        a != b,
    ensures
        encode_utf8(a) != encode_utf8(b),
{
    if encode_utf8(a) == encode_utf8(b) {
        lemma_text_bytes_injective(a, b);
    }
}

/// The next key of a chain, the key of a message and its nonce come from one chain key under three
/// different labels.
pub proof fn law_chain_keys_have_labels_of_their_own(key: Seq<u8>)
    ensures
        exists|next: Seq<u8>, aead: Seq<u8>, nonce: Seq<u8>|
            {
                &&& next != aead
                &&& next != nonce
                &&& aead != nonce
                &&& next_chain_key(key) == #[trigger] hkdf_sha256(None, key, next, 32)
                &&& message_key(key) == #[trigger] hkdf_sha256(None, key, aead, 32)
                &&& message_nonce(key) == #[trigger] hkdf_sha256(None, key, nonce, 12)
            },
{
    reveal_strlit("rust-chat chain-next v1");
    reveal_strlit("rust-chat chain-aead-key v1");
    reveal_strlit("rust-chat chain-nonce v1");
    let a = "rust-chat chain-next v1"@;
    let b = "rust-chat chain-aead-key v1"@;
    let c = "rust-chat chain-nonce v1"@;
    assert(a[16] == 'n' && b[16] == 'a' && c[17] == 'o' && a[17] == 'e');
    assert(c[16] == 'n');
    lemma_labels_differ(a, b);
    lemma_labels_differ(a, c);
    lemma_labels_differ(b, c);
    let (next, aead, nonce) = (encode_utf8(a), encode_utf8(b), encode_utf8(c));
    assert(next_chain_key(key) == hkdf_sha256(None, key, next, 32));
    assert(message_key(key) == hkdf_sha256(None, key, aead, 32));
    assert(message_nonce(key) == hkdf_sha256(None, key, nonce, 12));
}

/// What the root of an epoch's chains is made of beside the secret.
pub open spec fn root_info(group_id: Seq<char>, epoch: u64) -> Seq<u8> {
    encode_utf8("rust-chat sender-chain-root v1"@) + encode_utf8(group_id) + be_bytes(epoch)
}

/// The root of an epoch's chains depends on the secret, on the group and on the epoch: different
/// groups or epochs have different roots under one secret as far as the derivation tells its inputs
/// apart.
pub proof fn law_chain_roots_are_of_one_epoch(
    secret: Seq<u8>,
    a: Seq<char>,
    m: u64,
    b: Seq<char>,
    n: u64,
)
    ensures
        sender_chain_root(secret, a, m) == hkdf_sha256(None, secret, root_info(a, m), 32),
        root_info(a, m) == root_info(b, n) <==> a == b && m == n,
{
    if root_info(a, m) == root_info(b, n) {
        let x = root_info(a, m);
        let y = root_info(b, n);
        let h = encode_utf8("rust-chat sender-chain-root v1"@).len() as int;
        assert(x.skip(x.len() - 8) =~= be_bytes(m));
        assert(y.skip(y.len() - 8) =~= be_bytes(n));
        lemma_be_value(m);
        lemma_be_value(n);
        assert(x.subrange(h, x.len() - 8) =~= encode_utf8(a));
        assert(y.subrange(h, y.len() - 8) =~= encode_utf8(b));
        lemma_text_bytes_injective(a, b);
    }
}

/// What a sender's chain is made of beside the root.
pub open spec fn sender_info(sender_id: Seq<char>) -> Seq<u8> {
    encode_utf8("rust-chat sender-chain v1"@) + encode_utf8(sender_id)
}

/// Every member of an epoch has a chain of its own.
pub proof fn law_every_sender_has_a_chain(root: Seq<u8>, a: Seq<char>, b: Seq<char>)
    ensures
        sender_chain_key(root, a) == hkdf_sha256(None, root, sender_info(a), 32),
        sender_info(a) == sender_info(b) <==> a == b,
{
    if sender_info(a) == sender_info(b) {
        let h = encode_utf8("rust-chat sender-chain v1"@).len() as int;
        assert(sender_info(a).skip(h) =~= encode_utf8(a));
        assert(sender_info(b).skip(h) =~= encode_utf8(b));
        lemma_text_bytes_injective(a, b);
    }
}

/// What the tag of an announcement is made over.
pub open spec fn announce_bytes(
    group_id: Seq<char>,
    epoch: u64,
    member_id: Seq<char>,
    public: Seq<u8>,
    nonce: Seq<u8>,
) -> Seq<u8> {
    encode_utf8("rust-chat key-announce-mac v1"@) + canonical(
        seq![encode_utf8(group_id), be_bytes(epoch), encode_utf8(member_id), public, nonce],
    )
}

/// The tag of an announcement is made under the room's key over all that it says: announcements
/// that differ in the group, the epoch, the member, the key or the nonce have different bytes.
pub proof fn law_announcement_tag_covers_everything(
    key: Seq<u8>,
    group: Seq<char>,
    epoch: u64,
    member: Seq<char>,
    public: Seq<u8>,
    nonce: Seq<u8>,
    group2: Seq<char>,
    epoch2: u64,
    member2: Seq<char>,
    public2: Seq<u8>,
    nonce2: Seq<u8>,
)
    requires
        encode_utf8(group).len() <= u64::MAX,
        encode_utf8(group2).len() <= u64::MAX,
        encode_utf8(member).len() <= u64::MAX,
        encode_utf8(member2).len() <= u64::MAX,
        public.len() <= u64::MAX,
        public2.len() <= u64::MAX,
        nonce.len() <= u64::MAX,
        nonce2.len() <= u64::MAX,
    ensures
        announce_mac(key, group, epoch, member, public, nonce) == hmac_sha256(
            key,
            announce_bytes(group, epoch, member, public, nonce),
        ),
        announce_bytes(group, epoch, member, public, nonce) == announce_bytes(
            group2,
            epoch2,
            member2,
            public2,
            nonce2,
        ) <==> group == group2 && epoch == epoch2 && member == member2 && public == public2
            && nonce == nonce2,
{
    let x = announce_bytes(group, epoch, member, public, nonce);
    let y = announce_bytes(group2, epoch2, member2, public2, nonce2);
    if x == y {
        let h = encode_utf8("rust-chat key-announce-mac v1"@).len() as int;
        let a = seq![encode_utf8(group), be_bytes(epoch), encode_utf8(member), public, nonce];
        let b = seq![encode_utf8(group2), be_bytes(epoch2), encode_utf8(member2), public2, nonce2];
        assert(x.skip(h) =~= canonical(a));
        assert(y.skip(h) =~= canonical(b));
        law_canonical_bytes_tell_fields_apart(a, b);
        assert(a[0] == b[0] && a[1] == b[1] && a[2] == b[2] && a[3] == b[3] && a[4] == b[4]);
        lemma_text_bytes_injective(group, group2);
        lemma_text_bytes_injective(member, member2);
        lemma_be_value(epoch);
        lemma_be_value(epoch2);
    }
}

/// Different events have different names.
pub proof fn law_events_are_told_apart(a: EpochEventType, b: EpochEventType)
    ensures
        event_tag(a) == event_tag(b) <==> a == b,
{
    reveal_strlit("join");
    reveal_strlit("leave");
    reveal_strlit("kick");
    reveal_strlit("rotate");
    let (j, l, k, r) = ("join"@, "leave"@, "kick"@, "rotate"@);
    assert(j[0] == 'j' && l[0] == 'l' && k[0] == 'k' && r[0] == 'r');
    lemma_labels_differ(j, l);
    lemma_labels_differ(j, k);
    lemma_labels_differ(j, r);
    lemma_labels_differ(l, k);
    lemma_labels_differ(l, r);
    lemma_labels_differ(k, r);
}

/// The fields that a wrapped secret is bound to.
pub open spec fn context_fields(c: ContextView, recipient: Seq<char>) -> Seq<Seq<u8>> {
    seq![
        encode_utf8(c.group_id),
        be_bytes(c.old_epoch),
        be_bytes(c.new_epoch),
        event_tag(c.event_type),
        encode_utf8(c.affected_member_id),
        encode_utf8(c.old_roster_hash),
        encode_utf8(c.new_roster_hash),
        encode_utf8(c.proposer_id),
        be_bytes4(c.proposer_attempt),
        encode_utf8(recipient),
    ]
}

/// A wrapped secret is bound to its recipient and to everything that its commit says: the group, the
/// epochs, the event and whom it is about, the rosters, and who proposes it and on which turn.
#[verifier::spinoff_prover]
pub proof fn law_wrapped_secret_is_bound_to_its_commit(
    a: ContextView,
    to_a: Seq<char>,
    b: ContextView,
    to_b: Seq<char>,
)
    requires
        forall|i: int| 0 <= i < 10 ==> (#[trigger] context_fields(a, to_a)[i]).len() <= u64::MAX,
        forall|i: int| 0 <= i < 10 ==> (#[trigger] context_fields(b, to_b)[i]).len() <= u64::MAX,
    ensures
        context_hash(a, to_a) == sha256(
            encode_utf8("rust-chat epoch-commit-context v1"@) + canonical(context_fields(a, to_a)),
        ),
        canonical(context_fields(a, to_a)) == canonical(context_fields(b, to_b)) <==> a == b && to_a
            == to_b,
{
    let x = context_fields(a, to_a);
    let y = context_fields(b, to_b);
    if canonical(x) == canonical(y) {
        law_canonical_bytes_tell_fields_apart(x, y);
        assert(x[0] == y[0] && x[1] == y[1] && x[2] == y[2] && x[3] == y[3] && x[4] == y[4]);
        assert(x[5] == y[5] && x[6] == y[6] && x[7] == y[7] && x[8] == y[8] && x[9] == y[9]);
        lemma_text_bytes_injective(a.group_id, b.group_id);
        lemma_be_value(a.old_epoch);
        lemma_be_value(b.old_epoch);
        lemma_be_value(a.new_epoch);
        lemma_be_value(b.new_epoch);
        law_events_are_told_apart(a.event_type, b.event_type);
        lemma_text_bytes_injective(a.affected_member_id, b.affected_member_id);
        lemma_text_bytes_injective(a.old_roster_hash, b.old_roster_hash);
        lemma_text_bytes_injective(a.new_roster_hash, b.new_roster_hash);
        lemma_text_bytes_injective(a.proposer_id, b.proposer_id);
        lemma_be_bytes4_injective(a.proposer_attempt, b.proposer_attempt);
        lemma_text_bytes_injective(to_a, to_b);
    }
}

/// The bytes of a roster begin with those of its first member.
proof fn lemma_roster_first(ids: Seq<Seq<char>>)
    requires
        ids.len() > 0,
    ensures
        roster_bytes(ids) == encode_utf8(ids[0]) + seq![0u8] + roster_bytes(ids.drop_first()),
    decreases ids.len(),
{
    if ids.len() == 1 {
        assert(ids.drop_last() =~= Seq::<Seq<char>>::empty());
        assert(ids.drop_first() =~= Seq::<Seq<char>>::empty());
        assert(roster_bytes(ids) =~= encode_utf8(ids[0]) + seq![0u8] + roster_bytes(
            ids.drop_first(),
        ));
    } else {
        lemma_roster_first(ids.drop_last());
        assert(ids.drop_last().drop_first() =~= ids.drop_first().drop_last());
        assert(roster_bytes(ids) =~= encode_utf8(ids[0]) + seq![0u8] + roster_bytes(
            ids.drop_first(),
        ));
    }
}

/// Different rosters have different bytes, as long as no identifier holds a zero byte.
pub proof fn law_roster_bytes_tell_rosters_apart(a: Seq<Seq<char>>, b: Seq<Seq<char>>)
    requires
        forall|i: int| 0 <= i < a.len() ==> !encode_utf8(#[trigger] a[i]).contains(0u8),
        forall|i: int| 0 <= i < b.len() ==> !encode_utf8(#[trigger] b[i]).contains(0u8),
        roster_bytes(a) == roster_bytes(b),
    ensures
        a == b,
    decreases a.len(),
{
    if a.len() > 0 {
        lemma_roster_first(a);
    }
    if b.len() > 0 {
        lemma_roster_first(b);
    }
    if a.len() == 0 || b.len() == 0 {
        assert(a =~= b);
    } else {
        let x = encode_utf8(a[0]);
        let y = encode_utf8(b[0]);
        let all = roster_bytes(a);
        if x.len() < y.len() {
            assert(all[x.len() as int] == 0u8);
            assert(y[x.len() as int] == 0u8);
            assert(y.contains(0u8));
        }
        if y.len() < x.len() {
            assert(all[y.len() as int] == 0u8);
            assert(x[y.len() as int] == 0u8);
            assert(x.contains(0u8));
        }
        assert(x =~= all.take(x.len() as int));
        assert(y =~= all.take(y.len() as int));
        lemma_text_bytes_injective(a[0], b[0]);
        assert(roster_bytes(a.drop_first()) =~= all.skip(x.len() as int + 1));
        assert(roster_bytes(b.drop_first()) =~= all.skip(y.len() as int + 1));
        law_roster_bytes_tell_rosters_apart(a.drop_first(), b.drop_first());
        assert(a =~= seq![a[0]] + a.drop_first());
        assert(b =~= seq![b[0]] + b.drop_first());
    }
}

/// The text that stands for a roster is a hash of bytes that are the same for two rosters exactly
/// when these have the same members, in whatever order, as long as no identifier holds a zero byte.
pub proof fn law_roster_hash_covers_the_members(a: Seq<Seq<char>>, b: Seq<Seq<char>>)
    requires
        forall|i: int| 0 <= i < a.len() ==> !encode_utf8(#[trigger] a[i]).contains(0u8),
        forall|i: int| 0 <= i < b.len() ==> !encode_utf8(#[trigger] b[i]).contains(0u8),
    ensures
        exists|x: Seq<u8>, y: Seq<u8>|
            {
                &&& roster_hash_text(a) == hex_text(#[trigger] sha256(x))
                &&& roster_hash_text(b) == hex_text(#[trigger] sha256(y))
                &&& x == y <==> a.to_multiset() == b.to_multiset()
            },
{
    let x = roster_bytes(sorted_texts(a));
    let y = roster_bytes(sorted_texts(b));
    assert(roster_hash_text(a) == hex_text(sha256(x)));
    assert(roster_hash_text(b) == hex_text(sha256(y)));
    lemma_sorted_members(a);
    lemma_sorted_members(b);
    if x == y {
        law_roster_bytes_tell_rosters_apart(sorted_texts(a), sorted_texts(b));
    }
    if a.to_multiset() == b.to_multiset() {
        vstd::seq_lib::lemma_sorted_unique(sorted_texts(a), sorted_texts(b), str_order());
    }
}

/// Sorting keeps the members.
proof fn lemma_sorted_members(ids: Seq<Seq<char>>)
    requires
        forall|i: int| 0 <= i < ids.len() ==> !encode_utf8(#[trigger] ids[i]).contains(0u8),
    ensures
        sorted_texts(ids).to_multiset() == ids.to_multiset(),
        vstd::relations::sorted_by(sorted_texts(ids), str_order()),
        vstd::relations::total_ordering(str_order()),
        forall|i: int|
            0 <= i < sorted_texts(ids).len() ==> !encode_utf8(
                #[trigger] sorted_texts(ids)[i],
            ).contains(0u8),
{
    broadcast use {vstd::multiset::group_multiset_axioms, vstd::seq_lib::to_multiset_contains};

    lemma_str_order_total();
    ids.lemma_sort_by_ensures(str_order());
    let sorted = sorted_texts(ids);
    assert forall|i: int| 0 <= i < sorted.len() implies !encode_utf8(#[trigger] sorted[i]).contains(
        0u8,
    ) by {
        assert(sorted.contains(sorted[i]));
        assert(sorted.to_multiset().count(sorted[i]) > 0);
        assert(ids.contains(sorted[i]));
    }
}

/// A proof is made under the secret over a label and all the public parts: other labels or parts
/// make other bytes.
pub proof fn law_proof_covers_its_parts(
    secret: Seq<u8>,
    label: Seq<char>,
    parts: Seq<u8>,
    other: Seq<u8>,
)
    ensures
        exists|bytes: Seq<u8>, others: Seq<u8>|
            {
                &&& handshake_proof(secret, label, parts) == #[trigger] hmac_sha256(secret, bytes)
                &&& handshake_proof(secret, label, other) == #[trigger] hmac_sha256(secret, others)
                &&& encode_utf8(label).is_prefix_of(bytes)
                &&& bytes == others <==> parts == other
            },
{
    let l = encode_utf8(label);
    let bytes = l + parts;
    let others = l + other;
    assert(handshake_proof(secret, label, parts) == hmac_sha256(secret, bytes));
    assert(handshake_proof(secret, label, other) == hmac_sha256(secret, others));
    assert(l =~= bytes.subrange(0, l.len() as int));
    assert(bytes.skip(l.len() as int) =~= parts);
    assert(others.skip(l.len() as int) =~= other);
}

/// The key of a connection comes from the secret under the label, with all the public parts as salt:
/// other parts make another salt.
pub proof fn law_transport_key_covers_its_parts(
    secret: Seq<u8>,
    label: Seq<char>,
    parts: Seq<u8>,
    other: Seq<u8>,
)
    ensures
        exists|salt: Seq<u8>, others: Seq<u8>|
            {
                &&& transport_key(secret, label, parts) == #[trigger] hkdf_sha256(
                    Some(salt),
                    secret,
                    encode_utf8(label),
                    32,
                )
                &&& transport_key(secret, label, other) == #[trigger] hkdf_sha256(
                    Some(others),
                    secret,
                    encode_utf8(label),
                    32,
                )
                &&& salt == others <==> parts == other
            },
{
    let info = encode_utf8(label);
    assert(transport_key(secret, label, parts) == hkdf_sha256(Some(parts), secret, info, 32));
    assert(transport_key(secret, label, other) == hkdf_sha256(Some(other), secret, info, 32));
}

/// Different tokens have different names, as far as the hash tells its inputs apart.
pub proof fn law_token_name_covers_the_token(a: Seq<u8>, b: Seq<u8>)
    ensures
        exists|x: Seq<u8>, y: Seq<u8>|
            {
                &&& invite_token_id(a) == #[trigger] sha256(x)
                &&& invite_token_id(b) == #[trigger] sha256(y)
                &&& x == y <==> a == b
                &&& x != a
            },
{
    let l = encode_utf8("rust-chat token id v1"@);
    let x = l + a;
    let y = l + b;
    assert(invite_token_id(a) == sha256(x));
    assert(invite_token_id(b) == sha256(y));
    assert(x.skip(l.len() as int) =~= a);
    assert(y.skip(l.len() as int) =~= b);
    reveal_strlit("rust-chat token id v1");
    reveal_strlit("");
    if l.len() == 0 {
        assert(l =~= encode_utf8(""@)) by {
            vstd::utf8::encode_utf8_decode_utf8("rust-chat token id v1"@);
            vstd::utf8::encode_utf8_decode_utf8(""@);
        }
        lemma_text_bytes_injective("rust-chat token id v1"@, ""@);
    }
    assert(x.len() > a.len());
}

/// The key of a room is a digest of its name followed by its credential, twice: nothing else enters
/// it, and what the server is shown of it, what authenticates the members and what encrypts lines
/// are derived apart.
pub proof fn law_room_keys_are_apart(
    room: Seq<char>,
    credential: Seq<char>,
    room2: Seq<char>,
    credential2: Seq<char>,
    salt: Seq<u8>,
)
    ensures
        room_key_of(room, credential).take(md5(encode_utf8(room + credential)).len() as int) == md5(
            encode_utf8(room + credential),
        ),
        room_key_of(room, credential).skip(md5(encode_utf8(room + credential)).len() as int) == md5(
            encode_utf8(room + credential),
        ),
        room + credential == room2 + credential2 ==> room_key_of(room, credential) == room_key_of(
            room2,
            credential2,
        ),
        ({
            let key = room_key_of(room, credential);
            &&& room_auth_key_of(key) == hkdf_sha256(
                Some(encode_utf8("rust-chat room-auth-key v1"@)),
                key,
                encode_utf8("room-auth"@),
                32,
            )
            &&& room_line_key(key, salt) == hkdf_sha256(
                Some(salt),
                key,
                encode_utf8("room-enc"@),
                32,
            )
            &&& encode_utf8("room-auth"@) != encode_utf8("room-enc"@)
            &&& join_credential_of(key) == hex_text(
                hmac_sha256(key.take(16), encode_utf8("rust-chat room-join-credential v1"@)),
            )
        }),
{
    let d = md5(encode_utf8(room + credential));
    assert((d + d).take(d.len() as int) =~= d);
    assert((d + d).skip(d.len() as int) =~= d);
    reveal_strlit("room-auth");
    reveal_strlit("room-enc");
    assert("room-auth"@[5] == 'a' && "room-enc"@[5] == 'e');
    lemma_labels_differ("room-auth"@, "room-enc"@);
}

/// The two directions of a connection have keys of their own: one secret under two labels.
pub proof fn law_directions_have_their_own_keys(secret: Seq<u8>, side: TransportSide)
    ensures
        exists|send: Seq<u8>, recv: Seq<u8>|
            {
                &&& send != recv
                &&& new_transport(secret, side).send_key == #[trigger] hkdf_sha256(
                    None,
                    secret,
                    send,
                    32,
                )
                &&& new_transport(secret, side).recv_key == #[trigger] hkdf_sha256(
                    None,
                    secret,
                    recv,
                    32,
                )
            },
        new_transport(secret, side).send_seq == 0,
        new_transport(secret, side).next_recv_seq == 0,
{
    reveal_strlit("rust-chat transport c2s key v1");
    reveal_strlit("rust-chat transport s2c key v1");
    let up = "rust-chat transport c2s key v1"@;
    let down = "rust-chat transport s2c key v1"@;
    assert(up[20] == 'c' && down[20] == 's');
    lemma_labels_differ(up, down);
    let (send, recv) = match side {
        TransportSide::Client => (encode_utf8(up), encode_utf8(down)),
        TransportSide::Server => (encode_utf8(down), encode_utf8(up)),
    };
    assert(new_transport(secret, side).send_key == hkdf_sha256(None, secret, send, 32));
    assert(new_transport(secret, side).recv_key == hkdf_sha256(None, secret, recv, 32));
}

/// The key that wraps a secret comes from what two members share, with the room's key as salt.
pub proof fn law_wrap_key_needs_the_room(shared: Seq<u8>, room_auth_key: Seq<u8>)
    ensures
        exists|info: Seq<u8>|
            wrap_key(shared, room_auth_key) == #[trigger] hkdf_sha256(
                Some(room_auth_key),
                shared,
                info,
                32,
            ),
{
    assert(wrap_key(shared, room_auth_key) == hkdf_sha256(
        Some(room_auth_key),
        shared,
        encode_utf8("rust-chat epoch-secret-wrap v1"@),
        32,
    ));
}

/// The rank of a candidate hashes the group, the epoch, the event, whom it is about and, at the end,
/// the candidate: in one change different candidates have different bytes.
pub proof fn law_rank_covers_the_candidate(
    group: Seq<char>,
    epoch: u64,
    event: EpochEventType,
    affected: Seq<char>,
    a: Seq<char>,
    b: Seq<char>,
)
    ensures
        exists|x: Seq<u8>, y: Seq<u8>|
            {
                &&& proposer_rank(group, epoch, event, affected, a) == #[trigger] sha256(x)
                &&& proposer_rank(group, epoch, event, affected, b) == #[trigger] sha256(y)
                &&& x == y <==> a == b
            },
{
    let head = encode_utf8("rust-chat proposer v1"@) + encode_utf8(group) + be_bytes(epoch)
        + event_tag(event) + encode_utf8(affected);
    let x = head + encode_utf8(a);
    let y = head + encode_utf8(b);
    assert(proposer_rank(group, epoch, event, affected, a) == sha256(x));
    assert(proposer_rank(group, epoch, event, affected, b) == sha256(y));
    if x == y {
        assert(x.skip(head.len() as int) =~= encode_utf8(a));
        assert(y.skip(head.len() as int) =~= encode_utf8(b));
        lemma_text_bytes_injective(a, b);
    }
}

/// What is too short to hold a salt, a nonce and a tag is no line of a room, and what is too short to
/// hold a number and a tag is no line of a connection.
pub proof fn law_short_lines_do_not_open(key: Seq<u8>, text: Seq<char>)
    ensures
        base64_bytes(text) is None ==> room_line_bytes(key, text) is None && opened_bytes(
            key,
            text,
        ) is None,
        base64_bytes(text) is Some && base64_bytes(text)->0.len() < 44 ==> room_line_bytes(
            key,
            text,
        ) is None,
        base64_bytes(text) is Some && base64_bytes(text)->0.len() < 24 ==> opened_bytes(
            key,
            text,
        ) is None,
{
}

/// A text without the mark of the room's lines is none of them.
pub proof fn law_room_lines_are_marked(key: Seq<u8>, line: Seq<char>)
    ensures
        room_line_text(key, line) is Some ==> crate::crypto::room::ROOM_LINE_PREFIX@.is_prefix_of(
            line,
        ),
{
}

} // verus!
