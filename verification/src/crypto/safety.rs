//! The code that members compare to make sure that they see the same room.
use crate::crypto::chain::{be_bytes, be_bytes_of, push_bytes};
use crate::crypto::epoch::{be_bytes4, be_bytes4_of, lemma_be_bytes4_injective};
use crate::crypto::transport::lemma_be_value;
use crate::outside::digest::{sha256, sha256_digest};
use crate::outside::text::push_char;
use crate::protocol::member::{identity_views, IdentityView, MemberIdentity};
use crate::util::codec::{join_strings, join_texts};
use crate::util::order::{
    byte_values, bytes_at_most, bytes_leq, keys_of, lemma_byte_values_injective,
    lemma_lex_antisymmetric, lemma_lex_reflexive, lemma_lex_total, lemma_lex_transitive,
    lemma_map_multiset, lemma_unmap_multiset, sort_by_key, Ordered,
};
use crate::util::text::{digit_char, opt_bytes, opt_text, views};
use vstd::prelude::*;
use vstd::relations::total_ordering;
use vstd::utf8::encode_utf8;

verus! {

pub const SAFETY_PROTOCOL_V0: &'static str = "rust-chat-safety-v0";

/// A member as it enters the code.
#[derive(Debug, PartialEq, Eq)]
pub struct SafetyMember {
    pub member_id: String,
    pub nickname: Option<String>,
    pub identity_pubkey: Option<Vec<u8>>,
    pub x25519_pubkey: Option<Vec<u8>>,
}

/// What a member holds.
#[verifier::ext_equal]
pub struct SafetyMemberView {
    pub member_id: Seq<char>,
    pub nickname: Option<Seq<char>>,
    pub identity_pubkey: Option<Seq<u8>>,
    pub x25519_pubkey: Option<Seq<u8>>,
}

impl View for SafetyMember {
    type V = SafetyMemberView;

    open spec fn view(&self) -> SafetyMemberView {
        SafetyMemberView {
            member_id: self.member_id@,
            nickname: opt_text(self.nickname),
            identity_pubkey: opt_bytes(self.identity_pubkey),
            x25519_pubkey: opt_bytes(self.x25519_pubkey),
        }
    }
}

/// What the code is computed from.
#[derive(Debug, PartialEq, Eq)]
pub struct SafetyTranscript {
    pub protocol_version: String,
    pub room_id: String,
    pub group_epoch: u64,
    pub members: Vec<SafetyMember>,
    pub transcript_hash: Option<Vec<u8>>,
}

/// The code of a room.
#[derive(Debug, Clone, Copy, PartialEq, Eq)]
pub struct SafetyCode {
    pub hash: [u8; 32],
}

/// A transcript and its code.
#[derive(Debug, PartialEq, Eq)]
pub struct RoomSafetyState {
    pub transcript: SafetyTranscript,
    pub code: SafetyCode,
}

/// A named field: the name and the value, each behind its length.
pub open spec fn field(label: Seq<char>, value: Seq<u8>) -> Seq<u8> {
    let name = encode_utf8(label);
    be_bytes4(name.len() as u32) + name + be_bytes4(value.len() as u32) + value
}

/// A named field that may be absent.
pub open spec fn optional_field(label: Seq<char>, value: Option<Seq<u8>>) -> Seq<u8> {
    field("label"@, encode_utf8(label)) + match value {
        Some(v) => seq![1u8] + field("value"@, v),
        None => seq![0u8],
    }
}

/// The bytes of an optional text.
pub open spec fn opt_text_bytes(v: Option<Seq<char>>) -> Option<Seq<u8>> {
    match v {
        Some(s) => Some(encode_utf8(s)),
        None => None,
    }
}

/// The bytes that stand for a member.
pub open spec fn member_bytes(m: SafetyMemberView) -> Seq<u8> {
    field("member_id"@, encode_utf8(m.member_id)) + optional_field(
        "nickname"@,
        opt_text_bytes(m.nickname),
    ) + optional_field("identity_pubkey"@, m.identity_pubkey) + optional_field(
        "x25519_pubkey"@,
        m.x25519_pubkey,
    )
}

/// A member with an identifier and a nickname and nothing else.
pub open spec fn plain_member(m: IdentityView) -> SafetyMemberView {
    SafetyMemberView {
        member_id: m.member_id,
        nickname: Some(m.nickname),
        identity_pubkey: None,
        x25519_pubkey: None,
    }
}

/// What a list of members holds.
pub open spec fn member_views(members: Seq<SafetyMember>) -> Seq<SafetyMemberView> {
    members.map_values(|m: SafetyMember| m@)
}

/// The members of a list of identities.
pub open spec fn plain_members(members: Seq<MemberIdentity>) -> Seq<SafetyMemberView> {
    members.map_values(|m: MemberIdentity| plain_member(m@))
}

/// The bytes of each member of a list.
pub open spec fn bytes_of_members(members: Seq<SafetyMemberView>) -> Seq<Seq<u8>> {
    members.map_values(|m: SafetyMemberView| member_bytes(m))
}

/// Members' bytes, each as a field.
pub open spec fn member_fields(members: Seq<Seq<u8>>) -> Seq<u8>
    decreases members.len(),
{
    if members.len() == 0 {
        Seq::empty()
    } else {
        member_fields(members.drop_last()) + field("member"@, members.last())
    }
}

pub open spec fn bytes_order() -> spec_fn(Seq<u8>, Seq<u8>) -> bool {
    |a: Seq<u8>, b: Seq<u8>| bytes_leq(a, b)
}

/// The bytes that the code is the hash of. The members enter in the order of their bytes.
pub open spec fn transcript_bytes(
    protocol_version: Seq<char>,
    room_id: Seq<char>,
    group_epoch: u64,
    members: Seq<Seq<u8>>,
    transcript_hash: Option<Seq<u8>>,
) -> Seq<u8> {
    field("protocol_version"@, encode_utf8(protocol_version)) + field(
        "room_id"@,
        encode_utf8(room_id),
    ) + field("group_epoch"@, be_bytes(group_epoch)) + field(
        "member_count"@,
        be_bytes4(members.len() as u32),
    ) + member_fields(members.sort_by(bytes_order())) + optional_field(
        "transcript_hash"@,
        transcript_hash,
    )
}

impl SafetyTranscript {
    /// The bytes of the members, in the transcript's order.
    pub open spec fn member_list(&self) -> Seq<Seq<u8>> {
        bytes_of_members(member_views(self.members@))
    }

    /// The bytes of the transcript.
    pub open spec fn bytes(&self) -> Seq<u8> {
        transcript_bytes(
            self.protocol_version@,
            self.room_id@,
            self.group_epoch,
            self.member_list(),
            opt_bytes(self.transcript_hash),
        )
    }

    /// Whether every length that the bytes of the transcript hold fits into its four bytes.
    pub open spec fn fits(&self) -> bool {
        &&& encode_utf8(self.protocol_version@).len() <= u32::MAX
        &&& encode_utf8(self.room_id@).len() <= u32::MAX
        &&& self.members@.len() <= u32::MAX
        &&& forall|i: int|
            0 <= i < self.members@.len() ==> (#[trigger] member_bytes(self.members@[i]@)).len()
                <= u32::MAX
        &&& self.transcript_hash is Some ==> self.transcript_hash->0@.len() <= u32::MAX
    }

    /// The transcript of a room without an epoch. It holds each of the members once, in the order
    /// of their bytes.
    pub fn room_v0(room_id: &str, members: &[MemberIdentity]) -> (t: Self)
        ensures
            t.protocol_version@ == SAFETY_PROTOCOL_V0@,
            t.room_id@ == room_id@,
            t.group_epoch == 0,
            t.transcript_hash is None,
            member_views(t.members@).to_multiset() == plain_members(members@).to_multiset(),
            t.member_list() == bytes_of_members(plain_members(members@)).sort_by(bytes_order()),
    {
        let mut list: Vec<SafetyMember> = Vec::new();
        let ghost want = plain_members(members@);
        let mut i: usize = 0;
        while i < members.len()
            invariant
                i <= members@.len(),
                want == plain_members(members@),
                member_views(list@) == want.take(i as int),
            decreases members.len() - i,
        {
            let m = SafetyMember {
                member_id: members[i].member_id.clone(),
                nickname: Some(members[i].nickname.clone()),
                identity_pubkey: None,
                x25519_pubkey: None,
            };
            let ghost before = list@;
            list.push(m);
            proof {
                assert(m@ =~= want[i as int]);
                assert(member_views(list@) =~= member_views(before).push(m@));
                assert(want.take(i as int).push(want[i as int]) =~= want.take(i + 1));
            }
            i += 1;
        }
        assert(want.take(want.len() as int) =~= want);
        let ghost listed = list@;
        let members = sort_by_key(list);
        proof {
            lemma_map_multiset(members@, listed, |m: SafetyMember| m@);
            lemma_member_keys(members@);
            lemma_member_keys(listed);
        }
        SafetyTranscript {
            protocol_version: SAFETY_PROTOCOL_V0.to_owned(),
            room_id: room_id.to_owned(),
            group_epoch: 0,
            members,
            transcript_hash: None,
        }
    }
}

/// Members are ordered by their bytes.
proof fn lemma_member_keys(members: Seq<SafetyMember>)
    ensures
        keys_of(members) == bytes_of_members(member_views(members)),
{
    assert(keys_of(members) =~= bytes_of_members(member_views(members)));
}

pub proof fn lemma_bytes_order_total()
    ensures
        total_ordering(bytes_order()),
{
    let leq = bytes_order();
    assert forall|a: Seq<u8>| #[trigger] leq(a, a) by {
        lemma_lex_reflexive(byte_values(a));
    }
    assert forall|a: Seq<u8>, b: Seq<u8>| #[trigger] leq(a, b) && #[trigger] leq(b, a) implies a
        == b by {
        lemma_lex_antisymmetric(byte_values(a), byte_values(b));
        lemma_byte_values_injective(a, b);
    }
    assert forall|a: Seq<u8>, b: Seq<u8>, c: Seq<u8>| #[trigger]
        leq(a, b) && #[trigger] leq(b, c) implies leq(a, c) by {
        lemma_lex_transitive(byte_values(a), byte_values(b), byte_values(c));
    }
    assert forall|a: Seq<u8>, b: Seq<u8>| #[trigger] leq(a, b) || #[trigger] leq(b, a) by {
        lemma_lex_total(byte_values(a), byte_values(b));
    }
}

impl Ordered for SafetyMember {
    type Key = Seq<u8>;

    open spec fn key(&self) -> Seq<u8> {
        member_bytes(self@)
    }

    open spec fn order() -> spec_fn(Seq<u8>, Seq<u8>) -> bool {
        bytes_order()
    }

    proof fn order_is_total() {
        lemma_bytes_order_total();
    }

    fn at_most(&self, other: &Self) -> (leq: bool) {
        let a = canonical_member_bytes(self);
        let b = canonical_member_bytes(other);
        bytes_at_most(a.as_slice(), b.as_slice())
    }
}

fn push_bytes_field(buf: &mut Vec<u8>, label: &str, value: &[u8])
    ensures
        final(buf)@ == old(buf)@ + field(label@, value@),
{
    let label_bytes = label.as_bytes();
    push_bytes(buf, be_bytes4_of(label_bytes.len() as u32).as_slice());
    push_bytes(buf, label_bytes);
    push_bytes(buf, be_bytes4_of(value.len() as u32).as_slice());
    push_bytes(buf, value);
    assert(buf@ =~= old(buf)@ + field(label@, value@));
}

fn push_optional_bytes_field(buf: &mut Vec<u8>, label: &str, value: Option<&[u8]>)
    ensures
        final(buf)@ == old(buf)@ + optional_field(
            label@,
            match value {
                Some(v) => Some(v@),
                None => None,
            },
        ),
{
    push_bytes_field(buf, "label", label.as_bytes());
    match value {
        Some(bytes) => {
            buf.push(1);
            push_bytes_field(buf, "value", bytes);
        },
        None => {
            buf.push(0);
        },
    }
    assert(buf@ =~= old(buf)@ + optional_field(
        label@,
        match value {
            Some(v) => Some(v@),
            None => None,
        },
    ));
}

fn opt_slice(v: &Option<Vec<u8>>) -> (s: Option<&[u8]>)
    ensures
        match s {
            Some(b) => opt_bytes(*v) == Some(b@),
            None => v is None,
        },
{
    match v {
        Some(b) => Some(b.as_slice()),
        None => None,
    }
}

fn canonical_member_bytes(member: &SafetyMember) -> (bytes: Vec<u8>)
    ensures
        bytes@ == member_bytes(member@),
{
    let mut bytes: Vec<u8> = Vec::new();
    push_bytes_field(&mut bytes, "member_id", member.member_id.as_str().as_bytes());
    let nickname = match &member.nickname {
        Some(s) => Some(s.as_str().as_bytes()),
        None => None,
    };
    push_optional_bytes_field(&mut bytes, "nickname", nickname);
    push_optional_bytes_field(&mut bytes, "identity_pubkey", opt_slice(&member.identity_pubkey));
    push_optional_bytes_field(&mut bytes, "x25519_pubkey", opt_slice(&member.x25519_pubkey));
    assert(bytes@ =~= member_bytes(member@));
    bytes
}

/// A member's bytes, ordered by themselves.
pub struct MemberBytes {
    pub bytes: Vec<u8>,
}

impl Ordered for MemberBytes {
    type Key = Seq<u8>;

    open spec fn key(&self) -> Seq<u8> {
        self.bytes@
    }

    open spec fn order() -> spec_fn(Seq<u8>, Seq<u8>) -> bool {
        bytes_order()
    }

    proof fn order_is_total() {
        lemma_bytes_order_total();
    }

    fn at_most(&self, other: &Self) -> (leq: bool) {
        bytes_at_most(self.bytes.as_slice(), other.bytes.as_slice())
    }
}

fn canonical_transcript_bytes(transcript: &SafetyTranscript) -> (bytes: Vec<u8>)
    ensures
        bytes@ == transcript.bytes(),
{
    let mut bytes: Vec<u8> = Vec::new();
    push_bytes_field(
        &mut bytes,
        "protocol_version",
        transcript.protocol_version.as_str().as_bytes(),
    );
    push_bytes_field(&mut bytes, "room_id", transcript.room_id.as_str().as_bytes());
    push_bytes_field(
        &mut bytes,
        "group_epoch",
        be_bytes_of(transcript.group_epoch).as_slice(),
    );
    let ghost list = transcript.member_list();
    let mut members: Vec<MemberBytes> = Vec::new();
    let mut i: usize = 0;
    while i < transcript.members.len()
        invariant
            i <= transcript.members@.len(),
            list == transcript.member_list(),
            keys_of(members@) == list.take(i as int),
        decreases transcript.members.len() - i,
    {
        let m = MemberBytes { bytes: canonical_member_bytes(&transcript.members[i]) };
        let ghost before = members@;
        members.push(m);
        proof {
            assert(list[i as int] == member_bytes(transcript.members@[i as int]@));
            assert(keys_of(members@) =~= keys_of(before).push(m.key()));
            assert(list.take(i as int).push(list[i as int]) =~= list.take(i + 1));
        }
        i += 1;
    }
    assert(list.take(list.len() as int) =~= list);
    let sorted = sort_by_key(members);
    push_bytes_field(
        &mut bytes,
        "member_count",
        be_bytes4_of(sorted.len() as u32).as_slice(),
    );
    let ghost head = bytes@;
    let ghost keys = keys_of(sorted@);
    let mut k: usize = 0;
    assert(bytes@ =~= head + member_fields(keys.take(0)));
    while k < sorted.len()
        invariant
            k <= sorted@.len(),
            keys == keys_of(sorted@),
            bytes@ == head + member_fields(keys.take(k as int)),
        decreases sorted.len() - k,
    {
        push_bytes_field(&mut bytes, "member", sorted[k].bytes.as_slice());
        proof {
            assert(keys.take(k + 1).drop_last() =~= keys.take(k as int));
            assert(keys.take(k + 1).last() == sorted@[k as int].bytes@);
            assert(bytes@ =~= head + member_fields(keys.take(k + 1)));
        }
        k += 1;
    }
    assert(keys.take(keys.len() as int) =~= keys);
    push_optional_bytes_field(
        &mut bytes,
        "transcript_hash",
        opt_slice(&transcript.transcript_hash),
    );
    assert(bytes@ =~= transcript.bytes());
    bytes
}

/// The code of a transcript.
pub fn compute_room_safety_code(transcript: &SafetyTranscript) -> (code: SafetyCode)
    ensures
        code.hash@ == sha256(transcript.bytes()),
{
    let canonical = canonical_transcript_bytes(transcript);
    SafetyCode { hash: sha256_digest(canonical.as_slice()) }
}

/// A transcript with its code.
pub fn compute_room_safety_state(transcript: SafetyTranscript) -> (state: RoomSafetyState)
    ensures
        state.transcript == transcript,
        state.code.hash@ == sha256(transcript.bytes()),
{
    let code = compute_room_safety_code(&transcript);
    RoomSafetyState { transcript, code }
}

/// The code of a room does not depend on the order in which its members are listed.
pub proof fn law_safety_code_ignores_order(
    version: Seq<char>,
    room_id: Seq<char>,
    epoch: u64,
    a: Seq<Seq<u8>>,
    b: Seq<Seq<u8>>,
    hash: Option<Seq<u8>>,
)
    requires
        a.to_multiset() == b.to_multiset(),
    ensures
        transcript_bytes(version, room_id, epoch, a, hash) == transcript_bytes(
            version,
            room_id,
            epoch,
            b,
            hash,
        ),
{
    lemma_bytes_order_total();
    let leq = bytes_order();
    a.lemma_sort_by_ensures(leq);
    b.lemma_sort_by_ensures(leq);
    vstd::seq_lib::lemma_sorted_unique(a.sort_by(leq), b.sort_by(leq), leq);
    broadcast use vstd::seq_lib::to_multiset_len;

    assert(a.len() == a.to_multiset().len());
    assert(b.len() == b.to_multiset().len());
}

/// A field at the front of a sequence can be told from what follows it.
proof fn lemma_field_first(label: Seq<char>, a: Seq<u8>, s: Seq<u8>, b: Seq<u8>, t: Seq<u8>)
    requires
        field(label, a) + s == field(label, b) + t,
        a.len() <= u32::MAX,
        b.len() <= u32::MAX,
    ensures
        a == b,
        s == t,
{
    let x = field(label, a) + s;
    let y = field(label, b) + t;
    let h = 4int + encode_utf8(label).len();
    assert(x.subrange(h, h + 4) =~= be_bytes4(a.len() as u32));
    assert(y.subrange(h, h + 4) =~= be_bytes4(b.len() as u32));
    lemma_be_bytes4_injective(a.len() as u32, b.len() as u32);
    let n = h + 4 + a.len();
    assert(x.subrange(h + 4, n) =~= a);
    assert(y.subrange(h + 4, n) =~= b);
    assert(x.skip(n) =~= s);
    assert(y.skip(n) =~= t);
}

/// Whether an optional value's length fits into four bytes.
spec fn value_fits(v: Option<Seq<u8>>) -> bool {
    v is Some ==> v->0.len() <= u32::MAX
}

/// An optional field at the front of a sequence can be told from what follows it.
proof fn lemma_optional_first(
    label: Seq<char>,
    a: Option<Seq<u8>>,
    s: Seq<u8>,
    b: Option<Seq<u8>>,
    t: Seq<u8>,
)
    requires
        optional_field(label, a) + s == optional_field(label, b) + t,
        value_fits(a),
        value_fits(b),
    ensures
        a == b,
        s == t,
{
    let head = field("label"@, encode_utf8(label));
    let x = optional_field(label, a) + s;
    let y = optional_field(label, b) + t;
    let n = head.len() as int;
    let u = x.skip(n);
    assert(u[0] == if a is Some { 1u8 } else { 0u8 });
    assert(y.skip(n)[0] == if b is Some { 1u8 } else { 0u8 });
    match (a, b) {
        (Some(v), Some(w)) => {
            assert(u.skip(1) =~= field("value"@, v) + s);
            assert(u.skip(1) =~= field("value"@, w) + t);
            lemma_field_first("value"@, v, s, w, t);
        },
        _ => {
            assert(u.skip(1) =~= s);
            assert(u.skip(1) =~= t);
        },
    }
}

/// The first member stands first.
proof fn lemma_member_fields_first(members: Seq<Seq<u8>>)
    requires
        members.len() > 0,
    ensures
        member_fields(members) == field("member"@, members[0]) + member_fields(
            members.drop_first(),
        ),
    decreases members.len(),
{
    reveal_with_fuel(member_fields, 2);
    if members.len() == 1 {
        assert(members.drop_last() =~= Seq::<Seq<u8>>::empty());
        assert(members.drop_first() =~= Seq::<Seq<u8>>::empty());
    } else {
        lemma_member_fields_first(members.drop_last());
        assert(members.drop_last().drop_first() =~= members.drop_first().drop_last());
    }
    assert(member_fields(members) =~= field("member"@, members[0]) + member_fields(
        members.drop_first(),
    ));
}

/// As many members at the front of a sequence can be told from what follows them.
proof fn lemma_members_first(a: Seq<Seq<u8>>, s: Seq<u8>, b: Seq<Seq<u8>>, t: Seq<u8>)
    requires
        member_fields(a) + s == member_fields(b) + t,
        a.len() == b.len(),
        forall|i: int| 0 <= i < a.len() ==> (#[trigger] a[i]).len() <= u32::MAX,
        forall|i: int| 0 <= i < b.len() ==> (#[trigger] b[i]).len() <= u32::MAX,
    ensures
        a == b,
        s == t,
    decreases a.len(),
{
    if a.len() == 0 {
        assert(member_fields(a) + s =~= s);
        assert(member_fields(b) + t =~= t);
        assert(a =~= b);
    } else {
        lemma_member_fields_first(a);
        lemma_member_fields_first(b);
        let u = member_fields(a.drop_first()) + s;
        let v = member_fields(b.drop_first()) + t;
        assert(member_fields(a) + s =~= field("member"@, a[0]) + u);
        assert(member_fields(b) + t =~= field("member"@, b[0]) + v);
        lemma_field_first("member"@, a[0], u, b[0], v);
        lemma_members_first(a.drop_first(), s, b.drop_first(), t);
        assert(a =~= seq![a[0]] + a.drop_first());
        assert(b =~= seq![b[0]] + b.drop_first());
    }
}

/// Different texts have different bytes.
pub proof fn lemma_text_bytes_injective(a: Seq<char>, b: Seq<char>)
    requires
        encode_utf8(a) == encode_utf8(b),
    ensures
        a == b,
{
    vstd::utf8::encode_utf8_decode_utf8(a);
    vstd::utf8::encode_utf8_decode_utf8(b);
}

/// Parts that follow one another, grouped from the right.
proof fn lemma_group_four(a: Seq<u8>, b: Seq<u8>, c: Seq<u8>, d: Seq<u8>)
    ensures
        a + b + c + d == a + (b + (c + (d + Seq::<u8>::empty()))),
{
    assert(a + b + c + d =~= a + (b + (c + (d + Seq::<u8>::empty()))));
}

/// Parts that follow one another, grouped from the right.
proof fn lemma_group_six(
    a: Seq<u8>,
    b: Seq<u8>,
    c: Seq<u8>,
    d: Seq<u8>,
    e: Seq<u8>,
    f: Seq<u8>,
)
    ensures
        a + b + c + d + e + f == a + (b + (c + (d + (e + (f + Seq::<u8>::empty()))))),
{
    assert(a + b + c + d + e + f =~= a + (b + (c + (d + (e + (f + Seq::<u8>::empty()))))));
}

/// What a member holds is no longer than the bytes that stand for it.
proof fn lemma_member_fits(m: SafetyMemberView)
    requires
        member_bytes(m).len() <= u32::MAX,
    ensures
        encode_utf8(m.member_id).len() <= u32::MAX,
        value_fits(opt_text_bytes(m.nickname)),
        value_fits(m.identity_pubkey),
        value_fits(m.x25519_pubkey),
{
}

/// Different members have different bytes.
pub proof fn law_member_bytes_tell_members_apart(a: SafetyMemberView, b: SafetyMemberView)
    requires
        member_bytes(a).len() <= u32::MAX,
        member_bytes(b).len() <= u32::MAX,
        member_bytes(a) == member_bytes(b),
    ensures
        a == b,
{
    let none = Seq::<u8>::empty();
    let a3 = optional_field("x25519_pubkey"@, a.x25519_pubkey);
    let b3 = optional_field("x25519_pubkey"@, b.x25519_pubkey);
    let a2 = optional_field("identity_pubkey"@, a.identity_pubkey);
    let b2 = optional_field("identity_pubkey"@, b.identity_pubkey);
    let a1 = optional_field("nickname"@, opt_text_bytes(a.nickname));
    let b1 = optional_field("nickname"@, opt_text_bytes(b.nickname));
    let a0 = encode_utf8(a.member_id);
    let b0 = encode_utf8(b.member_id);
    lemma_group_four(field("member_id"@, a0), a1, a2, a3);
    lemma_group_four(field("member_id"@, b0), b1, b2, b3);
    lemma_member_fits(a);
    lemma_member_fits(b);
    lemma_field_first("member_id"@, a0, a1 + (a2 + (a3 + none)), b0, b1 + (b2 + (b3 + none)));
    lemma_optional_first(
        "nickname"@,
        opt_text_bytes(a.nickname),
        a2 + (a3 + none),
        opt_text_bytes(b.nickname),
        b2 + (b3 + none),
    );
    lemma_optional_first(
        "identity_pubkey"@,
        a.identity_pubkey,
        a3 + none,
        b.identity_pubkey,
        b3 + none,
    );
    lemma_optional_first("x25519_pubkey"@, a.x25519_pubkey, none, b.x25519_pubkey, none);
    lemma_text_bytes_injective(a.member_id, b.member_id);
    if a.nickname is Some {
        lemma_text_bytes_injective(a.nickname->0, b.nickname->0);
    }
}

/// The bytes that the code is the hash of tell rooms apart: transcripts with the same bytes have
/// the same version, room, epoch and hash, and the same members, each as many times.
pub proof fn law_transcript_bytes_tell_rooms_apart(a: SafetyTranscript, b: SafetyTranscript)
    requires
        a.fits(),
        b.fits(),
        a.bytes() == b.bytes(),
    ensures
        a.protocol_version@ == b.protocol_version@,
        a.room_id@ == b.room_id@,
        a.group_epoch == b.group_epoch,
        opt_bytes(a.transcript_hash) == opt_bytes(b.transcript_hash),
        member_views(a.members@).to_multiset() == member_views(b.members@).to_multiset(),
{
    let none = Seq::<u8>::empty();
    let leq = bytes_order();
    let la = a.member_list();
    let lb = b.member_list();
    let a5 = optional_field("transcript_hash"@, opt_bytes(a.transcript_hash)) + none;
    let b5 = optional_field("transcript_hash"@, opt_bytes(b.transcript_hash)) + none;
    let a4 = member_fields(la.sort_by(leq)) + a5;
    let b4 = member_fields(lb.sort_by(leq)) + b5;
    let na = be_bytes4(la.len() as u32);
    let nb = be_bytes4(lb.len() as u32);
    let a3 = field("member_count"@, na) + a4;
    let b3 = field("member_count"@, nb) + b4;
    let ea = be_bytes(a.group_epoch);
    let eb = be_bytes(b.group_epoch);
    let a2 = field("group_epoch"@, ea) + a3;
    let b2 = field("group_epoch"@, eb) + b3;
    let ra = encode_utf8(a.room_id@);
    let rb = encode_utf8(b.room_id@);
    let a1 = field("room_id"@, ra) + a2;
    let b1 = field("room_id"@, rb) + b2;
    let va = encode_utf8(a.protocol_version@);
    let vb = encode_utf8(b.protocol_version@);
    lemma_group_six(
        field("protocol_version"@, va),
        field("room_id"@, ra),
        field("group_epoch"@, ea),
        field("member_count"@, na),
        member_fields(la.sort_by(leq)),
        optional_field("transcript_hash"@, opt_bytes(a.transcript_hash)),
    );
    lemma_group_six(
        field("protocol_version"@, vb),
        field("room_id"@, rb),
        field("group_epoch"@, eb),
        field("member_count"@, nb),
        member_fields(lb.sort_by(leq)),
        optional_field("transcript_hash"@, opt_bytes(b.transcript_hash)),
    );
    lemma_field_first("protocol_version"@, va, a1, vb, b1);
    lemma_field_first("room_id"@, ra, a2, rb, b2);
    lemma_field_first("group_epoch"@, ea, a3, eb, b3);
    lemma_field_first("member_count"@, na, a4, nb, b4);
    lemma_text_bytes_injective(a.protocol_version@, b.protocol_version@);
    lemma_text_bytes_injective(a.room_id@, b.room_id@);
    lemma_be_value(a.group_epoch);
    lemma_be_value(b.group_epoch);
    lemma_be_bytes4_injective(la.len() as u32, lb.len() as u32);
    lemma_bytes_order_total();
    la.lemma_sort_by_ensures(leq);
    lb.lemma_sort_by_ensures(leq);
    lemma_sorted_lens(a);
    lemma_sorted_lens(b);
    lemma_members_first(la.sort_by(leq), a5, lb.sort_by(leq), b5);
    lemma_optional_first(
        "transcript_hash"@,
        opt_bytes(a.transcript_hash),
        none,
        opt_bytes(b.transcript_hash),
        none,
    );
    lemma_same_members(a, b);
}

/// Transcripts whose members have the same bytes have the same members.
proof fn lemma_same_members(a: SafetyTranscript, b: SafetyTranscript)
    requires
        a.fits(),
        b.fits(),
        a.member_list().to_multiset() == b.member_list().to_multiset(),
    ensures
        member_views(a.members@).to_multiset() == member_views(b.members@).to_multiset(),
{
    let f = |m: SafetyMemberView| member_bytes(m);
    let ma = member_views(a.members@);
    let mb = member_views(b.members@);
    assert forall|i: int, j: int|
        0 <= i < ma.len() && 0 <= j < mb.len() && #[trigger] f(ma[i]) == #[trigger] f(
            mb[j],
        ) implies ma[i] == mb[j] by {
        assert(member_bytes(a.members@[i]@).len() <= u32::MAX);
        assert(member_bytes(b.members@[j]@).len() <= u32::MAX);
        law_member_bytes_tell_members_apart(ma[i], mb[j]);
    }
    lemma_unmap_multiset(ma, mb, f);
}

/// The members of a transcript that fits are as many and as short once they are sorted.
proof fn lemma_sorted_lens(t: SafetyTranscript)
    requires
        t.fits(),
    ensures
        t.member_list().sort_by(bytes_order()).len() == t.members@.len(),
        forall|i: int|
            0 <= i < t.members@.len() ==> (#[trigger] t.member_list().sort_by(
                bytes_order(),
            )[i]).len() <= u32::MAX,
{
    broadcast use {
        vstd::multiset::group_multiset_axioms,
        vstd::seq_lib::to_multiset_contains,
        vstd::seq_lib::to_multiset_len,
    };

    lemma_bytes_order_total();
    let list = t.member_list();
    let sorted = list.sort_by(bytes_order());
    list.lemma_sort_by_ensures(bytes_order());
    assert(list.len() == list.to_multiset().len());
    assert(sorted.len() == sorted.to_multiset().len());
    assert forall|i: int| 0 <= i < sorted.len() implies (#[trigger] sorted[i]).len()
        <= u32::MAX by {
        assert(sorted.contains(sorted[i]));
        assert(sorted.to_multiset().count(sorted[i]) > 0);
        assert(list.contains(sorted[i]));
        let j = choose|j: int| 0 <= j < list.len() && list[j] == sorted[i];
        assert(list[j] == member_bytes(t.members@[j]@));
    }
}

/// The code of a room does not depend on the order in which its members are listed, and the room's
/// transcript holds the same members.
pub proof fn law_room_transcript_ignores_order(
    a: SafetyTranscript,
    b: SafetyTranscript,
    listed_a: Seq<MemberIdentity>,
    listed_b: Seq<MemberIdentity>,
)
    requires
        member_views(a.members@).to_multiset() == plain_members(listed_a).to_multiset(),
        member_views(b.members@).to_multiset() == plain_members(listed_b).to_multiset(),
        identity_views(listed_a).to_multiset() == identity_views(listed_b).to_multiset(),
        a.protocol_version@ == b.protocol_version@,
        a.room_id@ == b.room_id@,
        a.group_epoch == b.group_epoch,
        opt_bytes(a.transcript_hash) == opt_bytes(b.transcript_hash),
    ensures
        member_views(a.members@).to_multiset() == member_views(b.members@).to_multiset(),
        a.bytes() == b.bytes(),
{
    let f = |m: IdentityView| plain_member(m);
    let g = |m: SafetyMemberView| member_bytes(m);
    lemma_map_multiset(identity_views(listed_a), identity_views(listed_b), f);
    assert(plain_members(listed_a) =~= identity_views(listed_a).map_values(f));
    assert(plain_members(listed_b) =~= identity_views(listed_b).map_values(f));
    lemma_map_multiset(member_views(a.members@), member_views(b.members@), g);
    law_safety_code_ignores_order(
        a.protocol_version@,
        a.room_id@,
        a.group_epoch,
        a.member_list(),
        b.member_list(),
        opt_bytes(a.transcript_hash),
    );
}

/// The symbol for an index below sixty-four.
pub open spec fn emoji_text(index: u8) -> Seq<char> {
    match index {
        0 => "🦊"@,
        1 => "🌙"@,
        2 => "🧊"@,
        3 => "🍀"@,
        4 => "🦀"@,
        5 => "🌊"@,
        6 => "🔥"@,
        7 => "🌿"@,
        8 => "⭐"@,
        9 => "🍎"@,
        10 => "🛰"@,
        11 => "🪨"@,
        12 => "🐳"@,
        13 => "🌻"@,
        14 => "🍋"@,
        15 => "🦉"@,
        16 => "🌈"@,
        17 => "🍁"@,
        18 => "🫐"@,
        19 => "⚙️"@,
        20 => "🧭"@,
        21 => "🥝"@,
        22 => "🐼"@,
        23 => "🌵"@,
        24 => "🍄"@,
        25 => "🦋"@,
        26 => "☁️"@,
        27 => "🌺"@,
        28 => "🐧"@,
        29 => "🌲"@,
        30 => "🍇"@,
        31 => "🌞"@,
        32 => "🪐"@,
        33 => "🥥"@,
        34 => "🦜"@,
        35 => "🌼"@,
        36 => "🍓"@,
        37 => "🐢"@,
        38 => "🌪"@,
        39 => "🫧"@,
        40 => "🐝"@,
        41 => "🍉"@,
        42 => "🌴"@,
        43 => "❄️"@,
        44 => "🦌"@,
        45 => "🌸"@,
        46 => "🍒"@,
        47 => "🐬"@,
        48 => "🌅"@,
        49 => "🥑"@,
        50 => "🦔"@,
        51 => "🌱"@,
        52 => "🍐"@,
        53 => "🐙"@,
        54 => "🌌"@,
        55 => "🪵"@,
        56 => "🍊"@,
        57 => "🦝"@,
        58 => "🌾"@,
        59 => "🫚"@,
        60 => "🍍"@,
        61 => "🐚"@,
        62 => "🌧"@,
        _ => "🪻"@,
    }
}

fn emoji_for(index: u8) -> (s: &'static str)
    requires
        index < 64,
    ensures
        s@ == emoji_text(index),
{
    match index {
        0 => "🦊",
        1 => "🌙",
        2 => "🧊",
        3 => "🍀",
        4 => "🦀",
        5 => "🌊",
        6 => "🔥",
        7 => "🌿",
        8 => "⭐",
        9 => "🍎",
        10 => "🛰",
        11 => "🪨",
        12 => "🐳",
        13 => "🌻",
        14 => "🍋",
        15 => "🦉",
        16 => "🌈",
        17 => "🍁",
        18 => "🫐",
        19 => "⚙️",
        20 => "🧭",
        21 => "🥝",
        22 => "🐼",
        23 => "🌵",
        24 => "🍄",
        25 => "🦋",
        26 => "☁️",
        27 => "🌺",
        28 => "🐧",
        29 => "🌲",
        30 => "🍇",
        31 => "🌞",
        32 => "🪐",
        33 => "🥥",
        34 => "🦜",
        35 => "🌼",
        36 => "🍓",
        37 => "🐢",
        38 => "🌪",
        39 => "🫧",
        40 => "🐝",
        41 => "🍉",
        42 => "🌴",
        43 => "❄️",
        44 => "🦌",
        45 => "🌸",
        46 => "🍒",
        47 => "🐬",
        48 => "🌅",
        49 => "🥑",
        50 => "🦔",
        51 => "🌱",
        52 => "🍐",
        53 => "🐙",
        54 => "🌌",
        55 => "🪵",
        56 => "🍊",
        57 => "🦝",
        58 => "🌾",
        59 => "🫚",
        60 => "🍍",
        61 => "🐚",
        62 => "🌧",
        _ => "🪻",
    }
}

/// The code as four symbols.
pub open spec fn emoji_code(hash: Seq<u8>) -> Seq<char> {
    join_texts(Seq::new(4, |i: int| emoji_text(hash[i] % 64)), " "@)
}

/// The code as four symbols.
pub fn safety_code_to_emoji(hash: &[u8; 32]) -> (text: String)
    ensures
        text@ == emoji_code(hash@),
{
    let mut parts: Vec<String> = Vec::new();
    let mut i: usize = 0;
    while i < 4
        invariant
            i <= 4,
            parts@.len() == i,
            forall|k: int|
                0 <= k < i ==> (#[trigger] parts@[k])@ == emoji_text(hash@[k] % 64),
        decreases 4 - i,
    {
        parts.push(emoji_for(hash[i] % 64).to_owned());
        i += 1;
    }
    assert(views(parts@) =~= Seq::new(4, |i: int| emoji_text(hash@[i] % 64)));
    join_strings(&parts, " ")
}

/// Five decimal digits of a number, with leading zeros.
pub open spec fn five_digits(n: nat) -> Seq<char> {
    seq![
        digit_char(n / 10000 % 10),
        digit_char(n / 1000 % 10),
        digit_char(n / 100 % 10),
        digit_char(n / 10 % 10),
        digit_char(n % 10),
    ]
}

/// The number that a pair of bytes denotes, the most significant first.
pub open spec fn pair_value(hash: Seq<u8>, i: int) -> nat {
    (hash[2 * i] as nat) * 256 + (hash[2 * i + 1] as nat)
}

/// The code as six groups of five digits.
pub open spec fn digit_code(hash: Seq<u8>) -> Seq<char> {
    join_texts(Seq::new(6, |i: int| five_digits(pair_value(hash, i))), " "@)
}

fn digit_of(d: u32) -> (c: char)
    requires
        d < 10,
    ensures
        c == digit_char(d as nat),
{
    match d {
        0 => '0',
        1 => '1',
        2 => '2',
        3 => '3',
        4 => '4',
        5 => '5',
        6 => '6',
        7 => '7',
        8 => '8',
        _ => '9',
    }
}

/// The code as six groups of five digits.
pub fn safety_code_to_digits(hash: &[u8; 32]) -> (text: String)
    ensures
        text@ == digit_code(hash@),
{
    let mut parts: Vec<String> = Vec::new();
    let mut i: usize = 0;
    while i < 6
        invariant
            i <= 6,
            parts@.len() == i,
            forall|k: int|
                0 <= k < i ==> (#[trigger] parts@[k])@ == five_digits(pair_value(hash@, k)),
        decreases 6 - i,
    {
        let value: u32 = (hash[2 * i] as u32) * 256 + (hash[2 * i + 1] as u32);
        let mut part = String::new();
        push_char(&mut part, digit_of(value / 10000 % 10));
        push_char(&mut part, digit_of(value / 1000 % 10));
        push_char(&mut part, digit_of(value / 100 % 10));
        push_char(&mut part, digit_of(value / 10 % 10));
        push_char(&mut part, digit_of(value % 10));
        assert(part@ =~= five_digits(pair_value(hash@, i as int)));
        parts.push(part);
        i += 1;
    }
    assert(views(parts@) =~= Seq::new(6, |i: int| five_digits(pair_value(hash@, i))));
    join_strings(&parts, " ")
}

impl SafetyCode {
    pub fn emoji(&self) -> (text: String)
        ensures
            text@ == emoji_code(self.hash@),
    {
        safety_code_to_emoji(&self.hash)
    }

    pub fn digits(&self) -> (text: String)
        ensures
            text@ == digit_code(self.hash@),
    {
        safety_code_to_digits(&self.hash)
    }
}

} // verus!
