//! Members of a room and the line that lists them.
use crate::util::codec::{
    decode_text, decoded_text, encode_text, encoded_text, join_strings, join_texts,
    lemma_base64url_chars, lemma_split_joined,
};
use crate::util::text::{
    after_prefix, char_pos, chars_of, find_char, is_white, joined, lemma_split_cons, split_char,
    split_on, string_of, strip_prefix, trim, trimmed, trimmed_end, trimmed_start, views,
};
use vstd::prelude::*;
use vstd::utf8::{decode_utf8, encode_utf8, is_char_boundary};

verus! {

#[derive(Debug, PartialEq, Eq)]
pub struct MemberIdentity {
    pub member_id: String,
    pub nickname: String,
}

#[verifier::ext_equal]
pub struct IdentityView {
    pub member_id: Seq<char>,
    pub nickname: Seq<char>,
}

impl View for MemberIdentity {
    type V = IdentityView;

    open spec fn view(&self) -> IdentityView {
        IdentityView { member_id: self.member_id@, nickname: self.nickname@ }
    }
}

impl Clone for MemberIdentity {
    fn clone(&self) -> (copy: Self)
        ensures
            copy@ == self@,
    {
        MemberIdentity { member_id: self.member_id.clone(), nickname: self.nickname.clone() }
    }
}

/// The number of bytes of an identifier that are shown.
pub open spec fn shown_id_len(member_id: Seq<char>) -> nat {
    let n = encode_utf8(member_id).len();
    if n < 6 {
        n
    } else {
        6
    }
}

/// A nickname with the first bytes of the identifier behind it.
pub open spec fn display_text(nickname: Seq<char>, member_id: Seq<char>) -> Seq<char> {
    nickname + "#"@ + decode_utf8(encode_utf8(member_id).take(shown_id_len(member_id) as int))
}

/// Whether an identifier can be cut after the bytes that are shown.
pub open spec fn shows_whole_chars(member_id: Seq<char>) -> bool {
    is_char_boundary(encode_utf8(member_id), shown_id_len(member_id) as int)
}

/// The name that tells members of the same nickname apart.
pub fn member_display_name(nickname: &str, member_id: &str) -> (name: String)
    requires
        shows_whole_chars(member_id@),
        encode_utf8(member_id@).len() <= usize::MAX,
    ensures
        name@ == display_text(nickname@, member_id@),
{
    let len = member_id.len();
    let short_len: usize = if len < 6 {
        len
    } else {
        6
    };
    let (head, _) = member_id.split_at(short_len);
    proof {
        vstd::utf8::encode_utf8_decode_utf8(head@);
        assert(encode_utf8(head@) =~= encode_utf8(member_id@).take(short_len as int));
    }
    let mut name = joined(nickname, "#");
    name.append(head);
    name
}

impl MemberIdentity {
    pub fn display_name(&self) -> (name: String)
        requires
            shows_whole_chars(self.member_id@),
            encode_utf8(self.member_id@).len() <= usize::MAX,
        ensures
            name@ == display_text(self.nickname@, self.member_id@),
    {
        member_display_name(self.nickname.as_str(), self.member_id.as_str())
    }
}

/// An identifier without characters outside ASCII can always be shown.
pub proof fn law_ascii_identifier_is_shown(member_id: Seq<char>)
    requires
        vstd::utf8::is_ascii_chars(member_id),
    ensures
        shows_whole_chars(member_id),
        encode_utf8(member_id).len() == member_id.len(),
{
    vstd::utf8::is_ascii_chars_encode_utf8(member_id);
    let bytes = encode_utf8(member_id);
    vstd::utf8::encode_utf8_valid_utf8(member_id);
    let n = shown_id_len(member_id) as int;
    if n < bytes.len() {
        assert(bytes[n] == member_id[n] as u8);
        vstd::utf8::is_char_boundary_iff_not_is_continuation_byte(bytes, n);
    } else {
        vstd::utf8::is_char_boundary_start_end_of_seq(bytes);
    }
}

/// The entry of a member in a list.
pub open spec fn member_entry(m: IdentityView) -> Seq<char> {
    encoded_text(m.member_id) + seq![':'] + encoded_text(m.nickname)
}

/// The member that an entry stands for.
pub open spec fn entry_member(entry: Seq<char>) -> Option<IdentityView> {
    let p = char_pos(entry, ':');
    let id = decoded_text(entry.take(p));
    let nickname = decoded_text(entry.skip(p + 1));
    if p < entry.len() && id is Some && nickname is Some {
        Some(IdentityView { member_id: id->0, nickname: nickname->0 })
    } else {
        None
    }
}

/// The line that lists the members.
pub open spec fn member_list_line(members: Seq<IdentityView>) -> Seq<char> {
    "/member_list "@ + join_texts(members.map_values(|m: IdentityView| member_entry(m)), seq![','])
}

/// The members of a list of entries.
pub open spec fn entries_members(entries: Seq<Seq<char>>) -> Option<Seq<IdentityView>> {
    if forall|i: int| 0 <= i < entries.len() ==> entry_member(#[trigger] entries[i]) is Some {
        Some(entries.map_values(|e: Seq<char>| entry_member(e)->0))
    } else {
        None
    }
}

/// The members that a line lists.
pub open spec fn listed_members(line: Seq<char>) -> Option<Seq<IdentityView>> {
    match after_prefix(line, "/member_list "@) {
        None => None,
        Some(payload) => if trimmed(payload).len() == 0 {
            Some(Seq::empty())
        } else {
            entries_members(split_on(payload, ','))
        },
    }
}

/// The views of a list of members.
pub open spec fn identity_views(members: Seq<MemberIdentity>) -> Seq<IdentityView> {
    members.map_values(|m: MemberIdentity| m@)
}

proof fn lemma_trimmed_nonempty(s: Seq<char>, i: int)
    requires
        0 <= i < s.len(),
        !is_white(s[i]),
    ensures
        trimmed(s).len() > 0,
{
    lemma_start_keeps(s, i);
    let t = trimmed_start(s);
    let j = choose|j: int| 0 <= j < t.len() && !is_white(t[j]);
    lemma_end_keeps(t, j);
}

proof fn lemma_start_keeps(s: Seq<char>, i: int)
    requires
        0 <= i < s.len(),
        !is_white(s[i]),
    ensures
        exists|j: int|
            0 <= j < trimmed_start(s).len() && !is_white(trimmed_start(s)[j]),
    decreases s.len(),
{
    if is_white(s[0]) {
        let t = s.drop_first();
        assert(t[i - 1] == s[i]);
        lemma_start_keeps(t, i - 1);
        let j = choose|j: int| 0 <= j < trimmed_start(t).len() && !is_white(trimmed_start(t)[j]);
        assert(!is_white(trimmed_start(s)[j]));
    } else {
        assert(trimmed_start(s)[i] == s[i]);
    }
}

proof fn lemma_end_keeps(s: Seq<char>, i: int)
    requires
        0 <= i < s.len(),
        !is_white(s[i]),
    ensures
        trimmed_end(s).len() > 0,
    decreases s.len(),
{
    if is_white(s.last()) {
        assert(s.drop_last()[i] == s[i]);
        lemma_end_keeps(s.drop_last(), i);
    }
}

/// Lists members. The line can be read back.
pub fn build_member_list_line(members: &[MemberIdentity]) -> (line: String)
    ensures
        line@ == member_list_line(identity_views(members@)),
        listed_members(line@) == Some(identity_views(members@)),
{
    let ghost want = identity_views(members@).map_values(|m: IdentityView| member_entry(m));
    let mut entries: Vec<String> = Vec::new();
    let mut i: usize = 0;
    while i < members.len()
        invariant
            i <= members@.len(),
            want == identity_views(members@).map_values(|m: IdentityView| member_entry(m)),
            entries@.len() == i,
            forall|k: int| 0 <= k < i ==> (#[trigger] entries@[k])@ == want[k],
            forall|k: int|
                0 <= k < i ==> entry_member(#[trigger] want[k]) == Some(members@[k]@)
                    && !want[k].contains(',') && want[k].contains(':'),
        decreases members.len() - i,
    {
        let id_b64 = encode_text(members[i].member_id.as_str());
        let nick_b64 = encode_text(members[i].nickname.as_str());
        let mut entry = joined(id_b64.as_str(), ":");
        entry.append(nick_b64.as_str());
        proof {
            reveal_strlit(":");
            assert(":"@ =~= seq![':']);
            assert(entry@ =~= id_b64@ + seq![':'] + nick_b64@);
            assert(want[i as int] == entry@);
            lemma_base64url_chars(id_b64@);
            lemma_base64url_chars(nick_b64@);
            lemma_split_cons(id_b64@, ':', nick_b64@);
            assert(entry@.take(id_b64@.len() as int) =~= id_b64@);
            assert(entry@.skip(id_b64@.len() as int + 1) =~= nick_b64@);
            assert(entry@[id_b64@.len() as int] == ':');
            assert(!entry@.contains(',')) by {
                if entry@.contains(',') {
                    let k = choose|k: int| 0 <= k < entry@.len() && entry@[k] == ',';
                    if k < id_b64@.len() {
                        assert(id_b64@[k] == ',');
                    } else if k > id_b64@.len() {
                        assert(nick_b64@[k - id_b64@.len() - 1] == ',');
                    }
                }
            }
        }
        entries.push(entry);
        i += 1;
    }
    let payload = join_strings(&entries, ",");
    let line = joined("/member_list ", payload.as_str());
    proof {
        reveal_strlit(",");
        assert(","@ =~= seq![',']);
        assert(views(entries@) =~= want);
        let prefix = "/member_list "@;
        assert(line@.skip(prefix.len() as int) =~= payload@);
        assert(prefix =~= line@.subrange(0, prefix.len() as int));
        if want.len() == 0 {
            assert(payload@ =~= Seq::<char>::empty());
            assert(identity_views(members@) =~= Seq::<IdentityView>::empty());
        } else {
            lemma_split_joined(want, ',');
            assert(want[0].contains(':'));
            let k = choose|k: int| 0 <= k < want[0].len() && want[0][k] == ':';
            assert(payload@[k] == ':');
            lemma_trimmed_nonempty(payload@, k);
            assert(want.map_values(|e: Seq<char>| entry_member(e)->0) =~= identity_views(members@));
        }
    }
    line
}

/// Reads one entry.
fn parse_entry(entry: &str) -> (out: Option<MemberIdentity>)
    ensures
        match (out, entry_member(entry@)) {
            (Some(o), Some(v)) => o@ == v,
            (None, None) => true,
            _ => false,
        },
{
    let chars = chars_of(entry);
    assert(entry@.skip(0) =~= entry@);
    let p = find_char(chars.as_slice(), ':', 0);
    if p >= chars.len() {
        return None;
    }
    let id_part = string_of(vstd::slice::slice_subrange(chars.as_slice(), 0, p));
    let nick_part = string_of(vstd::slice::slice_subrange(chars.as_slice(), p + 1, chars.len()));
    assert(id_part@ =~= entry@.take(p as int));
    assert(nick_part@ =~= entry@.skip(p + 1));
    let member_id = match decode_text(id_part.as_str()) {
        Some(s) => s,
        None => {
            return None;
        },
    };
    let nickname = match decode_text(nick_part.as_str()) {
        Some(s) => s,
        None => {
            return None;
        },
    };
    Some(MemberIdentity { member_id, nickname })
}

/// Reads a list of members.
pub fn parse_member_list_line(line: &str) -> (out: Option<Vec<MemberIdentity>>)
    ensures
        match (out, listed_members(line@)) {
            (Some(o), Some(v)) => identity_views(o@) == v,
            (None, None) => true,
            _ => false,
        },
{
    let payload = match strip_prefix(line, "/member_list ") {
        Some(payload) => payload,
        None => {
            return None;
        },
    };
    let mut members: Vec<MemberIdentity> = Vec::new();
    let inner = trim(payload.as_str());
    if inner.as_str().unicode_len() == 0 {
        assert(identity_views(members@) =~= Seq::<IdentityView>::empty());
        return Some(members);
    }
    let entries = split_char(payload.as_str(), ',');
    let ghost all = views(entries@);
    let mut i: usize = 0;
    while i < entries.len()
        invariant
            i <= entries@.len(),
            all == views(entries@),
            listed_members(line@) == entries_members(all),
            members@.len() == i,
            forall|k: int|
                0 <= k < i ==> entry_member(#[trigger] all[k]) == Some(members@[k]@),
        decreases entries.len() - i,
    {
        assert(all[i as int] == entries@[i as int]@);
        match parse_entry(entries[i].as_str()) {
            Some(m) => {
                members.push(m);
            },
            None => {
                return None;
            },
        }
        i += 1;
    }
    assert(identity_views(members@) =~= all.map_values(|e: Seq<char>| entry_member(e)->0));
    Some(members)
}

} // verus!
