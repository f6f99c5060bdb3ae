//! Rooms: who is in them, who owns them, and what their members are told.
use crate::outside::random::{alphanumeric, random_alphanumeric};
use crate::protocol::member::{
    build_member_list_line, identity_views, member_list_line, IdentityView, MemberIdentity,
};
use crate::util::id_map::{entry_ids, lemma_entry_ids, lemma_entry_value, view_map, IdMap};
use crate::util::order::{
    codes, keys_of, lemma_codes_injective, lemma_lex_antisymmetric, lemma_lex_reflexive,
    lemma_lex_total, lemma_lex_transitive, lemma_sorted_distinct, sort_by_key, str_leq, Ordered,
};
use crate::util::text::{joined, opt_text, same_text};
use vstd::prelude::*;
use vstd::relations::total_ordering;

verus! {

/// A room: what joining it takes, its members' nicknames, and its owner while there is one.
#[derive(Debug)]
pub struct RoomInfo {
    pub join_credential: String,
    pub members: IdMap<String>,
    pub owner_member_id: Option<String>,
    pub owner_capability: Option<String>,
}

/// A room.
#[verifier::ext_equal]
pub ghost struct RoomView {
    pub join_credential: Seq<char>,
    pub members: Map<Seq<char>, Seq<char>>,
    pub owner_member_id: Option<Seq<char>>,
    pub owner_capability: Option<Seq<char>>,
}

impl View for RoomInfo {
    type V = RoomView;

    open spec fn view(&self) -> RoomView {
        RoomView {
            join_credential: self.join_credential@,
            members: view_map(self.members.map()),
            owner_member_id: opt_text(self.owner_member_id),
            owner_capability: opt_text(self.owner_capability),
        }
    }
}

/// The rooms by their names.
pub type Rooms = IdMap<RoomInfo>;

/// The rooms by their names.
pub type RoomsView = Map<Seq<char>, RoomView>;

/// The rooms of the server.
pub open spec fn room_views(rooms: &Rooms) -> RoomsView {
    view_map(rooms.map())
}

/// No room and no member is listed twice.
pub open spec fn rooms_wf(rooms: &Rooms) -> bool {
    rooms.wf() && forall|id: Seq<char>|
        rooms.map().contains_key(id) ==> (#[trigger] rooms.map()[id]).members.wf()
}

/// The server before anyone has come.
pub fn no_rooms() -> (rooms: Rooms)
    ensures
        rooms_wf(&rooms),
        room_views(&rooms) == RoomsView::empty(),
{
    let rooms: Rooms = IdMap::new();
    assert(room_views(&rooms) =~= RoomsView::empty());
    rooms
}

/// By nickname, members of the same nickname by identifier.
pub open spec fn member_leq(a: IdentityView, b: IdentityView) -> bool {
    if a.nickname == b.nickname {
        str_leq(a.member_id, b.member_id)
    } else {
        str_leq(a.nickname, b.nickname)
    }
}

pub open spec fn member_order() -> spec_fn(IdentityView, IdentityView) -> bool {
    |a: IdentityView, b: IdentityView| member_leq(a, b)
}

proof fn lemma_member_order_total()
    ensures
        total_ordering(member_order()),
{
    let leq = member_order();
    assert forall|a: IdentityView| #[trigger] leq(a, a) by {
        lemma_lex_reflexive(codes(a.member_id));
    }
    assert forall|a: IdentityView, b: IdentityView| #[trigger] leq(a, b) && #[trigger] leq(
        b,
        a,
    ) implies a == b by {
        if a.nickname == b.nickname {
            lemma_lex_antisymmetric(codes(a.member_id), codes(b.member_id));
            lemma_codes_injective(a.member_id, b.member_id);
        } else {
            lemma_lex_antisymmetric(codes(a.nickname), codes(b.nickname));
            lemma_codes_injective(a.nickname, b.nickname);
        }
    }
    assert forall|a: IdentityView, b: IdentityView, c: IdentityView| #[trigger]
        leq(a, b) && #[trigger] leq(b, c) implies leq(a, c) by {
        if a.nickname == b.nickname && b.nickname == c.nickname {
            lemma_lex_transitive(codes(a.member_id), codes(b.member_id), codes(c.member_id));
        } else if a.nickname != b.nickname && b.nickname != c.nickname {
            lemma_lex_transitive(codes(a.nickname), codes(b.nickname), codes(c.nickname));
            if a.nickname == c.nickname {
                lemma_lex_antisymmetric(codes(a.nickname), codes(b.nickname));
                lemma_codes_injective(a.nickname, b.nickname);
            }
        }
    }
    assert forall|a: IdentityView, b: IdentityView| #[trigger] leq(a, b) || #[trigger] leq(b, a) by {
        lemma_lex_total(codes(a.member_id), codes(b.member_id));
        lemma_lex_total(codes(a.nickname), codes(b.nickname));
    }
}

impl Ordered for MemberIdentity {
    type Key = IdentityView;

    open spec fn key(&self) -> IdentityView {
        self@
    }

    open spec fn order() -> spec_fn(IdentityView, IdentityView) -> bool {
        member_order()
    }

    proof fn order_is_total() {
        lemma_member_order_total();
    }

    fn at_most(&self, other: &Self) -> (leq: bool) {
        if same_text(self.nickname.as_str(), other.nickname.as_str()) {
            self.member_id.at_most(&other.member_id)
        } else {
            self.nickname.at_most(&other.nickname)
        }
    }
}

/// The members of a room, as a set.
pub open spec fn identities(members: Map<Seq<char>, Seq<char>>) -> Set<IdentityView> {
    members.dom().map(|id: Seq<char>| IdentityView { member_id: id, nickname: members[id] })
}

/// The members of a room in the order in which they are listed.
pub open spec fn roster(members: Map<Seq<char>, Seq<char>>) -> Seq<IdentityView> {
    identities(members).to_sorted_seq(member_order())
}

/// The line that lists the members of a room.
pub fn broadcast_member_list(info: &RoomInfo) -> (line: String)
    requires
        info.members.wf(),
    ensures
        line@ == member_list_line(roster(info@.members)),
{
    let ghost entries = info.members.entries@;
    let ghost m = info@.members;
    let mut members: Vec<MemberIdentity> = Vec::new();
    let mut i: usize = 0;
    while i < info.members.entries.len()
        invariant
            i <= entries.len(),
            entries == info.members.entries@,
            members@.len() == i,
            forall|k: int|
                0 <= k < i ==> (#[trigger] members@[k])@ == (IdentityView {
                    member_id: entries[k].0@,
                    nickname: entries[k].1@,
                }),
        decreases entries.len() - i,
    {
        members.push(
            MemberIdentity {
                member_id: info.members.entries[i].0.clone(),
                nickname: info.members.entries[i].1.clone(),
            },
        );
        i += 1;
    }
    let ghost listed = keys_of(members@);
    proof {
        lemma_entry_ids(entries);
        lemma_member_order_total();
        let f = |id: Seq<char>| IdentityView { member_id: id, nickname: m[id] };
        assert(m.dom() =~= info.members.map().dom());
        m.dom().lemma_map_finite(f);
        assert forall|a: int, b: int|
            0 <= a < listed.len() && 0 <= b < listed.len() && a != b implies listed[a]
            != listed[b] by {
            assert(entry_ids(entries)[a] == entries[a].0@);
            assert(entry_ids(entries)[b] == entries[b].0@);
            assert(listed[a] == members@[a]@);
            assert(listed[b] == members@[b]@);
        }
        assert forall|x: IdentityView| listed.to_set().contains(x) == identities(m).contains(x) by {
            if listed.to_set().contains(x) {
                let k = choose|k: int| 0 <= k < listed.len() && listed[k] == x;
                lemma_entry_value(entries, k);
                assert(listed[k] == members@[k]@);
                assert(m.dom().contains(entries[k].0@));
                assert(f(entries[k].0@) == x);
            }
            if identities(m).contains(x) {
                let id = choose|id: Seq<char>| m.dom().contains(id) && #[trigger] f(id) == x;
                assert(info.members.map().dom().contains(id));
                assert(entry_ids(entries).to_set().contains(id));
                let k = choose|k: int|
                    0 <= k < entry_ids(entries).len() && entry_ids(entries)[k] == id;
                lemma_entry_value(entries, k);
                assert(listed[k] == members@[k]@);
                assert(listed[k] == x);
            }
        }
        assert(listed.to_set() =~= identities(m));
        lemma_sorted_distinct(listed, identities(m), member_order());
    }
    let sorted = sort_by_key(members);
    assert(identity_views(sorted@) =~= keys_of(sorted@));
    build_member_list_line(sorted.as_slice())
}

/// The line that greets a member.
pub fn joined_line(nickname: &str) -> (line: String)
    ensures
        line@ == "⚡ ["@ + nickname@ + "] joined."@,
{
    let mut line = joined("⚡ [", nickname);
    line.append("] joined.");
    line
}

/// The line that sees a member off.
pub fn left_line(nickname: &str) -> (line: String)
    ensures
        line@ == "⚡ ["@ + nickname@ + "] left."@,
{
    let mut line = joined("⚡ [", nickname);
    line.append("] left.");
    line
}

/// A new room, owned by the one who creates it.
pub open spec fn new_room(
    join_credential: Seq<char>,
    member_id: Seq<char>,
    nickname: Seq<char>,
    capability: Seq<char>,
) -> RoomView {
    RoomView {
        join_credential,
        members: Map::empty().insert(member_id, nickname),
        owner_member_id: Some(member_id),
        owner_capability: Some(capability),
    }
}

/// Creates a room whose owner gets a given capability.
pub fn create_room_with(
    rooms: &mut Rooms,
    room_id: String,
    join_credential: String,
    member_id: String,
    nickname: String,
    owner_capability: String,
) -> (out: Result<(), &'static str>)
    requires
        rooms_wf(old(rooms)),
    ensures
        rooms_wf(final(rooms)),
        match out {
            Ok(_) => !room_views(old(rooms)).contains_key(room_id@) && room_views(final(rooms))
                == room_views(old(rooms)).insert(
                room_id@,
                new_room(join_credential@, member_id@, nickname@, owner_capability@),
            ),
            Err(e) => room_views(old(rooms)).contains_key(room_id@) && *final(rooms) == *old(rooms)
                && e@ == "RoomExists"@,
        },
{
    if rooms.contains_key(room_id.as_str()) {
        return Err("RoomExists");
    }
    let mut members: IdMap<String> = IdMap::new();
    let ghost id = member_id@;
    let ghost name = nickname@;
    members.insert(member_id.clone(), nickname);
    assert(view_map(members.map()) =~= Map::empty().insert(id, name));
    let info = RoomInfo {
        join_credential,
        members,
        owner_member_id: Some(member_id),
        owner_capability: Some(owner_capability),
    };
    let ghost key = room_id@;
    let ghost room = info@;
    rooms.insert(room_id, info);
    assert(room_views(rooms) =~= room_views(old(rooms)).insert(key, room));
    Ok(())
}

/// Creates a room. Its owner gets a fresh capability.
pub fn create_room(
    rooms: &mut Rooms,
    room_id: String,
    join_credential: String,
    member_id: String,
    nickname: String,
) -> (out: Result<String, &'static str>)
    requires
        rooms_wf(old(rooms)),
    ensures
        rooms_wf(final(rooms)),
        match out {
            Ok(cap) => !room_views(old(rooms)).contains_key(room_id@) && room_views(final(rooms))
                == room_views(old(rooms)).insert(
                room_id@,
                new_room(join_credential@, member_id@, nickname@, cap@),
            ) && cap@.len() == 32 && alphanumeric(cap@),
            Err(e) => room_views(old(rooms)).contains_key(room_id@) && *final(rooms) == *old(rooms)
                && e@ == "RoomExists"@,
        },
{
    let owner_capability = random_alphanumeric(32);
    match create_room_with(
        rooms,
        room_id,
        join_credential,
        member_id,
        nickname,
        owner_capability.clone(),
    ) {
        Ok(_) => Ok(owner_capability),
        Err(e) => Err(e),
    }
}

/// A room with one more member.
pub open spec fn with_member(
    room: RoomView,
    member_id: Seq<char>,
    nickname: Seq<char>,
) -> RoomView {
    RoomView { members: room.members.insert(member_id, nickname), ..room }
}

/// Joins a room with its credential.
pub fn join_room(
    rooms: &mut Rooms,
    room_id: &str,
    join_credential: &str,
    member_id: String,
    nickname: String,
) -> (out: Result<(), &'static str>)
    requires
        rooms_wf(old(rooms)),
    ensures
        rooms_wf(final(rooms)),
        ({
            let m = room_views(old(rooms));
            match out {
                Ok(_) => m.contains_key(room_id@) && m[room_id@].join_credential
                    == join_credential@ && room_views(final(rooms)) == m.insert(
                    room_id@,
                    with_member(m[room_id@], member_id@, nickname@),
                ),
                Err(e) => *final(rooms) == *old(rooms) && if m.contains_key(room_id@) {
                    m[room_id@].join_credential != join_credential@ && e@ == "BadCredential"@
                } else {
                    e@ == "NoSuchRoom"@
                },
            }
        }),
{
    match rooms.get(room_id) {
        Some(info) => {
            if !same_text(info.join_credential.as_str(), join_credential) {
                return Err("BadCredential");
            }
        },
        None => {
            return Err("NoSuchRoom");
        },
    }
    if add_invited_member(rooms, room_id, member_id, nickname) {
        Ok(())
    } else {
        Err("NoSuchRoom")
    }
}

/// Adds a member to a room, when there is such a room.
pub fn add_invited_member(
    rooms: &mut Rooms,
    room_id: &str,
    member_id: String,
    nickname: String,
) -> (added: bool)
    requires
        rooms_wf(old(rooms)),
    ensures
        rooms_wf(final(rooms)),
        added == room_views(old(rooms)).contains_key(room_id@),
        if added {
            room_views(final(rooms)) == room_views(old(rooms)).insert(
                room_id@,
                with_member(room_views(old(rooms))[room_id@], member_id@, nickname@),
            )
        } else {
            *final(rooms) == *old(rooms)
        },
{
    let ghost m = room_views(rooms);
    let ghost id = member_id@;
    let ghost name = nickname@;
    match rooms.get_mut(room_id) {
        Some(info) => {
            let ghost before = view_map(info.members.map());
            info.members.insert(member_id, nickname);
            assert(view_map(info.members.map()) =~= before.insert(id, name));
            let ghost after = *info;
            assert(after@ == with_member(m[room_id@], id, name));
            assert(room_views(rooms) =~= m.insert(room_id@, after@));
            true
        },
        None => false,
    }
}

/// A room without one of its members. An owner who leaves owns it no more.
pub open spec fn without_member(room: RoomView, member_id: Seq<char>) -> RoomView {
    RoomView {
        members: room.members.remove(member_id),
        owner_member_id: if room.owner_member_id == Some(member_id) {
            None
        } else {
            room.owner_member_id
        },
        owner_capability: if room.owner_member_id == Some(member_id) {
            None
        } else {
            room.owner_capability
        },
        ..room
    }
}

/// The rooms after a member has left one. A room without members is gone.
pub open spec fn left(m: RoomsView, room_id: Seq<char>, member_id: Seq<char>) -> RoomsView {
    if !m.contains_key(room_id) {
        m
    } else if without_member(m[room_id], member_id).members == Map::<Seq<char>, Seq<char>>::empty() {
        m.remove(room_id)
    } else {
        m.insert(room_id, without_member(m[room_id], member_id))
    }
}

/// Someone's stay in a room.
#[derive(Debug)]
pub struct RoomGuard {
    pub room_id: String,
    pub member_id: String,
    pub nickname: String,
}

impl RoomGuard {
    /// Ends the stay: the line that lists those who remain, when the room was still there.
    pub fn leave(&self, rooms: &mut Rooms) -> (line: Option<String>)
        requires
            rooms_wf(old(rooms)),
        ensures
            rooms_wf(final(rooms)),
            room_views(final(rooms)) == left(
                room_views(old(rooms)),
                self.room_id@,
                self.member_id@,
            ),
            match line {
                Some(l) => room_views(old(rooms)).contains_key(self.room_id@) && l@
                    == member_list_line(
                    roster(
                        room_views(old(rooms))[self.room_id@].members.remove(self.member_id@),
                    ),
                ),
                None => !room_views(old(rooms)).contains_key(self.room_id@),
            },
    {
        let ghost m = room_views(rooms);
        let ghost key = self.room_id@;
        let room_id = self.room_id.as_str();
        let (line, empty) = match rooms.get_mut(room_id) {
            None => {
                return None;
            },
            Some(info) => {
                let ghost before = view_map(info.members.map());
                info.members.remove(self.member_id.as_str());
                assert(view_map(info.members.map()) =~= before.remove(self.member_id@));
                let owner_left = match &info.owner_member_id {
                    Some(owner) => same_text(owner.as_str(), self.member_id.as_str()),
                    None => false,
                };
                if owner_left {
                    info.owner_member_id = None;
                    info.owner_capability = None;
                }
                let ghost after = *info;
                assert(after@ == without_member(m[key], self.member_id@));
                let line = broadcast_member_list(info);
                let empty = info.members.is_empty();
                proof {
                    if empty {
                        assert(after@.members =~= Map::<Seq<char>, Seq<char>>::empty());
                    } else if after@.members == Map::<Seq<char>, Seq<char>>::empty() {
                        assert(after.members.map() =~= Map::<Seq<char>, String>::empty()) by {
                            assert forall|x: Seq<char>| !after.members.map().contains_key(x) by {
                                assert(!after@.members.contains_key(x));
                            }
                        }
                    }
                }
                assert(room_views(rooms) =~= m.insert(key, after@));
                (line, empty)
            },
        };
        if empty {
            let ghost mid = room_views(rooms);
            rooms.remove(room_id);
            assert(room_views(rooms) =~= mid.remove(key));
            assert(room_views(rooms) =~= m.remove(key));
        }
        Some(line)
    }
}

/// Every room has a member; it has an owner just when it has a capability, and the owner is one of
/// its members.
pub open spec fn rooms_sound(m: RoomsView) -> bool {
    forall|id: Seq<char>|
        m.contains_key(id) ==> {
            let room = #[trigger] m[id];
            &&& room.members != Map::<Seq<char>, Seq<char>>::empty()
            &&& room.owner_member_id is Some <==> room.owner_capability is Some
            &&& room.owner_member_id matches Some(owner) ==> room.members.contains_key(owner)
        }
}

/// Creating, joining and leaving keep the rooms sound.
pub proof fn law_rooms_stay_sound(
    m: RoomsView,
    room_id: Seq<char>,
    credential: Seq<char>,
    member_id: Seq<char>,
    nickname: Seq<char>,
    capability: Seq<char>,
)
    requires
        rooms_sound(m),
    ensures
        rooms_sound(m.insert(room_id, new_room(credential, member_id, nickname, capability))),
        m.contains_key(room_id) ==> rooms_sound(
            m.insert(room_id, with_member(m[room_id], member_id, nickname)),
        ),
        rooms_sound(left(m, room_id, member_id)),
{
    let fresh = new_room(credential, member_id, nickname, capability);
    assert(fresh.members.contains_key(member_id));
    if m.contains_key(room_id) {
        let more = with_member(m[room_id], member_id, nickname);
        assert(more.members.contains_key(member_id));
        let next = m.insert(room_id, more);
        assert forall|id: Seq<char>| next.contains_key(id) implies {
            let room = #[trigger] next[id];
            &&& room.members != Map::<Seq<char>, Seq<char>>::empty()
            &&& room.owner_member_id is Some <==> room.owner_capability is Some
            &&& room.owner_member_id matches Some(owner) ==> room.members.contains_key(owner)
        } by {
            if id != room_id {
                assert(m.contains_key(id));
                assert(m[id] == next[id]);
            } else {
                assert(m[id].owner_member_id == next[id].owner_member_id);
            }
        }
    }
}

/// When the last member leaves, the room is gone.
pub proof fn law_last_leave_deletes_room(m: RoomsView, room_id: Seq<char>, member_id: Seq<char>)
    requires
        m.contains_key(room_id),
        m[room_id].members.dom() == Set::empty().insert(member_id),
    ensures
        !left(m, room_id, member_id).contains_key(room_id),
{
    assert(m[room_id].members.remove(member_id) =~= Map::<Seq<char>, Seq<char>>::empty());
}

/// When the owner leaves, nobody owns the room.
pub proof fn law_owner_leaving_ends_ownership(
    m: RoomsView,
    room_id: Seq<char>,
    member_id: Seq<char>,
)
    requires
        m.contains_key(room_id),
        m[room_id].owner_member_id == Some(member_id),
        left(m, room_id, member_id).contains_key(room_id),
    ensures
        left(m, room_id, member_id)[room_id].owner_member_id is None,
        left(m, room_id, member_id)[room_id].owner_capability is None,
{
}

/// Leaving undoes joining, for someone who was not a member before.
pub proof fn law_leave_undoes_join(
    m: RoomsView,
    room_id: Seq<char>,
    member_id: Seq<char>,
    nickname: Seq<char>,
)
    requires
        rooms_sound(m),
        m.contains_key(room_id),
        !m[room_id].members.contains_key(member_id),
    ensures
        left(
            m.insert(room_id, with_member(m[room_id], member_id, nickname)),
            room_id,
            member_id,
        ) == m,
{
    let room = m[room_id];
    let more = with_member(room, member_id, nickname);
    assert(more.members.remove(member_id) =~= room.members);
    assert(without_member(more, member_id) =~= room);
    assert(m.insert(room_id, more).insert(room_id, room) =~= m);
}

/// Whoever leaves a room, owner or not, changes nothing else about it: it keeps its credential, the
/// others stay in it under their nicknames, and it is there as long as one of them is. Someone who
/// does not own it leaves it to its owner. No other room is touched.
pub proof fn law_leaving_changes_nothing_else(
    m: RoomsView,
    room_id: Seq<char>,
    member_id: Seq<char>,
    other: Seq<char>,
    elsewhere: Seq<char>,
)
    requires
        m.contains_key(room_id),
    ensures
        ({
            let after = left(m, room_id, member_id);
            &&& other != member_id && m[room_id].members.contains_key(other) ==> {
                &&& after.contains_key(room_id)
                &&& after[room_id].members.contains_key(other)
                &&& after[room_id].members[other] == m[room_id].members[other]
            }
            &&& after.contains_key(room_id) ==> {
                &&& after[room_id].join_credential == m[room_id].join_credential
                &&& after[room_id].members == m[room_id].members.remove(member_id)
                &&& m[room_id].owner_member_id != Some(member_id) ==> {
                    &&& after[room_id].owner_member_id == m[room_id].owner_member_id
                    &&& after[room_id].owner_capability == m[room_id].owner_capability
                }
            }
            &&& elsewhere != room_id ==> (after.contains_key(elsewhere) <==> m.contains_key(
                elsewhere,
            ))
            &&& elsewhere != room_id && m.contains_key(elsewhere) ==> after[elsewhere]
                == m[elsewhere]
        }),
{
    if other != member_id && m[room_id].members.contains_key(other) {
        assert(m[room_id].members.remove(member_id).contains_key(other));
    }
}

/// Whoever joins a room is in it under the given nickname, and changes nothing else about it.
pub proof fn law_joining_changes_nothing_else(
    room: RoomView,
    member_id: Seq<char>,
    nickname: Seq<char>,
    other: Seq<char>,
)
    requires
        other != member_id,
    ensures
        ({
            let after = with_member(room, member_id, nickname);
            &&& after.members.contains_key(member_id)
            &&& after.members[member_id] == nickname
            &&& after.members.contains_key(other) <==> room.members.contains_key(other)
            &&& room.members.contains_key(other) ==> after.members[other] == room.members[other]
            &&& after.join_credential == room.join_credential
            &&& after.owner_member_id == room.owner_member_id
            &&& after.owner_capability == room.owner_capability
        }),
{
}

/// A new room can be joined with the credential it was made with; the one who made it is in it alone
/// and owns it by the capability.
pub proof fn law_new_room_belongs_to_its_maker(
    credential: Seq<char>,
    member_id: Seq<char>,
    nickname: Seq<char>,
    capability: Seq<char>,
    id: Seq<char>,
)
    ensures
        ({
            let room = new_room(credential, member_id, nickname, capability);
            &&& room.join_credential == credential
            &&& room.members.contains_key(id) <==> id == member_id
            &&& room.members[member_id] == nickname
            &&& room.owner_member_id == Some(member_id)
            &&& room.owner_capability == Some(capability)
        }),
{
}

/// The list of a room names each of its members once, under the nickname it has there, and no one
/// else; nicknames come in ascending order.
pub proof fn law_list_names_the_members(members: Map<Seq<char>, Seq<char>>)
    requires
        members.dom().finite(),
    ensures
        forall|i: int|
            0 <= i < roster(members).len() ==> members.contains_key(
                (#[trigger] roster(members)[i]).member_id,
            ) && members[roster(members)[i].member_id] == roster(members)[i].nickname,
        forall|id: Seq<char>| #[trigger]
            members.contains_key(id) ==> exists|i: int|
                0 <= i < roster(members).len() && (#[trigger] roster(members)[i]).member_id == id,
        forall|i: int, j: int|
            0 <= i < j < roster(members).len() ==> (#[trigger] roster(members)[i]).member_id != (
            #[trigger] roster(members)[j]).member_id && str_leq(
                roster(members)[i].nickname,
                roster(members)[j].nickname,
            ),
{
    let f = |id: Seq<char>| IdentityView { member_id: id, nickname: members[id] };
    let s = identities(members);
    members.dom().lemma_map_finite(f);
    let t = s.to_seq();
    let r = roster(members);
    let leq = member_order();
    lemma_member_order_total();
    s.lemma_to_seq_to_set_id();
    crate::util::order::lemma_to_seq_distinct(s);
    lemma_sorted_distinct(t, s, leq);
    t.lemma_sort_by_ensures(leq);
    t.lemma_multiset_has_no_duplicates();
    r.lemma_multiset_has_no_duplicates_conv();
    broadcast use {
        vstd::multiset::group_multiset_axioms,
        vstd::seq_lib::to_multiset_contains,
    };

    assert forall|x: IdentityView| #[trigger] r.contains(x) <==> s.contains(x) by {
        assert(r.to_multiset().count(x) == t.to_multiset().count(x));
        assert(t.to_set().contains(x) <==> t.contains(x));
    }
    assert forall|i: int| 0 <= i < r.len() implies members.contains_key(
        (#[trigger] r[i]).member_id,
    ) && members[r[i].member_id] == r[i].nickname by {
        assert(r.contains(r[i]));
        let id = choose|id: Seq<char>| members.dom().contains(id) && #[trigger] f(id) == r[i];
    }
    assert forall|id: Seq<char>| #[trigger] members.contains_key(id) implies exists|i: int|
        0 <= i < r.len() && (#[trigger] r[i]).member_id == id by {
        assert(s.contains(f(id)));
        assert(r.contains(f(id)));
        let i = choose|i: int| 0 <= i < r.len() && r[i] == f(id);
        assert(r[i].member_id == id);
    }
    assert forall|i: int, j: int| 0 <= i < j < r.len() implies (#[trigger] r[i]).member_id != (
    #[trigger] r[j]).member_id && str_leq(r[i].nickname, r[j].nickname) by {
        assert(leq(r[i], r[j]));
        assert(r[i] != r[j]);
        if r[i].nickname == r[j].nickname {
            lemma_lex_reflexive(codes(r[i].nickname));
        }
    }
}

} // verus!
