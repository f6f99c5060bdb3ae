//! What entering a server and a room promises the client.
use crate::attachments::kind::{ascii_lower, ascii_lower_text};
use crate::client::handshake::{
    action_for, announced_rooms, auth_accepted, auth_answer, entered_group, fresh_text,
    invite_answer, invite_granted, invite_target, invited_room, join_granted, named_session,
    server_and_password, session_choice, ChoiceView, HandshakeErrorView, JoinAction,
};
use crate::client::input_laws::is_trim;
use crate::crypto::group::GroupView;
use crate::crypto::invite::{invitation_parts, invite_room};
use crate::crypto::room::{room_auth_key_of, RoomKeyView};
use crate::crypto::transport::{transport_opened, OpenView, TransportView};
use crate::outside::encoding::base64url_bytes;
use crate::outside::x25519::x25519_public;
use crate::protocol::invite::{invite_ok_parts, session_ok_parts};
use crate::util::codec::decoded_text;
use crate::util::text::{
    decimal, is_digit, is_white, lemma_char_pos_unique, lemma_decimal, lemma_parse_decimal,
    lemma_trimmed_same, parsed_unsigned, trimmed, words,
};
use vstd::prelude::*;

verus! {

/// The address and the password of a server are found where they were put; a text without the mark
/// between them is an address without a password.
pub proof fn law_server_and_password_are_found(addr: Seq<char>, password: Seq<char>)
    requires
        !addr.contains('&'),
    ensures
        server_and_password(addr + seq!['&'] + password) == (addr, password),
        server_and_password(addr) == (addr, Seq::<char>::empty()),
{
    let target = addr + seq!['&'] + password;
    assert forall|i: int| 0 <= i < addr.len() implies target[i] != '&' && addr[i] != '&' by {
        assert(addr.contains(addr[i]));
    }
    lemma_char_pos_unique(target, '&', addr.len() as int);
    lemma_char_pos_unique(addr, '&', addr.len() as int);
    assert(target.take(addr.len() as int) =~= addr);
    assert(target.skip(addr.len() as int + 1) =~= password);
    assert(addr.take(addr.len() as int) =~= addr);
}

/// Only the next line of the connection is heard.
pub proof fn law_only_the_next_line_is_heard(t: TransportView, line: Seq<char>)
    ensures
        fresh_text(t, line) is Some <==> (transport_opened(t, line).0 matches Some(
            OpenView::Fresh(_),
        )),
        transport_opened(t, line).0 matches Some(OpenView::Fresh(plain)) ==> fresh_text(t, line)
            == Some(plain),
        fresh_text(t, line) is None ==> auth_accepted(t, line) is Err && announced_rooms(
            t,
            line,
        ) is Err && join_granted(t, line) is Err && invite_granted(t, line) is Err
            && invited_room(t, line, Seq::empty()) is Err,
{
}

/// The server lets a client in with one word, and any other answer is told to the user.
pub proof fn law_server_lets_in_with_one_word(t: TransportView, line: Seq<char>)
    requires
        fresh_text(t, line) is Some,
    ensures
        ({
            let plain = fresh_text(t, line)->0;
            &&& auth_accepted(t, line) is Ok <==> trimmed(plain) == "OK"@
            &&& trimmed(plain) != "OK"@ ==> auth_accepted(t, line) == Err::<
                (),
                HandshakeErrorView,
            >(HandshakeErrorView::Declined(plain))
            &&& "ROOMS"@.is_prefix_of(plain) ==> announced_rooms(t, line) == Ok::<
                Seq<Seq<char>>,
                HandshakeErrorView,
            >(words(plain).skip(1))
            &&& !"ROOMS"@.is_prefix_of(plain) ==> announced_rooms(t, line) is Err
            &&& match session_ok_parts(plain) {
                Some(granted) => {
                    &&& join_granted(t, line) == Ok::<
                        (Seq<char>, Option<Seq<char>>),
                        HandshakeErrorView,
                    >(granted)
                    &&& granted.1 is None ==> invite_granted(t, line) == Ok::<
                        Seq<char>,
                        HandshakeErrorView,
                    >(granted.0)
                    &&& granted.1 is Some ==> invite_granted(t, line) is Err
                },
                None => join_granted(t, line) is Err && invite_granted(t, line) is Err,
            }
        }),
{
}

/// A refusal in place of a challenge is told to the user, and no proof is given.
pub proof fn law_refusal_gets_no_proof(
    line: Seq<char>,
    hash: Seq<u8>,
    secret: Seq<u8>,
    token_id: Seq<u8>,
    cn: Seq<u8>,
)
    requires
        "ERR "@.is_prefix_of(line),
    ensures
        auth_answer(line, hash, cn) is Err,
        invite_answer(line, secret, token_id, cn) is Err,
{
}

/// A guest learns the room from the blob that the server keeps, which only the key of the invitation
/// opens.
pub proof fn law_guest_learns_the_room(t: TransportView, line: Seq<char>, key_text: Seq<char>)
    requires
        fresh_text(t, line) is Some,
    ensures
        match invite_ok_parts(fresh_text(t, line)->0) {
            Some((_, blob)) => match invite_room(blob, key_text) {
                Some(room) => invited_room(t, line, key_text) == Ok::<
                    (Seq<char>, Seq<char>),
                    HandshakeErrorView,
                >(room),
                None => invited_room(t, line, key_text) is Err,
            },
            None => invited_room(t, line, key_text) is Err,
        },
{
}

/// Whoever creates a room begins its first epoch and has a chain to write on; whoever joins waits for an
/// epoch. Both are in the group of the room, alone at first, under their identifier and nickname, and
/// with the key by which the members of the room know each other.
pub proof fn law_creator_begins_the_first_epoch(
    g: GroupView,
    action: JoinAction,
    room: RoomKeyView,
    member_id: Seq<char>,
    nickname: Seq<char>,
    secret: Seq<u8>,
)
    requires
        entered_group(g, action, room, member_id, nickname, secret),
    ensures
        g.group_id == room.room_id,
        g.me == member_id,
        g.auth_key == room_auth_key_of(room.room_key),
        g.members.contains_key(member_id),
        g.members[member_id].nickname == nickname,
        g.members[member_id].x25519_public == Some(x25519_public(g.secret)),
        forall|id: Seq<char>| #[trigger] g.members.contains_key(id) ==> id == member_id,
        g.epoch == 0,
        g.pending is None,
        action == JoinAction::Create <==> g.sender is Some,
{
}

/// A session is joined where it is there, and created where it is not.
pub proof fn law_session_is_joined_or_created(rooms: Seq<Seq<char>>, id: Seq<char>)
    ensures
        rooms.contains(id) <==> action_for(rooms, id) == JoinAction::Join,
        !rooms.contains(id) <==> action_for(rooms, id) == JoinAction::Create,
{
}

/// Nothing typed is the public session; a number is the session of that place in the list and none
/// beyond it; one word leaves and others ask for a random name; any other text is the session's name.
pub proof fn law_session_is_chosen(id: Seq<char>, rooms: Seq<Seq<char>>, n: nat)
    ensures
        session_choice(Seq::empty(), rooms) == ChoiceView::Public(action_for(rooms, "Public"@)),
        1 <= n <= rooms.len() && n <= usize::MAX ==> named_session(decimal(n), rooms) == Some(
            rooms[n - 1],
        ),
        1 <= n <= rooms.len() && n <= usize::MAX && trimmed(rooms[n - 1]).len() > 0 && rooms[n - 1]
            != "Public"@ ==> session_choice(decimal(n), rooms) == (ChoiceView::Private {
            session_id: rooms[n - 1],
            action: JoinAction::Join,
        }),
        n > rooms.len() && 1 < n <= usize::MAX ==> session_choice(decimal(n), rooms) is Again,
        n == 0 && rooms.len() > 0 ==> named_session(decimal(n), rooms) == Some(rooms[0]),
        ascii_lower_text(id) == "/q"@ ==> session_choice(id, rooms) == ChoiceView::Leave,
        ascii_lower_text(id) == "new"@ ==> session_choice(id, rooms) == ChoiceView::Random,
        is_trim(id) && ascii_lower_text(id) != "/q"@ && ascii_lower_text(id) != "new"@ && id
            != "'"@ && id != "Public"@ && parsed_unsigned(id, usize::MAX as nat) is None
            ==> session_choice(id, rooms) == (ChoiceView::Private {
            session_id: id,
            action: action_for(rooms, id),
        }),
{
    reveal_strlit("/q");
    reveal_strlit("new");
    reveal_strlit("'");
    reveal_strlit("Public");
    let none = Seq::<char>::empty();
    assert(ascii_lower_text(none).len() == 0);
    assert(none.len() != "'"@.len());
    assert(!is_white('P') && !is_white('c'));
    lemma_trimmed_same("Public"@);
    lemma_decimal(n);
    let d = decimal(n);
    assert(is_digit(d[0]));
    assert(ascii_lower_text(d)[0] == ascii_lower(d[0]));
    assert(ascii_lower_text(d) != "/q"@ && ascii_lower_text(d) != "new"@ && d != "'"@) by {
        assert("/q"@[0] == '/' && "new"@[0] == 'n' && "'"@[0] == '\'');
    }
    if n <= usize::MAX {
        lemma_parse_decimal(n, usize::MAX as nat);
    }
    if 1 <= n <= rooms.len() {
        assert(rooms.contains(rooms[n - 1]));
    }
    if ascii_lower_text(id) == "new"@ {
        assert("new"@[0] != "/q"@[0]);
    }
    if is_trim(id) {
        lemma_trimmed_same(id);
    }
}

/// An invitation gives the server, the token and the key that were put into it; a text that is none
/// gives nothing.
pub proof fn law_invitation_is_read(
    server_text: Seq<char>,
    server: Seq<char>,
    token: Seq<char>,
    secret: Seq<u8>,
    key: Seq<char>,
)
    requires
        decoded_text(server_text) == Some(server),
        base64url_bytes(token) == Some(secret),
        !server_text.contains('.'),
        !token.contains('.'),
    ensures
        ({
            let text = "/INVITE:"@ + server_text + seq!['.'] + token + seq!['.'] + key;
            &&& invitation_parts(text) == Some((server, token, key))
            &&& invite_target(text) == Ok::<(Seq<char>, Seq<u8>, Seq<char>), HandshakeErrorView>(
                (server, secret, key),
            )
        }),
{
    let text = "/INVITE:"@ + server_text + seq!['.'] + token + seq!['.'] + key;
    let n = "/INVITE:"@.len() as int;
    assert("/INVITE:"@ =~= text.subrange(0, n));
    let raw = text.skip(n);
    assert(raw =~= server_text + seq!['.'] + token + seq!['.'] + key);
    let p = server_text.len() as int;
    assert forall|i: int| 0 <= i < p implies raw[i] != '.' by {
        assert(server_text.contains(server_text[i]));
    }
    lemma_char_pos_unique(raw, '.', p);
    assert(raw.take(p) =~= server_text);
    let rest = raw.skip(p + 1);
    assert(rest =~= token + seq!['.'] + key);
    let q = token.len() as int;
    assert forall|i: int| 0 <= i < q implies rest[i] != '.' by {
        assert(token.contains(token[i]));
    }
    lemma_char_pos_unique(rest, '.', q);
    assert(rest.take(q) =~= token);
    assert(rest.skip(q + 1) =~= key);
}

/// A text that does not begin as an invitation does is none, nor is one whose token is no token.
pub proof fn law_other_texts_are_no_invitations(text: Seq<char>)
    ensures
        !"/INVITE:"@.is_prefix_of(text) ==> invite_target(text) == Err::<
            (Seq<char>, Seq<u8>, Seq<char>),
            HandshakeErrorView,
        >(HandshakeErrorView::InvalidInvitation),
        invitation_parts(text) matches Some((_, token, _)) && base64url_bytes(token) is None
            ==> invite_target(text) == Err::<
            (Seq<char>, Seq<u8>, Seq<char>),
            HandshakeErrorView,
        >(HandshakeErrorView::InvalidToken),
{
}

} // verus!
