use mistv::client::handshake::{
    accept_invite, answer_auth_challenge, answer_invite_challenge, auth_hello, check_auth_response,
    finish_invite, finish_join, invite_hello, join_request, read_invitation, read_rooms,
    ready_request, InviteTarget, JoinAction,
};
use mistv::client::network::{
    begin_invite_request, finish_invite_request, incoming_line, outgoing_line, InviteRegistry,
    Outgoing,
};
use mistv::client::drain::{drain_messages, ChatState};
use mistv::client::receiver::{ChatMessage, DRAIN_BATCH_LIMIT};
use mistv::attachments::store::AttachmentStore;
use mistv::crypto::handshake::pwd_hash;
use mistv::crypto::room::RoomCryptoState;
use mistv::crypto::transport::{TransportCrypto, TransportSide};
use mistv::protocol::invite::{build_invite_hello_line, build_invite_proof_line};
use mistv::protocol::local_event::{build_local_invite_request_line, build_local_notice_line, parse_local_ui_event, LocalUiEvent};
use mistv::protocol::member::{build_member_list_line, MemberIdentity};
use mistv::server::broadcast::{BroadcastPriority, ServerEvent};
use mistv::server::invite::Invites;
use mistv::server::room::{no_rooms, Rooms};
use mistv::server::session::{
    end_session, seal_for_client, session_event, session_line, Chances, Reply, Session, SessionStep,
};
use mistv::transport::packet::{seal_packet, AckRegistry};
use mistv::util::id_map::IdMap;

const NOW: i64 = 1_000_000;

struct Server {
    hash: [u8; 32],
    rooms: Rooms,
    invites: Invites,
}

impl Server {
    fn new() -> Server {
        Server { hash: pwd_hash("pw"), rooms: no_rooms(), invites: IdMap::new() }
    }

    fn step(&mut self, session: &mut Session, line: &str) -> SessionStep {
        self.step_at(session, line, NOW)
    }

    fn step_at(&mut self, session: &mut Session, line: &str, now: i64) -> SessionStep {
        let before = std::mem::replace(session, Session::Fresh);
        let (next, step) = session_line(
            before,
            &mut self.rooms,
            &mut self.invites,
            &self.hash,
            line,
            Chances::fresh(),
            now,
        );
        *session = next;
        step
    }
}

fn raw(step: &SessionStep) -> String {
    assert_eq!(step.replies.len(), 1);
    match &step.replies[0] {
        Reply::Raw(line) => line.clone(),
        Reply::Sealed(_) => panic!("expected a raw reply"),
    }
}

fn sealed(session: &mut Session, step: &SessionStep, i: usize) -> String {
    match &step.replies[i] {
        Reply::Sealed(line) => seal_for_client(session, line).expect("a key is there"),
        Reply::Raw(_) => panic!("expected a sealed reply"),
    }
}

fn plain_reply(step: &SessionStep) -> String {
    assert_eq!(step.replies.len(), 1);
    match &step.replies[0] {
        Reply::Sealed(line) => line.clone(),
        Reply::Raw(_) => panic!("expected a sealed reply"),
    }
}

fn logged_in(server: &mut Server) -> (Session, TransportCrypto) {
    let mut session = Session::Fresh;
    let nonce = [7u8; 32];
    let challenge = raw(&server.step(&mut session, &auth_hello(&nonce)));
    let (proof, mut client) = answer_auth_challenge(&challenge, &server.hash, &nonce).unwrap();
    let step = server.step(&mut session, &proof);
    assert_eq!(step.replies.len(), 2);
    check_auth_response(&mut client, &sealed(&mut session, &step, 0)).unwrap();
    let rooms = read_rooms(&mut client, &sealed(&mut session, &step, 1)).unwrap();
    assert_eq!(rooms.len(), server.rooms.len());
    (session, client)
}

struct Seat {
    session: Session,
    client: TransportCrypto,
    chat: ChatState,
    capability: Option<String>,
}

fn in_room(server: &mut Server, nickname: &str, action: JoinAction) -> Seat {
    let (mut session, mut client) = logged_in(server);
    let room = RoomCryptoState::from_room_credential("room", "key");
    let command = join_request(&mut client, &room, action, nickname).unwrap();
    let step = server.step(&mut session, &command);
    assert!(step.entered);
    let ok = sealed(&mut session, &step, 0);
    let joined = finish_join(&mut client, &ok, &room, action, nickname).unwrap();
    let chat = ChatState::new(
        nickname.to_string(),
        joined.group_crypto,
        AttachmentStore::new_in("/tmp/room".to_string()),
    );
    Seat { session, client, chat, capability: joined.owner_capability }
}

#[test]
fn first_line_must_be_a_handshake() {
    let mut server = Server::new();
    let mut session = Session::Fresh;
    let step = server.step(&mut session, "hello");
    assert_eq!(raw(&step), "ERR NeedHandshake");
    assert!(session.is_over());
    assert!(!step.failed);
    let after = server.step(&mut session, "hello");
    assert!(after.replies.is_empty() && !after.failed);
    assert!(session.is_over());
}

#[test]
fn bad_hexadecimal_ends_a_connection_without_an_answer() {
    let mut server = Server::new();
    let mut session = Session::Fresh;
    let step = server.step(&mut session, "/AUTH_HELLO zz");
    assert!(step.failed && step.replies.is_empty());
    assert!(session.is_over());

    let mut session = Session::Fresh;
    raw(&server.step(&mut session, &auth_hello(&[1u8; 32])));
    let step = server.step(&mut session, "/AUTH_PROOF 00");
    assert!(step.failed && step.replies.is_empty());
    assert!(session.is_over());
}

#[test]
fn password_proof_is_needed_and_must_be_right() {
    let mut server = Server::new();
    let mut session = Session::Fresh;
    let challenge = raw(&server.step(&mut session, &auth_hello(&[1u8; 32])));
    assert!(challenge.starts_with("/AUTH_CHALLENGE "));
    assert_eq!(raw(&server.step(&mut session, "CREATE room key alice")), "ERR NeedAuthProof");
    assert!(session.is_over());

    let mut session = Session::Fresh;
    let challenge = raw(&server.step(&mut session, &auth_hello(&[1u8; 32])));
    let (proof, _) = answer_auth_challenge(&challenge, &pwd_hash("other"), &[1u8; 32]).unwrap();
    assert_eq!(raw(&server.step(&mut session, &proof)), "ERR BadAuth");
    assert!(session.is_over());
    assert_eq!(server.rooms.len(), 0);
}

#[test]
fn command_that_does_not_open_is_refused() {
    let mut server = Server::new();
    let (mut session, _) = logged_in(&mut server);
    assert_eq!(plain_reply(&server.step(&mut session, "CREATE room key alice")), "ERR InvalidCmd");
    assert!(session.is_over());
    assert!(seal_for_client(&mut session, "ERR InvalidCmd").is_some());
}

#[test]
fn command_must_name_an_action_a_room_and_a_nickname() {
    let mut server = Server::new();
    let (mut session, mut client) = logged_in(&mut server);
    let line = client.seal("LEAVE room key alice");
    assert_eq!(plain_reply(&server.step(&mut session, &line)), "ERR UnknownAction");

    let (mut session, mut client) = logged_in(&mut server);
    let line = client.seal("CREATE room key");
    assert_eq!(plain_reply(&server.step(&mut session, &line)), "ERR InvalidCmd");

    let (mut session, mut client) = logged_in(&mut server);
    let line = client.seal("JOIN room key alice");
    assert_eq!(plain_reply(&server.step(&mut session, &line)), "ERR NoSuchRoom");
    assert_eq!(server.rooms.len(), 0);
}

#[test]
fn room_lives_as_long_as_someone_is_in_it() {
    let mut server = Server::new();
    let alice = in_room(&mut server, "alice", JoinAction::Create);
    let bob = in_room(&mut server, "bob", JoinAction::Join);
    assert!(alice.capability.is_some() && bob.capability.is_none());
    assert_eq!(alice.session.member().unwrap().nickname, "alice");
    assert_eq!(server.rooms.len(), 1);

    let (mut session, mut client) = logged_in(&mut server);
    let line = client.seal("CREATE room key carol");
    assert_eq!(plain_reply(&server.step(&mut session, &line)), "ERR RoomExists");

    let bob_id = bob.session.member().unwrap().member_id.clone();
    let left = end_session(&alice.session, &mut server.rooms, &mut server.invites, true, NOW);
    let bob_alone = MemberIdentity { member_id: bob_id, nickname: "bob".to_string() };
    assert_eq!(left.unwrap(), build_member_list_line(&[bob_alone]));
    assert_eq!(server.rooms.len(), 1);
    let left = end_session(&bob.session, &mut server.rooms, &mut server.invites, false, NOW);
    assert_eq!(left.unwrap(), "/member_list ");
    assert_eq!(server.rooms.len(), 0);
    assert!(end_session(&Session::Fresh, &mut server.rooms, &mut server.invites, true, NOW).is_none());
}

#[test]
fn talk_in_a_room_is_answered_and_passed_on() {
    let mut server = Server::new();
    let mut alice = in_room(&mut server, "alice", JoinAction::Create);
    let bob = in_room(&mut server, "bob", JoinAction::Join);

    let ping = alice.client.seal("/ping");
    let step = server.step(&mut alice.session, &ping);
    assert_eq!(plain_reply(&step), "/ping_ack");
    assert!(step.broadcast.is_none());

    let packet = seal_packet(&mut alice.client, "msg-1", "hello").unwrap();
    let step = server.step(&mut alice.session, &packet);
    assert_eq!(plain_reply(&step), "/ACK msg-1");
    let Some((BroadcastPriority::High, event)) = step.broadcast else {
        panic!("a message goes to the room first");
    };
    let ServerEvent::Plain { source_member_id, plain } = event;
    assert_eq!(plain, "[alice] hello");
    let again = ServerEvent::Plain { source_member_id: source_member_id.clone(), plain: plain.clone() };
    assert_eq!(session_event(&alice.session, again), None);
    let again = ServerEvent::Plain { source_member_id, plain };
    assert_eq!(session_event(&bob.session, again), Some("[alice] hello".to_string()));

    let repeated = server.step(&mut alice.session, &packet);
    assert_eq!(plain_reply(&repeated), "/ACK msg-1");
    assert!(repeated.broadcast.is_none());

    let silent = server.step(&mut alice.session, "not a sealed line");
    assert!(silent.replies.is_empty() && silent.broadcast.is_none());
    assert!(session_event(&Session::Fresh, ServerEvent::Plain { source_member_id: None, plain: "x".to_string() }).is_none());
}

fn invitation(server: &mut Server, alice: &mut Seat) -> InviteTarget {
    let request = build_local_invite_request_line(
        "127.0.0.1:6655",
        "room",
        "key",
        alice.capability.as_deref().unwrap(),
    );
    let Outgoing::Invite(request) = outgoing_line(&mut alice.chat.group, &request, false, "1", NOW) else {
        panic!("an invite is asked for");
    };
    let mut waiting = InviteRegistry::new();
    let payload = begin_invite_request(&mut waiting, &request).unwrap();
    let packet = seal_packet(&mut alice.client, "msg-2", &payload).unwrap();
    let step = server.step(&mut alice.session, &packet);
    assert_eq!(step.replies.len(), 2);
    let mut acks = AckRegistry::new();
    for i in 0..2 {
        let line = sealed(&mut alice.session, &step, i);
        assert!(incoming_line(&mut alice.client, &mut acks, &mut waiting, &line).is_none());
    }
    let id = waiting.pending.ids()[0].clone();
    let notice = finish_invite_request(&mut waiting, &id, true).unwrap();
    let Some(LocalUiEvent::Notice(text)) = parse_local_ui_event(&notice) else {
        panic!("the invitation is shown");
    };
    read_invitation(&text).unwrap()
}

#[test]
fn invited_client_enters_once() {
    let mut server = Server::new();
    let mut alice = in_room(&mut server, "alice", JoinAction::Create);
    let target = invitation(&mut server, &mut alice);
    let nonce = [9u8; 32];

    let mut session = Session::Fresh;
    let challenge = raw(&server.step(&mut session, &invite_hello(&target, &nonce)));
    assert!(challenge.starts_with("/INVITE_CHALLENGE "));
    let mut other = Session::Fresh;
    assert_eq!(raw(&server.step(&mut other, &invite_hello(&target, &nonce))), "ERR InviteInvalid");

    let (proof, mut client) = answer_invite_challenge(&challenge, &target, &nonce).unwrap();
    let step = server.step(&mut session, &proof);
    let room = accept_invite(&mut client, &sealed(&mut session, &step, 0), &target).unwrap();
    let ready = ready_request(&mut client, "bob").unwrap();
    let step = server.step(&mut session, &ready);
    assert!(step.entered);
    let ok = sealed(&mut session, &step, 0);
    assert!(finish_invite(&mut client, &ok, &room, "bob").is_ok());
    assert_eq!(session.member().unwrap().nickname, "bob");

    let mut late = Session::Fresh;
    assert_eq!(raw(&server.step(&mut late, &invite_hello(&target, &nonce))), "ERR InviteInvalid");
}

#[test]
fn failed_invite_can_be_tried_again() {
    let mut server = Server::new();
    let mut alice = in_room(&mut server, "alice", JoinAction::Create);
    let target = invitation(&mut server, &mut alice);
    let nonce = [9u8; 32];

    let mut session = Session::Fresh;
    raw(&server.step(&mut session, &invite_hello(&target, &nonce)));
    let wrong = build_invite_proof_line(&"00".repeat(32));
    assert_eq!(raw(&server.step(&mut session, &wrong)), "ERR InviteInvalid");
    assert!(session.is_over());

    let mut session = Session::Fresh;
    raw(&server.step(&mut session, &invite_hello(&target, &nonce)));
    assert_eq!(raw(&server.step(&mut session, "what")), "ERR NeedInviteProof");

    let mut session = Session::Fresh;
    raw(&server.step(&mut session, &invite_hello(&target, &nonce)));
    assert!(end_session(&session, &mut server.rooms, &mut server.invites, true, NOW).is_none());

    let mut session = Session::Fresh;
    let challenge = raw(&server.step(&mut session, &invite_hello(&target, &nonce)));
    let (proof, _) = answer_invite_challenge(&challenge, &target, &nonce).unwrap();
    server.step(&mut session, &proof);
    let step = server.step(&mut session, "no sealed name");
    assert!(session.is_over() && step.replies.is_empty() && !step.entered);

    let mut session = Session::Fresh;
    let unknown = build_invite_hello_line(&"11".repeat(32), &"22".repeat(32));
    assert_eq!(raw(&server.step(&mut session, &unknown)), "ERR InviteInvalid");

    let mut session = Session::Fresh;
    let step = server.step_at(&mut session, &invite_hello(&target, &nonce), NOW + 601);
    assert_eq!(raw(&step), "ERR InviteInvalid");
}

#[test]
fn invite_opens_no_room_that_is_gone() {
    let mut server = Server::new();
    let mut alice = in_room(&mut server, "alice", JoinAction::Create);
    let target = invitation(&mut server, &mut alice);
    let nonce = [3u8; 32];
    let mut session = Session::Fresh;
    let challenge = raw(&server.step(&mut session, &invite_hello(&target, &nonce)));
    let (proof, mut client) = answer_invite_challenge(&challenge, &target, &nonce).unwrap();
    let step = server.step(&mut session, &proof);
    accept_invite(&mut client, &sealed(&mut session, &step, 0), &target).unwrap();
    end_session(&alice.session, &mut server.rooms, &mut server.invites, true, NOW);
    let ready = ready_request(&mut client, "bob").unwrap();
    assert_eq!(plain_reply(&server.step(&mut session, &ready)), "ERR NoSuchRoom");
    assert!(session.is_over());
}

fn shown(chat: &ChatState, i: usize) -> &str {
    match &chat.messages[i] {
        ChatMessage::Text(text) => text,
        ChatMessage::Attachment { .. } => panic!("expected a text"),
    }
}

#[test]
fn waiting_lines_are_taken_in_batches() {
    let mut server = Server::new();
    let mut alice = in_room(&mut server, "alice", JoinAction::Create);
    let mut waiting: Vec<String> = (0..DRAIN_BATCH_LIMIT + 3).map(|i| format!("⚡ line {i}")).collect();
    let out = drain_messages(&mut alice.chat, &mut waiting);
    assert_eq!(waiting.len(), 3);
    assert_eq!(alice.chat.messages.len(), DRAIN_BATCH_LIMIT);
    assert_eq!(out.notifications, DRAIN_BATCH_LIMIT);
    assert!(!out.member_list_changed && !out.phase2_action_needed);
    assert!(shown(&alice.chat, 0).contains("line 0"));

    let out = drain_messages(&mut alice.chat, &mut waiting);
    assert!(waiting.is_empty());
    assert_eq!(out.notifications, 3);
    assert_eq!(alice.chat.messages.len(), DRAIN_BATCH_LIMIT + 3);
}

#[test]
fn batch_goes_on_after_a_line_of_this_machine() {
    let mut server = Server::new();
    let mut alice = in_room(&mut server, "alice", JoinAction::Create);
    let mut waiting: Vec<String> = vec!["ERR nothing".to_string(); DRAIN_BATCH_LIMIT - 1];
    waiting.push(build_local_notice_line("one"));
    waiting.push(build_local_notice_line("two"));
    waiting.push(build_member_list_line(&[MemberIdentity {
        member_id: "m1".to_string(),
        nickname: "alice".to_string(),
    }]));
    waiting.push(build_local_notice_line("three"));
    let out = drain_messages(&mut alice.chat, &mut waiting);
    assert_eq!(waiting, vec![build_local_notice_line("three")]);
    assert!(out.member_list_changed && out.phase2_action_needed);
    assert_eq!(out.notifications, 0);
    assert_eq!(alice.chat.members.len(), 1);
}

#[test]
fn client_side_key_does_not_open_its_own_lines() {
    let mut a = TransportCrypto::new([5u8; 32], TransportSide::Client);
    let mut b = TransportCrypto::new([5u8; 32], TransportSide::Client);
    let line = a.seal("hello");
    assert!(b.open(&line).is_none());
}
