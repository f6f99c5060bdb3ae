use mistv::attachments::sender::{
    initialize_memory_attachment_job, is_done, process_attachment_meta, scan_attachment_window,
    take_up_chunk, wants_chunk, MetaStep,
};
use mistv::attachments::store::AttachmentStore;
use mistv::client::app::trigger_phase2_actions;
use mistv::client::drain::{drain_line, settle_write, ChatState, DrainEnv};
use mistv::client::handshake::{
    accept_invite, answer_auth_challenge, answer_invite_challenge, auth_hello, check_auth_response,
    finish_invite, finish_join, invite_hello, join_request, read_invitation, read_rooms,
    ready_request, HandshakeError, JoinAction, RoomSession,
};
use mistv::client::network::{
    begin_invite_request, finish_invite_request, incoming_line, outgoing_line, InviteRegistry,
    Outgoing,
};
use mistv::client::receiver::ChatMessage;
use mistv::crypto::handshake::pwd_hash;
use mistv::crypto::room::RoomCryptoState;
use mistv::crypto::transport::{TransportCrypto, TransportSide};
use mistv::protocol::attachment::AttachmentKind;
use mistv::protocol::invite::{build_invite_ok_line, build_session_ok_line};
use mistv::protocol::local_event::{build_local_invite_request_line, parse_local_ui_event, LocalUiEvent};
use mistv::server::broadcast::{delivered_line, ServerEvent};
use mistv::server::connection::{
    auth_challenge, begin_invite, check_password_proof, client_hello, fresh_plain,
    invite_challenge, invite_proof_step, invite_ready_step, parse_join_command, random_member_id,
    random_nonce32, room_line_step, rooms_line, timestamp, ClientHello, ProofCheck, RoomHandshake,
};
use mistv::server::invite::Invites;
use mistv::server::room::{broadcast_member_list, joined_line, no_rooms, Rooms};
use mistv::transport::packet::{seal_packet, AckRegistry};
use mistv::util::id_map::IdMap;

struct Seat {
    transport: TransportCrypto,
    member: RoomHandshake,
}

struct Server {
    hash: [u8; 32],
    rooms: Rooms,
    invites: Invites,
    seats: Vec<Seat>,
}

struct Client {
    seat: usize,
    transport: TransportCrypto,
    acks: AckRegistry,
    invites: InviteRegistry,
    chat: ChatState,
    owner_capability: Option<String>,
}

impl Server {
    fn new(password: &str) -> Server {
        Server {
            hash: pwd_hash(password),
            rooms: no_rooms(),
            invites: IdMap::new(),
            seats: Vec::new(),
        }
    }

    fn seat(&mut self, mut transport: TransportCrypto, member: RoomHandshake) -> (usize, String) {
        let ok = transport.seal(&build_session_ok_line(
            &member.member_id,
            member.owner_capability.as_deref(),
        ));
        self.seats.push(Seat { transport, member });
        (self.seats.len() - 1, ok)
    }

    fn broadcast(&mut self, room_id: &str, source: Option<&str>, plain: &str) -> Vec<(usize, String)> {
        let mut out = Vec::new();
        for (i, seat) in self.seats.iter_mut().enumerate() {
            if seat.member.room_id != room_id {
                continue;
            }
            let event = ServerEvent::Plain {
                source_member_id: source.map(|s| s.to_string()),
                plain: plain.to_string(),
            };
            if let Some(line) = delivered_line(event, &seat.member.member_id) {
                out.push((i, seat.transport.seal(&line)));
            }
        }
        out
    }

    fn greet(&mut self, seat: usize) -> Vec<(usize, String)> {
        let room_id = self.seats[seat].member.room_id.clone();
        let joined = joined_line(&self.seats[seat].member.nickname);
        let members = broadcast_member_list(self.rooms.get(&room_id).unwrap());
        let newcomer = self.seats[seat].member.member_id.clone();
        let mut out = self.broadcast(&room_id, Some(&newcomer), &joined);
        out.extend(self.broadcast(&room_id, None, &members));
        out
    }

    fn take(&mut self, seat: usize, line: &str) -> Vec<(usize, String)> {
        let place = &mut self.seats[seat];
        let outcome = room_line_step(
            &self.rooms,
            &mut self.invites,
            &mut place.transport,
            &place.member,
            line,
            timestamp(),
        );
        let mut out = Vec::new();
        for reply in &outcome.replies {
            out.push((seat, place.transport.seal(reply)));
        }
        if let Some((_, ServerEvent::Plain { source_member_id, plain })) = outcome.broadcast {
            let room_id = place.member.room_id.clone();
            out.extend(self.broadcast(&room_id, source_member_id.as_deref(), &plain));
        }
        out
    }
}

fn password_login(server: &Server, password: &str) -> Result<(TransportCrypto, TransportCrypto), HandshakeError> {
    let client_nonce = random_nonce32();
    let server_nonce = random_nonce32();
    let hello = client_hello(&auth_hello(&client_nonce));
    assert_eq!(hello, ClientHello::Password { client_nonce });
    let (proof_line, mut client) = answer_auth_challenge(
        &auth_challenge(&server_nonce),
        &pwd_hash(password),
        &client_nonce,
    )?;
    match check_password_proof(&proof_line, &server.hash, &client_nonce, &server_nonce) {
        ProofCheck::Right(key) => {
            let mut end = TransportCrypto::new(key, TransportSide::Server);
            check_auth_response(&mut client, &end.seal("OK"))?;
            Ok((client, end))
        }
        _ => {
            check_auth_response(&mut client, "ERR AuthFailed")?;
            panic!("a refused client must not get in");
        }
    }
}

fn client_of(session: RoomSession, transport: TransportCrypto, seat: usize, name: &str) -> Client {
    Client {
        seat,
        transport,
        acks: AckRegistry::new(),
        invites: InviteRegistry::new(),
        chat: ChatState::new(
            name.to_string(),
            session.group_crypto,
            AttachmentStore::new_in("/tmp/room".to_string()),
        ),
        owner_capability: session.owner_capability,
    }
}

fn connect(
    server: &mut Server,
    clients: &mut Vec<Client>,
    password: &str,
    nickname: &str,
    room_id: &str,
    credential: &str,
    action: JoinAction,
) -> Result<(), HandshakeError> {
    let (mut client, mut end) = password_login(server, password)?;
    let rooms = read_rooms(&mut client, &end.seal(&rooms_line(&server.rooms)))?;
    assert_eq!(rooms.len(), server.rooms.len());
    let room = RoomCryptoState::from_room_credential(room_id, credential);
    let command_line = join_request(&mut client, &room, action, nickname)?;
    let command = fresh_plain(&mut end, &command_line).expect("command should open");
    let member = match parse_join_command(&mut server.rooms, &command) {
        Ok(Some(member)) => member,
        other => {
            let answer = end.seal(&format!("ERR {other:?}"));
            finish_join(&mut client, &answer, &room, action, nickname)?;
            panic!("a refused client must not get in");
        }
    };
    let (seat, ok) = server.seat(end, member);
    let session = finish_join(&mut client, &ok, &room, action, nickname)?;
    clients.push(client_of(session, client, seat, nickname));
    let lines = server.greet(seat);
    deliver(server, clients, lines);
    Ok(())
}

fn deliver(server: &mut Server, clients: &mut Vec<Client>, lines: Vec<(usize, String)>) {
    let mut queue = lines;
    while !queue.is_empty() {
        let (seat, line) = queue.remove(0);
        let Some(client) = clients.iter_mut().find(|c| c.seat == seat) else {
            continue;
        };
        let shown = incoming_line(&mut client.transport, &mut client.acks, &mut client.invites, &line);
        let Some(plain) = shown else { continue };
        let env = DrainEnv::fresh();
        let outcome = drain_line(&mut client.chat, &plain, &env);
        settle_write(&mut client.chat, None);
        if outcome.phase2_action_needed {
            for line in trigger_phase2_actions(&mut client.chat.group) {
                queue.extend(say_to(server, client, &line));
            }
        }
    }
}

fn say_to(server: &mut Server, client: &mut Client, text: &str) -> Vec<(usize, String)> {
    let id = random_member_id();
    match outgoing_line(&mut client.chat.group, text, false, &id, timestamp()) {
        Outgoing::Send { packet_id, payload, echo } => {
            let line = seal_packet(&mut client.transport, &packet_id, &payload).unwrap();
            let out = server.take(client.seat, &line);
            if let Some(echo) = echo {
                let env = DrainEnv::fresh();
                drain_line(&mut client.chat, &echo, &env);
            }
            out
        }
        Outgoing::Invite(request) => {
            let payload = begin_invite_request(&mut client.invites, &request).unwrap();
            let line = seal_packet(&mut client.transport, &format!("msg-{id}"), &payload).unwrap();
            server.take(client.seat, &line)
        }
        other => panic!("unexpected: {other:?}"),
    }
}

fn say(server: &mut Server, clients: &mut Vec<Client>, who: usize, text: &str) {
    let lines = say_to(server, &mut clients[who], text);
    deliver(server, clients, lines);
}

fn has_text(client: &Client, needle: &str) -> bool {
    client.chat.messages.iter().any(|message| match message {
        ChatMessage::Text(body) => body.contains(needle),
        ChatMessage::Attachment { .. } => false,
    })
}

#[test]
fn clients_can_exchange_text_messages() {
    let password = "integration-pass";
    let mut server = Server::new(password);
    let mut clients = Vec::new();
    connect(&mut server, &mut clients, password, "alice", "room-a", "room-key", JoinAction::Create).unwrap();
    connect(&mut server, &mut clients, password, "bob", "room-a", "room-key", JoinAction::Join).unwrap();

    say(&mut server, &mut clients, 0, "hello bob");
    assert!(has_text(&clients[1], "hello bob"));
    say(&mut server, &mut clients, 1, "hello alice");
    assert!(has_text(&clients[0], "hello alice"));
    assert!(has_text(&clients[0], "hello bob"));
}

#[test]
fn clients_can_exchange_small_attachments() {
    let password = "integration-attachment-pass";
    let mut server = Server::new(password);
    let mut clients = Vec::new();
    connect(&mut server, &mut clients, password, "alice", "room-b", "room-key", JoinAction::Create).unwrap();
    connect(&mut server, &mut clients, password, "bob", "room-b", "room-key", JoinAction::Join).unwrap();

    let payload = b"small attachment payload".to_vec();
    let mut job = initialize_memory_attachment_job(
        "demo.txt".to_string(),
        payload.clone(),
        AttachmentKind::File,
    );
    let mut now_ms = 0u64;
    while !job.meta_sent {
        now_ms += 5;
        let alice = &mut clients[0];
        match process_attachment_meta(&mut job, &mut alice.acks, &mut alice.chat.group, now_ms, timestamp()).unwrap() {
            MetaStep::Send { packet_id, line } => {
                let sealed = seal_packet(&mut alice.transport, &packet_id, &line).unwrap();
                let lines = server.take(alice.seat, &sealed);
                deliver(&mut server, &mut clients, lines);
            }
            MetaStep::Acked | MetaStep::Wait => {}
        }
    }
    while !is_done(&job) {
        now_ms += 5;
        let scan = scan_attachment_window(&mut job, &mut clients[0].acks, now_ms);
        assert!(scan.error.is_none());
        while wants_chunk(&job) {
            let mut buf = vec![0u8; 32768];
            let read = job.source.read_chunk(&mut buf).unwrap();
            let (packet_id, line) = take_up_chunk(&mut job, &buf[..read], now_ms).unwrap();
            let alice = &mut clients[0];
            alice.acks.subscribe(&packet_id);
            let sealed = seal_packet(&mut alice.transport, &packet_id, &line).unwrap();
            let lines = server.take(alice.seat, &sealed);
            deliver(&mut server, &mut clients, lines);
        }
    }

    let bob = &mut clients[1].chat;
    let attachment_id = bob
        .messages
        .iter()
        .rev()
        .find_map(|message| match message {
            ChatMessage::Attachment { attachment_id, .. } => Some(attachment_id.clone()),
            ChatMessage::Text(_) => None,
        })
        .expect("receiver should have an attachment");
    let item = bob.store.next_unwritten().expect("attachment should be stored");
    bob.store.add_record(item.attachment_id, "/tmp/room/x".to_string(), item.display_name);
    let opened = bob.store.decrypt_attachment(&attachment_id, &item.encoded).unwrap();
    assert_eq!(opened, payload);
}

#[test]
fn wrong_server_password_is_rejected() {
    let mut server = Server::new("integration-right-pass");
    let mut clients = Vec::new();
    let result = connect(
        &mut server,
        &mut clients,
        "integration-wrong-pass",
        "alice",
        "room-c",
        "",
        JoinAction::Join,
    );
    assert!(result.is_err());
}

#[test]
fn wrong_room_credential_is_rejected() {
    let mut server = Server::new("pass");
    let mut clients = Vec::new();
    connect(&mut server, &mut clients, "pass", "alice", "room-a", "room-key", JoinAction::Create).unwrap();
    let result = connect(&mut server, &mut clients, "pass", "bob", "room-a", "other", JoinAction::Join);
    assert!(matches!(result, Err(HandshakeError::RefusedJoin(line)) if line.contains("BadCredential")));
}

fn use_invitation(server: &mut Server, clients: &mut Vec<Client>, invite: &str, nickname: &str) -> Result<(), HandshakeError> {
    let target = read_invitation(invite)?;
    let client_nonce = random_nonce32();
    let server_nonce = random_nonce32();
    let ClientHello::Invite { token_id, client_nonce: seen } =
        client_hello(&invite_hello(&target, &client_nonce))
    else {
        panic!("hello should be an invite");
    };
    let Some(start) = begin_invite(&mut server.invites, token_id, seen, server_nonce, timestamp()) else {
        answer_invite_challenge("ERR InviteInvalid", &target, &client_nonce)?;
        panic!("a refused client must not get in");
    };
    let (proof_line, mut client) =
        answer_invite_challenge(&invite_challenge(&server_nonce), &target, &client_nonce)?;
    let ProofCheck::Right(key) =
        invite_proof_step(&mut server.invites, &start, Some(&proof_line), timestamp())
    else {
        panic!("proof should be right");
    };
    let mut end = TransportCrypto::new(key, TransportSide::Server);
    let ok = end.seal(&build_invite_ok_line(&start.room_id, &start.blob_b64));
    let room = accept_invite(&mut client, &ok, &target)?;
    let ready = ready_request(&mut client, nickname)?;
    let member = invite_ready_step(
        &mut server.rooms,
        &mut server.invites,
        &mut end,
        &start,
        Some(&ready),
        random_member_id(),
        timestamp(),
    )
    .expect("invite should be ready")
    .expect("nickname should be read");
    let (seat, ok) = server.seat(end, member);
    let session = finish_invite(&mut client, &ok, &room, nickname)?;
    clients.push(client_of(session, client, seat, nickname));
    let lines = server.greet(seat);
    deliver(server, clients, lines);
    Ok(())
}

#[test]
fn invite_code_can_be_used_once() {
    let password = "integration-invite-pass";
    let room_credential = "invite-room-key";
    let mut server = Server::new(password);
    let mut clients = Vec::new();
    connect(&mut server, &mut clients, password, "alice", "room-invite", room_credential, JoinAction::Create).unwrap();

    let capability = clients[0].owner_capability.clone().expect("owner capability should exist for inviter");
    let request = build_local_invite_request_line("127.0.0.1:6655", "room-invite", room_credential, &capability);
    say(&mut server, &mut clients, 0, &request);
    let request_id = clients[0].invites.pending.ids()[0].clone();
    let notice = finish_invite_request(&mut clients[0].invites, &request_id, true).expect("invite should be emitted to owner");
    let Some(LocalUiEvent::Notice(invite)) = parse_local_ui_event(&notice) else {
        panic!("invite should be a notice");
    };

    use_invitation(&mut server, &mut clients, &invite, "bob").unwrap();
    assert!(clients[1].chat.members.iter().any(|member| member.nickname == "alice"));
    say(&mut server, &mut clients, 1, "hello alice");
    assert!(has_text(&clients[0], "hello alice"));

    let second_use = use_invitation(&mut server, &mut clients, &invite, "carol");
    assert!(matches!(second_use, Err(HandshakeError::InviteRefused)));
}
