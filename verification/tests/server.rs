use mistv::server::broadcast::{delivered_line, packet_priority, BroadcastPriority, ServerEvent};
use mistv::server::connection::{
    auth_challenge, check_password_proof, client_hello, decode_hex_32, handle_invite_request_with,
    parse_join_command, parse_join_command_with, random_member_id, rooms_line, ClientHello,
    ProofCheck, RoomHandshake,
};
use mistv::server::invite::{
    begin_pending_invite, consume_invite_ready, insert_invite_token, normalize_invites,
    reset_invite_to_unused, InviteTokenInfo, InviteUseState, Invites,
};
use mistv::server::room::{
    add_invited_member, broadcast_member_list, create_room, create_room_with, join_room,
    joined_line, left_line, no_rooms, RoomGuard, Rooms,
};
use mistv::protocol::invite::{parse_invite_error_line, parse_invite_token_line, ServerInviteRequest};
use mistv::protocol::member::parse_member_list_line;
use mistv::transport::packet::{
    ack_timeout_text, next_send_step, should_drop_transport_control_message, AckRegistry, SendStep,
    PACKET_RETRY_LIMIT,
};
use mistv::util::id_map::IdMap;

fn invites() -> Invites {
    IdMap::new()
}

fn rooms() -> Rooms {
    no_rooms()
}

#[test]
fn attachment_packets_are_low_priority() {
    assert_eq!(packet_priority("att-abc-meta"), BroadcastPriority::Low);
    assert_eq!(packet_priority("att-abc-chunk-0"), BroadcastPriority::Low);
}

#[test]
fn text_packets_are_high_priority() {
    assert_eq!(packet_priority("msg-abc"), BroadcastPriority::High);
    assert_eq!(packet_priority("epoch-1"), BroadcastPriority::High);
}

#[test]
fn invite_token_is_single_use() {
    let mut invites = invites();
    insert_invite_token(
        &mut invites,
        "token-1".to_string(),
        "room-a".to_string(),
        1_000,
        "blob".to_string(),
        [7u8; 32],
    );

    let client_nonce = [1u8; 32];
    let server_nonce = [2u8; 32];
    assert!(
        begin_pending_invite(&mut invites, "token-1", client_nonce, server_nonce, 10).is_some()
    );
    assert!(consume_invite_ready(
        &mut invites,
        "token-1",
        &client_nonce,
        &server_nonce,
        11
    ));
    assert!(
        begin_pending_invite(&mut invites, "token-1", client_nonce, server_nonce, 12).is_none()
    );
}

#[test]
fn expired_tokens_are_removed() {
    let mut invites_map = IdMap::new();
    invites_map.insert(
        "token-1".to_string(),
        InviteTokenInfo {
            room_id: "room-a".to_string(),
            expires_at: 9,
            blob_b64: "blob".to_string(),
            token_secret: [0u8; 32],
            state: InviteUseState::Unused,
        },
    );

    normalize_invites(&mut invites_map, 10);
    assert!(invites_map.is_empty());
}

#[test]
fn pending_timeout_resets_to_unused() {
    let mut invites_map = IdMap::new();
    invites_map.insert(
        "token-1".to_string(),
        InviteTokenInfo {
            room_id: "room-a".to_string(),
            expires_at: 100,
            blob_b64: "blob".to_string(),
            token_secret: [0u8; 32],
            state: InviteUseState::Pending {
                client_nonce: [1u8; 32],
                server_nonce: [2u8; 32],
                pending_until: 9,
            },
        },
    );

    normalize_invites(&mut invites_map, 10);
    assert!(matches!(
        invites_map.get("token-1").map(|info| &info.state),
        Some(InviteUseState::Unused)
    ));
}

#[test]
fn a_token_serves_one_handshake_at_a_time() {
    let mut invites = invites();
    insert_invite_token(
        &mut invites,
        "token-1".to_string(),
        "room-a".to_string(),
        1_000,
        "blob".to_string(),
        [7u8; 32],
    );
    assert!(begin_pending_invite(&mut invites, "token-1", [1u8; 32], [2u8; 32], 10).is_some());
    assert!(begin_pending_invite(&mut invites, "token-1", [3u8; 32], [4u8; 32], 11).is_none());
    assert!(!consume_invite_ready(&mut invites, "token-1", &[3u8; 32], &[4u8; 32], 12));
    reset_invite_to_unused(&mut invites, "token-1", 13);
    assert_eq!(
        begin_pending_invite(&mut invites, "token-1", [3u8; 32], [4u8; 32], 14),
        Some(([7u8; 32], "room-a".to_string(), "blob".to_string()))
    );
    assert!(begin_pending_invite(&mut invites, "token-2", [3u8; 32], [4u8; 32], 15).is_none());
}

#[test]
fn create_room_succeeds_and_duplicate_fails() {
    let mut rooms = rooms();
    assert!(create_room(
        &mut rooms,
        "room-a".to_string(),
        "cred".to_string(),
        "alice-id".to_string(),
        "alice".to_string()
    )
    .is_ok());
    assert!(matches!(
        create_room(
            &mut rooms,
            "room-a".to_string(),
            "cred".to_string(),
            "bob-id".to_string(),
            "bob".to_string()
        ),
        Err("RoomExists")
    ));
}

#[test]
fn join_room_validates_credentials() {
    let mut rooms = rooms();
    let _ = create_room(
        &mut rooms,
        "room-a".to_string(),
        "cred".to_string(),
        "alice-id".to_string(),
        "alice".to_string(),
    )
    .unwrap();

    assert!(join_room(
        &mut rooms,
        "room-a",
        "cred",
        "bob-id".to_string(),
        "bob".to_string()
    )
    .is_ok());
    assert!(matches!(
        join_room(
            &mut rooms,
            "room-a",
            "wrong",
            "charlie-id".to_string(),
            "charlie".to_string()
        ),
        Err("BadCredential")
    ));
}

#[test]
fn last_member_drop_deletes_room_and_owner_state() {
    let mut rooms = rooms();
    let _ = create_room(
        &mut rooms,
        "room-a".to_string(),
        "cred".to_string(),
        "alice-id".to_string(),
        "alice".to_string(),
    )
    .unwrap();
    let _ = add_invited_member(&mut rooms, "room-a", "bob-id".to_string(), "bob".to_string());

    let guard = RoomGuard {
        room_id: "room-a".to_string(),
        member_id: "alice-id".to_string(),
        nickname: "alice".to_string(),
    };
    guard.leave(&mut rooms);

    {
        let info = rooms.get("room-a").expect("room should still exist for bob");
        assert!(info.owner_member_id.is_none());
        assert!(info.owner_capability.is_none());
    }

    let guard = RoomGuard {
        room_id: "room-a".to_string(),
        member_id: "bob-id".to_string(),
        nickname: "bob".to_string(),
    };
    guard.leave(&mut rooms);

    assert!(rooms.is_empty());
}

#[test]
fn rosters_are_sorted_by_nickname() {
    let mut rooms = rooms();
    let capability = create_room(
        &mut rooms,
        "room-a".to_string(),
        "cred".to_string(),
        "z".to_string(),
        "zoe".to_string(),
    )
    .unwrap();
    assert_eq!(capability.len(), 32);
    assert!(add_invited_member(&mut rooms, "room-a", "b".to_string(), "amy".to_string()));
    assert!(add_invited_member(&mut rooms, "room-a", "a".to_string(), "amy".to_string()));
    assert!(!add_invited_member(&mut rooms, "room-b", "a".to_string(), "amy".to_string()));
    let line = broadcast_member_list(rooms.get("room-a").unwrap());
    let members = parse_member_list_line(&line).unwrap();
    let ids: Vec<&str> = members.iter().map(|m| m.member_id.as_str()).collect();
    assert_eq!(ids, vec!["a", "b", "z"]);
    assert_eq!(joined_line("amy"), "⚡ [amy] joined.");
    assert_eq!(left_line("amy"), "⚡ [amy] left.");
}

#[test]
fn events_go_to_everyone_but_their_source() {
    let event = || ServerEvent::Plain {
        source_member_id: Some("alice-id".to_string()),
        plain: "[alice] hi".to_string(),
    };
    assert_eq!(delivered_line(event(), "alice-id"), None);
    assert_eq!(delivered_line(event(), "bob-id").as_deref(), Some("[alice] hi"));
    let all = ServerEvent::Plain { source_member_id: None, plain: "x".to_string() };
    assert_eq!(delivered_line(all, "alice-id").as_deref(), Some("x"));
}

#[test]
fn first_lines_are_told_apart() {
    let nonce = "ab".repeat(32);
    assert_eq!(
        client_hello(&format!("/AUTH_HELLO {nonce}\r")),
        ClientHello::Password { client_nonce: [0xab; 32] }
    );
    assert_eq!(
        client_hello(&format!("/INVITE_HELLO {} {nonce}", "cd".repeat(32))),
        ClientHello::Invite { token_id: [0xcd; 32], client_nonce: [0xab; 32] }
    );
    assert_eq!(client_hello("/AUTH_HELLO zz"), ClientHello::BadHex);
    assert_eq!(client_hello("hello"), ClientHello::Unknown);
    assert_eq!(decode_hex_32("ab"), None);
    assert_eq!(decode_hex_32(&nonce), Some([0xab; 32]));
    assert_eq!(auth_challenge(&[0xab; 32]), format!("/AUTH_CHALLENGE {nonce}"));
}

#[test]
fn proofs_are_judged() {
    let check = |line: &str| check_password_proof(line, &[1u8; 32], &[2u8; 32], &[3u8; 32]);
    assert_eq!(check("hello"), ProofCheck::Missing);
    assert_eq!(check("/AUTH_PROOF xyz"), ProofCheck::BadHex);
    assert_eq!(check(&format!("/AUTH_PROOF {}", "00".repeat(32))), ProofCheck::Wrong);
    let tag = mistv::crypto::handshake::compute_password_auth_proof(&[1u8; 32], &[2u8; 32], &[3u8; 32]);
    let key = mistv::crypto::handshake::derive_password_transport_key(&[1u8; 32], &[2u8; 32], &[3u8; 32]);
    assert_eq!(
        check(&format!("/AUTH_PROOF {}", hex::encode(tag))),
        ProofCheck::Right(key)
    );
}

#[test]
fn join_commands_need_four_words() {
    let mut rooms = rooms();
    assert_eq!(parse_join_command(&mut rooms, "LEAVE a b c").unwrap_err(), "UnknownAction");
    assert!(parse_join_command(&mut rooms, "CREATE a b").unwrap().is_none());
    assert_eq!(parse_join_command(&mut rooms, "JOIN a b c").unwrap_err(), "NoSuchRoom");
    let made = parse_join_command_with(
        &mut rooms,
        "CREATE a b c",
        "id-1".to_string(),
        "cap-1".to_string(),
    )
    .unwrap()
    .unwrap();
    assert_eq!(made.owner_capability.as_deref(), Some("cap-1"));
    assert_eq!(parse_join_command(&mut rooms, "CREATE a b c").unwrap_err(), "RoomExists");
    assert_eq!(parse_join_command(&mut rooms, "JOIN a x c").unwrap_err(), "BadCredential");
    let joined = parse_join_command(&mut rooms, "JOIN a b d").unwrap().unwrap();
    assert_eq!(joined.member_id.len(), 12);
    assert!(joined.owner_capability.is_none());
    assert_eq!(rooms_line(&rooms), "ROOMS a");
    assert_eq!(random_member_id().len(), 12);
}

#[test]
fn only_the_owner_gets_a_token() {
    let mut rooms = rooms();
    let mut invites = invites();
    create_room_with(
        &mut rooms,
        "room-a".to_string(),
        "cred".to_string(),
        "alice-id".to_string(),
        "alice".to_string(),
        "cap".to_string(),
    )
    .unwrap();
    let alice = RoomHandshake {
        room_id: "room-a".to_string(),
        member_id: "alice-id".to_string(),
        nickname: "alice".to_string(),
        owner_capability: Some("cap".to_string()),
    };
    let bob = RoomHandshake {
        room_id: "room-a".to_string(),
        member_id: "bob-id".to_string(),
        nickname: "bob".to_string(),
        owner_capability: None,
    };
    let request = |room: &str, cap: &str| ServerInviteRequest {
        request_id: "req-1".to_string(),
        room_id: room.to_string(),
        owner_capability: cap.to_string(),
        blob_b64: "blob".to_string(),
    };
    let reason = |line: String| parse_invite_error_line(&line).unwrap().1;
    let answer = handle_invite_request_with(
        &rooms, &mut invites, &alice, request("room-b", "cap"), [9u8; 32], 100,
    );
    assert_eq!(reason(answer), "RoomMismatch");
    let answer = handle_invite_request_with(
        &rooms, &mut invites, &bob, request("room-a", "cap"), [9u8; 32], 100,
    );
    assert_eq!(reason(answer), "OwnerOffline");
    let answer = handle_invite_request_with(
        &rooms, &mut invites, &alice, request("room-a", "cap2"), [9u8; 32], 100,
    );
    assert_eq!(reason(answer), "InviteNotAllowed");
    assert!(invites.is_empty());
    let answer = handle_invite_request_with(
        &rooms, &mut invites, &alice, request("room-a", "cap"), [9u8; 32], 100,
    );
    let (request_id, token, expires_at) = parse_invite_token_line(&answer).unwrap();
    assert_eq!(request_id, "req-1");
    assert_eq!(token.len(), 43);
    assert_eq!(expires_at, 700);
    assert_eq!(invites.len(), 1);
}

#[test]
fn ack_registry_lifecycle() {
    let mut registry = AckRegistry::default();
    registry.subscribe("packet-1");
    assert!(!registry.is_acked("packet-1"));
    registry.mark_acked("packet-1");
    assert!(registry.is_acked("packet-1"));
    registry.finish("packet-1");
    assert!(!registry.is_acked("packet-1"));
}

#[test]
fn send_with_ack_retries_expected_times() {
    let mut sent = 0usize;
    while next_send_step(sent, false) == SendStep::Send {
        sent += 1;
    }
    assert_eq!(next_send_step(sent, false), SendStep::GiveUp);
    assert_eq!(sent, PACKET_RETRY_LIMIT + 1);
    assert_eq!(next_send_step(1, true), SendStep::Done);
    assert!(ack_timeout_text("packet-1").contains("ACK timeout"));
}

#[test]
fn signs_of_life_are_not_shown() {
    assert!(should_drop_transport_control_message("/ping"));
    assert!(should_drop_transport_control_message("/ping_ack"));
    assert!(should_drop_transport_control_message("OK"));
    assert!(should_drop_transport_control_message("OK MEMBER x"));
    assert!(should_drop_transport_control_message("INVITE_OK a b"));
    assert!(!should_drop_transport_control_message("OKAY"));
}
