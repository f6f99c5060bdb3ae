use mistv::crypto::chain::derive_chain_step;
use mistv::crypto::epoch::{proposer_candidates_for_event, proposer_order, roster_hash};
use mistv::crypto::error::CryptoError;
use mistv::crypto::group::{detect_roster_transition, GroupCryptoState};
use mistv::crypto::handshake::{
    compute_invite_proof, compute_invite_token_id, compute_password_auth_proof,
    derive_invite_transport_key, derive_password_transport_key, pwd_hash,
};
use mistv::crypto::invite::{
    create_invitation, create_invite_blob, create_invite_blob_with, open_invite_blob,
    parse_invitation,
};
use mistv::crypto::messages::{EncryptedMessage, EpochEventType, SecureMessageType};
use mistv::crypto::room::RoomCryptoState;
use mistv::crypto::safety::{
    compute_room_safety_code, compute_room_safety_state, safety_code_to_digits, SafetyMember,
    SafetyTranscript,
};
use mistv::crypto::secure::{
    decrypt_message, decrypt_message_at, encrypt_message, encrypt_message_at,
    random_group_secret_epoch_0,
};
use mistv::crypto::transport::{TransportCrypto, TransportOpenResult, TransportSide};
use mistv::protocol::member::MemberIdentity;
use sha2::{Digest, Sha256};

fn member(member_id: &str, nickname: &str) -> MemberIdentity {
    MemberIdentity {
        member_id: member_id.to_string(),
        nickname: nickname.to_string(),
    }
}

#[test]
fn safety_code_is_order_independent_for_same_members() {
    let transcript_a = SafetyTranscript::room_v0(
        "room-a",
        &[member("member-b", "Bob"), member("member-a", "Alice")],
    );
    let transcript_b = SafetyTranscript::room_v0(
        "room-a",
        &[member("member-a", "Alice"), member("member-b", "Bob")],
    );

    assert_eq!(
        compute_room_safety_code(&transcript_a),
        compute_room_safety_code(&transcript_b)
    );
}

#[test]
fn safety_code_changes_when_member_joins() {
    let transcript_a = SafetyTranscript::room_v0("room-a", &[member("member-a", "Alice")]);
    let transcript_b = SafetyTranscript::room_v0(
        "room-a",
        &[member("member-a", "Alice"), member("member-b", "Bob")],
    );

    assert_ne!(
        compute_room_safety_code(&transcript_a),
        compute_room_safety_code(&transcript_b)
    );
}

#[test]
fn safety_code_changes_when_member_leaves() {
    let transcript_a = SafetyTranscript::room_v0(
        "room-a",
        &[member("member-a", "Alice"), member("member-b", "Bob")],
    );
    let transcript_b = SafetyTranscript::room_v0("room-a", &[member("member-a", "Alice")]);

    assert_ne!(
        compute_room_safety_code(&transcript_a),
        compute_room_safety_code(&transcript_b)
    );
}

fn transcript_at(group_epoch: u64) -> SafetyTranscript {
    SafetyTranscript {
        protocol_version: "rust-chat-safety-v1".to_string(),
        room_id: "room-a".to_string(),
        group_epoch,
        members: vec![SafetyMember {
            member_id: "member-a".to_string(),
            nickname: Some("Alice".to_string()),
            identity_pubkey: None,
            x25519_pubkey: None,
        }],
        transcript_hash: Some(vec![1, 2, 3]),
    }
}

#[test]
fn safety_code_changes_when_group_epoch_changes() {
    assert_ne!(
        compute_room_safety_code(&transcript_at(7)),
        compute_room_safety_code(&transcript_at(8))
    );
}

#[test]
fn safety_code_changes_when_member_identity_changes() {
    let transcript_a = SafetyTranscript::room_v0("room-a", &[member("member-a", "Alice")]);
    let transcript_b = SafetyTranscript::room_v0("room-a", &[member("member-a", "Alice-2")]);
    let transcript_c = SafetyTranscript::room_v0("room-a", &[member("member-z", "Alice")]);

    assert_ne!(
        compute_room_safety_code(&transcript_a),
        compute_room_safety_code(&transcript_b)
    );
    assert_ne!(
        compute_room_safety_code(&transcript_a),
        compute_room_safety_code(&transcript_c)
    );
}

#[test]
fn safety_digits_are_stable_and_grouped() {
    let transcript = SafetyTranscript::room_v0(
        "room-a",
        &[member("member-a", "Alice"), member("member-b", "Bob")],
    );
    let code = compute_room_safety_code(&transcript);

    assert_eq!(safety_code_to_digits(&code.hash), code.digits());
    assert_eq!(code.digits().split(' ').count(), 6);
}

#[test]
fn safety_state_holds_the_code_of_its_transcript() {
    let code = compute_room_safety_code(&transcript_at(7));
    let state = compute_room_safety_state(transcript_at(7));
    assert_eq!(state.code, code);
    assert_eq!(state.transcript, transcript_at(7));
}

#[test]
fn test_room_cipher_round_trip() {
    let room_crypto = RoomCryptoState::from_room_credential("room-a", "room-password");
    let cipher = room_crypto.seal("hello room");
    assert!(cipher.starts_with("ENC:"));
    assert_eq!(room_crypto.open(&cipher).as_deref(), Some("hello room"));
}

#[test]
fn room_lines_do_not_open_elsewhere() {
    let room = RoomCryptoState::from_room_credential("room-a", "room-password");
    let other = RoomCryptoState::from_room_credential("room-a", "other");
    let cipher = room.seal("hello room");
    assert_eq!(other.open(&cipher), None);
    assert_eq!(room.open("ENC:AAAA"), None);
    assert_eq!(room.open("hello room"), None);
    assert_ne!(room.join_credential(), other.join_credential());
    assert_eq!(room.join_credential().len(), 64);
    assert_eq!(room.room_id(), "room-a");
    assert_eq!(room.room_credential(), "room-password");
    assert_ne!(room.placeholder_epoch_secret(), room.room_auth_key());
}

#[test]
fn room_keys_repeat_the_digest_of_name_and_credential() {
    let room = RoomCryptoState::from_room_credential("room-a", "room-password");
    let digest = md5::Md5::digest(b"room-aroom-password");
    assert_eq!(&room.room_key[..16], digest.as_slice());
    assert_eq!(&room.room_key[16..], digest.as_slice());
}

#[test]
fn test_invite_round_trip() {
    let (blob_b64, blob_key_b64) =
        create_invite_blob("room-a", "room-password").expect("invite blob should build");
    let invite = create_invitation("127.0.0.1:6655", "invite-token-123", &blob_key_b64)
        .expect("invite should build");

    let (server, token, parsed_blob_key) = parse_invitation(&invite).expect("invite should parse");
    let (room_id, room_credential) =
        open_invite_blob(&blob_b64, &parsed_blob_key).expect("invite blob should open");
    assert_eq!(server, "127.0.0.1:6655");
    assert_eq!(room_id, "room-a");
    assert_eq!(room_credential, "room-password");
    assert_eq!(token, "invite-token-123");
    assert_eq!(parsed_blob_key, blob_key_b64);
}

#[test]
fn broken_invitations_are_refused() {
    assert!(parse_invitation("INVITE:abc.def.ghi").is_none());
    assert!(parse_invitation("/INVITE:abc").is_none());
    assert!(parse_invitation("/INVITE:YQ.token").is_none());
    assert_eq!(
        parse_invitation("/INVITE:YQ.token.key.more"),
        Some(("a".to_string(), "token".to_string(), "key.more".to_string()))
    );
    let (blob, key) = create_invite_blob_with("room-a", "cred", &[1u8; 12], &[2u8; 16])
        .expect("invite blob should build");
    let (_, other) = create_invite_blob_with("room-a", "cred", &[1u8; 12], &[3u8; 16])
        .expect("invite blob should build");
    assert_eq!(
        open_invite_blob(&blob, &key),
        Some(("room-a".to_string(), "cred".to_string()))
    );
    assert_eq!(open_invite_blob(&blob, &other), None);
    assert_eq!(open_invite_blob(&blob, "AAAA"), None);
    assert_eq!(open_invite_blob("AAAA", &key), None);
}

#[test]
fn password_hashes_are_sha256() {
    assert_eq!(
        hex::encode(pwd_hash("abc")),
        "ba7816bf8f01cfea414140de5dae2223b00361a396177a9cb410ff61f20015ad"
    );
}

#[test]
fn handshake_keys_and_proofs_differ_by_their_parts() {
    let hash = pwd_hash("secret");
    let key = derive_password_transport_key(&hash, &[1u8; 32], &[2u8; 32]);
    assert_ne!(key, derive_password_transport_key(&hash, &[1u8; 32], &[3u8; 32]));
    assert_ne!(key, compute_password_auth_proof(&hash, &[1u8; 32], &[2u8; 32]));
    let token_id = compute_invite_token_id(b"token");
    assert_eq!(
        token_id.as_slice(),
        Sha256::digest(b"rust-chat token id v1token").as_slice()
    );
    assert_ne!(
        derive_invite_transport_key(b"token", &token_id, &[1u8; 32], &[2u8; 32]),
        compute_invite_proof(b"token", &token_id, &[1u8; 32], &[2u8; 32])
    );
}

#[test]
fn the_ends_of_a_connection_understand_each_other() {
    let mut client = TransportCrypto::new([5u8; 32], TransportSide::Client);
    let mut server = TransportCrypto::new([5u8; 32], TransportSide::Server);
    let first = client.seal("one");
    let second = client.seal("two");
    assert_eq!(server.open(&second), None);
    assert_eq!(
        server.open(&first),
        Some(TransportOpenResult::Fresh("one".to_string()))
    );
    assert_eq!(
        server.open(&second),
        Some(TransportOpenResult::Fresh("two".to_string()))
    );
    assert_eq!(
        server.open(&first),
        Some(TransportOpenResult::Duplicate("one".to_string()))
    );
    let answer = server.seal("three");
    assert_eq!(
        client.open(&answer),
        Some(TransportOpenResult::Fresh("three".to_string()))
    );
    assert_eq!(server.open(&answer), None);
    assert_eq!(server.open("not base64!"), None);
    assert_eq!(client.send_key(), server.recv_key());
}

#[test]
fn old_lines_fall_out_of_the_replay_window() {
    let mut client = TransportCrypto::new([5u8; 32], TransportSide::Client);
    let mut server = TransportCrypto::new([5u8; 32], TransportSide::Server);
    let first = client.seal("line");
    assert!(server.open(&first).is_some());
    for _ in 0..1023 {
        let line = client.seal("line");
        assert!(server.open(&line).is_some());
    }
    assert_eq!(
        server.open(&first),
        Some(TransportOpenResult::Duplicate("line".to_string()))
    );
    let line = client.seal("line");
    assert!(server.open(&line).is_some());
    assert_eq!(server.open(&first), None);
}

fn pair() -> (GroupCryptoState, GroupCryptoState) {
    let secret = random_group_secret_epoch_0();
    let mut alice =
        GroupCryptoState::new_single_epoch("room-a", "alice-id", "alice", 0, secret, [4u8; 32])
            .unwrap();
    let mut bob =
        GroupCryptoState::new_single_epoch("room-a", "bob-id", "bob", 0, secret, [4u8; 32]).unwrap();
    let members = || {
        vec![
            ("alice-id".to_string(), "alice".to_string()),
            ("bob-id".to_string(), "bob".to_string()),
        ]
    };
    alice.replace_members(members()).unwrap();
    bob.replace_members(members()).unwrap();
    alice.install_test_recv_chains_for_current_roster(secret).unwrap();
    bob.install_test_recv_chains_for_current_roster(secret).unwrap();
    (alice, bob)
}

#[test]
fn members_of_an_epoch_read_each_other() {
    let (mut alice, mut bob) = pair();
    let message = encrypt_message(&mut alice, SecureMessageType::Text, b"hello bob").unwrap();
    assert_ne!(message.ciphertext, b"hello bob");
    let opened = decrypt_message(&mut bob, &message).unwrap();
    assert_eq!(opened.plaintext, b"hello bob");
    assert_eq!(opened.header.sender_id, "alice-id");
}

#[test]
fn messages_may_overtake_each_other_but_open_once() {
    let (mut alice, mut bob) = pair();
    let messages: Vec<EncryptedMessage> = (0..3u8)
        .map(|n| encrypt_message(&mut alice, SecureMessageType::Text, &[n]).unwrap())
        .collect();
    assert_eq!(decrypt_message(&mut bob, &messages[2]).unwrap().plaintext, [2]);
    assert_eq!(decrypt_message(&mut bob, &messages[0]).unwrap().plaintext, [0]);
    assert_eq!(decrypt_message(&mut bob, &messages[1]).unwrap().plaintext, [1]);
    for message in &messages {
        assert!(decrypt_message(&mut bob, message).is_err());
    }
}

#[test]
fn skipped_keys_expire() {
    let (mut alice, mut bob) = pair();
    let first = encrypt_message_at(&mut alice, SecureMessageType::Text, b"1", 1000).unwrap();
    let second = encrypt_message_at(&mut alice, SecureMessageType::Text, b"2", 1000).unwrap();
    assert!(decrypt_message_at(&mut bob, &second, 1000).is_ok());
    assert!(decrypt_message_at(&mut bob, &first, 1000 + 301).is_err());
}

#[test]
fn too_many_skipped_messages_are_refused() {
    let (mut alice, mut bob) = pair();
    let mut last = encrypt_message(&mut alice, SecureMessageType::Text, b"0").unwrap();
    for _ in 0..65 {
        last = encrypt_message(&mut alice, SecureMessageType::Text, b"n").unwrap();
    }
    assert!(decrypt_message(&mut bob, &last).is_err());
}

#[test]
fn a_changed_message_is_refused() {
    let (mut alice, mut bob) = pair();
    let mut message = encrypt_message(&mut alice, SecureMessageType::Text, b"hello").unwrap();
    message.ciphertext[0] ^= 1;
    assert!(decrypt_message(&mut bob, &message).is_err());
    message.ciphertext[0] ^= 1;
    message.header.msg_type = SecureMessageType::KeyAnnounce;
    assert!(decrypt_message(&mut bob, &message).is_err());
    message.header.msg_type = SecureMessageType::Text;
    assert!(decrypt_message(&mut bob, &message).is_ok());
}

#[test]
fn one_who_waits_for_an_epoch_cannot_write() {
    let mut bob =
        GroupCryptoState::new_pending_epoch("room-a", "bob-id", "bob", 0, [4u8; 32]).unwrap();
    assert_eq!(
        encrypt_message(&mut bob, SecureMessageType::Text, b"hello").unwrap_err(),
        CryptoError::NoEpochSecret
    );
}

#[test]
fn a_join_is_committed_and_followed() {
    let mut alice = GroupCryptoState::new_single_epoch(
        "room-a",
        "alice-id",
        "alice",
        0,
        random_group_secret_epoch_0(),
        [4u8; 32],
    )
    .unwrap();
    let mut bob =
        GroupCryptoState::new_pending_epoch("room-a", "bob-id", "bob", 0, [4u8; 32]).unwrap();
    alice
        .replace_members(vec![("alice-id".to_string(), "alice".to_string())])
        .unwrap();
    let both = || {
        vec![
            ("alice-id".to_string(), "alice".to_string()),
            ("bob-id".to_string(), "bob".to_string()),
        ]
    };
    alice.replace_members(both()).unwrap();
    bob.replace_members(both()).unwrap();
    assert!(!alice.can_build_join_commit());
    assert_eq!(bob.apply_key_announce(&alice.local_key_announce()), Ok(true));
    let announce = bob.local_key_announce();
    assert_eq!(alice.apply_key_announce(&announce), Ok(true));
    assert_eq!(alice.apply_key_announce(&announce), Ok(false));
    assert!(alice.can_build_join_commit());
    let commit = alice.build_join_epoch_commit().unwrap().expect("it is alice's turn");
    assert_eq!(commit.event_type, EpochEventType::Join);
    assert_eq!((commit.old_epoch, commit.new_epoch), (0, 1));
    assert_eq!(alice.apply_epoch_commit(&commit), Ok(true));
    assert_eq!(bob.apply_epoch_commit(&commit), Ok(true));
    assert_eq!(bob.apply_epoch_commit(&commit), Ok(false));
    let message = encrypt_message(&mut bob, SecureMessageType::Text, b"hi").unwrap();
    assert_eq!(message.header.epoch, 1);
    assert_eq!(decrypt_message(&mut alice, &message).unwrap().plaintext, b"hi");
}

#[test]
fn a_forged_announcement_is_refused() {
    let (mut alice, bob) = pair();
    let mut announce = bob.local_key_announce();
    announce.mac[0] ^= 1;
    assert_eq!(alice.apply_key_announce(&announce), Err(CryptoError::AnnounceMac));
    let mut other = bob.local_key_announce();
    other.group_id = "room-b".to_string();
    assert_eq!(alice.apply_key_announce(&other), Err(CryptoError::AnnounceGroup));
}

#[test]
fn roster_hashes_ignore_order() {
    let a = roster_hash(&["alice".to_string(), "bob".to_string()]);
    let b = roster_hash(&["bob".to_string(), "alice".to_string()]);
    assert_eq!(a, b);
    assert_ne!(a, roster_hash(&["alice".to_string()]));
}

#[test]
fn proposers_are_ordered_alike_for_all() {
    let one = proposer_order(
        "room-a",
        0,
        EpochEventType::Join,
        "carol",
        &["alice".to_string(), "bob".to_string()],
    );
    let two = proposer_order(
        "room-a",
        0,
        EpochEventType::Join,
        "carol",
        &["bob".to_string(), "alice".to_string()],
    );
    assert_eq!(one, two);
    assert_eq!(one.len(), 2);
    assert_eq!(
        proposer_candidates_for_event(
            EpochEventType::Join,
            &["alice".to_string()],
            &["alice".to_string(), "bob".to_string()]
        ),
        vec!["alice".to_string()]
    );
}

#[test]
fn one_change_of_the_roster_is_one_event() {
    let names = |list: &[&str]| list.iter().map(|s| s.to_string()).collect::<Vec<_>>();
    let join = detect_roster_transition(names(&["a"]), names(&["a", "b"])).unwrap();
    assert_eq!(join.event_type, EpochEventType::Join);
    assert_eq!(join.affected_member_id, "b");
    let leave = detect_roster_transition(names(&["a", "b"]), names(&["a"])).unwrap();
    assert_eq!(leave.event_type, EpochEventType::Leave);
    assert!(detect_roster_transition(names(&["a"]), names(&["a"])).is_none());
}

#[test]
fn chain_steps_give_three_different_values() {
    let step = derive_chain_step(&[1u8; 32]);
    assert_ne!(step.next_chain_key, step.aead_key);
    assert_ne!(&step.aead_key[..12], &step.nonce[..]);
    let again = derive_chain_step(&[1u8; 32]);
    assert_eq!(step.next_chain_key, again.next_chain_key);
}
