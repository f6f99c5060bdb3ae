use base64::engine::general_purpose::STANDARD;
use base64::Engine;
use chacha20poly1305::aead::{Aead, KeyInit, Payload};
use chacha20poly1305::{ChaCha20Poly1305, Key, Nonce};
use hkdf::Hkdf;
use hmac::{Hmac, Mac};
use mistv::crypto::aead::{chacha_open, chacha_seal};
use mistv::crypto::chain::{
    derive_chain_step, derive_sender_chain_key, derive_sender_chain_root, hkdf_expand_label,
};
use mistv::crypto::epoch::{
    canonical_bytes, compute_key_announce_mac, epoch_commit_context_hash, proposer_order,
    roster_hash, EpochCommitContext,
};
use mistv::crypto::error::CryptoError;
use mistv::crypto::group::GroupCryptoState;
use mistv::crypto::handshake::{
    compute_invite_proof, compute_password_auth_proof, derive_invite_transport_key,
    derive_password_transport_key,
};
use mistv::crypto::messages::{EpochEventType, SecureMessageType};
use mistv::crypto::room::RoomCryptoState;
use mistv::crypto::secure::{
    decrypt_message, decrypt_message_at, encrypt_message, encrypt_message_at,
    random_group_secret_epoch_0, random_test_epoch_secret,
};
use mistv::crypto::transport::{
    transport_direction_key, transport_nonce, TransportCrypto, TransportSide,
};
use sha2::{Digest, Sha256};
use x25519_dalek::{PublicKey, StaticSecret};

fn hkdf32(salt: Option<&[u8]>, secret: &[u8], info: &[u8]) -> [u8; 32] {
    let mut out = [0u8; 32];
    Hkdf::<Sha256>::new(salt, secret).expand(info, &mut out).unwrap();
    out
}

fn tag(key: &[u8], parts: &[&[u8]]) -> Vec<u8> {
    let mut mac = <Hmac<Sha256> as Mac>::new_from_slice(key).unwrap();
    for part in parts {
        mac.update(part);
    }
    mac.finalize().into_bytes().to_vec()
}

#[test]
fn chain_keys_are_derived_step_by_step() {
    let mut info = b"rust-chat sender-chain-root v1room-a".to_vec();
    info.extend_from_slice(&7u64.to_be_bytes());
    let root = derive_sender_chain_root(&[1u8; 32], "room-a", 7);
    assert_eq!(root, hkdf32(None, &[1u8; 32], &info));
    let key = derive_sender_chain_key(&root, "alice");
    assert_eq!(key, hkdf32(None, &root, b"rust-chat sender-chain v1alice"));
    let step = derive_chain_step(&key);
    assert_eq!(step.next_chain_key, hkdf32(None, &key, b"rust-chat chain-next v1"));
    assert_eq!(step.aead_key, hkdf32(None, &key, b"rust-chat chain-aead-key v1"));
    let nonce = hkdf32(None, &key, b"rust-chat chain-nonce v1");
    assert_eq!(step.nonce[..], nonce[..12]);
}

#[test]
fn labels_expand_up_to_the_limit() {
    let mut out = vec![0u8; 8160];
    assert_eq!(hkdf_expand_label(b"secret", Some(b"salt"), b"info", &mut out), Ok(()));
    let mut expected = vec![0u8; 8160];
    Hkdf::<Sha256>::new(Some(b"salt"), b"secret").expand(b"info", &mut expected).unwrap();
    assert_eq!(out, expected);
    let mut out = vec![3u8; 8161];
    assert_eq!(
        hkdf_expand_label(b"secret", None, b"info", &mut out),
        Err(CryptoError::HkdfExpand)
    );
    assert_eq!(out, vec![3u8; 8161]);
}

#[test]
fn room_secrets_come_from_the_room_key() {
    let room = RoomCryptoState::from_room_credential("room-a", "cred");
    let digest = md5::Md5::digest(b"room-acred");
    let mut key = digest.to_vec();
    key.extend_from_slice(&digest);
    assert_eq!(
        room.join_credential(),
        hex::encode(tag(&digest, &[b"rust-chat room-join-credential v1"]))
    );
    assert_eq!(
        room.room_auth_key(),
        hkdf32(Some(b"rust-chat room-auth-key v1"), &key, b"room-auth")
    );
}

#[test]
fn handshake_values_bind_both_nonces() {
    let (hash, cn, sn) = ([1u8; 32], [2u8; 32], [3u8; 32]);
    let salt = [cn, sn].concat();
    assert_eq!(
        derive_password_transport_key(&hash, &cn, &sn),
        hkdf32(Some(&salt), &hash, b"rust-chat password transport v1")
    );
    assert_eq!(
        compute_password_auth_proof(&hash, &cn, &sn)[..],
        tag(&hash, &[b"rust-chat auth proof v1", &cn, &sn])[..]
    );
    let salt = [[9u8; 32], cn, sn].concat();
    assert_eq!(
        derive_invite_transport_key(b"token", &[9u8; 32], &cn, &sn),
        hkdf32(Some(&salt), b"token", b"rust-chat invite transport v1")
    );
    assert_eq!(
        compute_invite_proof(b"token", &[9u8; 32], &cn, &sn)[..],
        tag(b"token", &[b"rust-chat invite proof v1", &[9u8; 32], &cn, &sn])[..]
    );
}

#[test]
fn transport_lines_hold_their_number_and_the_ciphertext() {
    let shared = [8u8; 32];
    let key = hkdf32(None, &shared, b"rust-chat transport c2s key v1");
    assert_eq!(transport_direction_key(&shared, "rust-chat transport c2s key v1"), key);
    let mut client = TransportCrypto::new(shared, TransportSide::Client);
    assert_eq!(client.send_key(), &key);
    client.seal("first");
    let line = client.seal("second");
    assert_eq!(transport_nonce(1), [0, 0, 0, 0, 0, 0, 0, 0, 0, 0, 0, 1]);
    let cipher = ChaCha20Poly1305::new(Key::from_slice(&key));
    let mut expected = 1u64.to_be_bytes().to_vec();
    expected.extend(cipher.encrypt(Nonce::from_slice(&transport_nonce(1)), b"second".as_ref()).unwrap());
    assert_eq!(line, STANDARD.encode(expected));
}

#[test]
fn sealing_is_the_cipher_with_its_associated_data() {
    let cipher = ChaCha20Poly1305::new(Key::from_slice(&[1u8; 32]));
    let expected = cipher
        .encrypt(Nonce::from_slice(&[2u8; 12]), Payload { msg: b"message", aad: b"data" })
        .unwrap();
    let sealed = chacha_seal(&[1u8; 32], &[2u8; 12], b"data", b"message").unwrap();
    assert_eq!(sealed, expected);
    assert_eq!(chacha_open(&[1u8; 32], &[2u8; 12], b"data", &sealed), Some(b"message".to_vec()));
    assert_eq!(chacha_open(&[1u8; 32], &[2u8; 12], b"other", &sealed), None);
    assert_eq!(chacha_open(&[1u8; 32], &[2u8; 12], b"data", &sealed[..15]), None);
}

#[test]
fn fields_are_told_apart_by_their_lengths() {
    let fields: Vec<&[u8]> = vec![b"ab", b"", b"c"];
    let mut expected = Vec::new();
    for field in &fields {
        expected.extend_from_slice(&(field.len() as u64).to_be_bytes());
        expected.extend_from_slice(field);
    }
    assert_eq!(canonical_bytes(&fields), expected);

    let mut data = b"rust-chat key-announce-mac v1".to_vec();
    data.extend(canonical_bytes(&vec![
        b"room-a".as_slice(),
        &3u64.to_be_bytes(),
        b"alice",
        &[5u8; 32],
        &[6u8; 16],
    ]));
    assert_eq!(
        compute_key_announce_mac(&[4u8; 32], "room-a", 3, "alice", &[5u8; 32], &[6u8; 16]),
        tag(&[4u8; 32], &[&data])
    );
}

#[test]
fn commits_are_bound_to_their_context_and_recipient() {
    let context = EpochCommitContext {
        group_id: "room-a".to_string(),
        old_epoch: 1,
        new_epoch: 2,
        event_type: EpochEventType::Leave,
        affected_member_id: "carol".to_string(),
        old_roster_hash: "aa".to_string(),
        new_roster_hash: "bb".to_string(),
        proposer_id: "alice".to_string(),
        proposer_attempt: 0,
    };
    let mut data = b"rust-chat epoch-commit-context v1".to_vec();
    data.extend(canonical_bytes(&vec![
        b"room-a".as_slice(),
        &1u64.to_be_bytes(),
        &2u64.to_be_bytes(),
        b"leave",
        b"carol",
        b"aa",
        b"bb",
        b"alice",
        &0u32.to_be_bytes(),
        b"bob",
    ]));
    assert_eq!(epoch_commit_context_hash(&context, "bob")[..], Sha256::digest(&data)[..]);
    assert_ne!(
        epoch_commit_context_hash(&context, "bob"),
        epoch_commit_context_hash(&context, "alice")
    );
}

#[test]
fn rosters_and_proposers_are_ordered_by_digests() {
    let names: Vec<String> = ["bob", "alice"].iter().map(|s| s.to_string()).collect();
    assert_eq!(roster_hash(&names), hex::encode(Sha256::digest(b"alice\0bob\0")));

    let rank = |candidate: &str| {
        let mut data = b"rust-chat proposer v1room-a".to_vec();
        data.extend_from_slice(&5u64.to_be_bytes());
        data.extend_from_slice(b"joincarol");
        data.extend_from_slice(candidate.as_bytes());
        Sha256::digest(&data).to_vec()
    };
    let mut expected = names.clone();
    expected.sort_by_key(|name| rank(name));
    assert_eq!(proposer_order("room-a", 5, EpochEventType::Join, "carol", &names), expected);
}

fn names(list: &[&str]) -> Vec<(String, String)> {
    list.iter().map(|n| (format!("{n}-id"), n.to_string())).collect()
}

fn alice_and_bob_in_epoch_one() -> (GroupCryptoState, GroupCryptoState, mistv::crypto::messages::EncryptedMessage) {
    let mut alice = GroupCryptoState::new_single_epoch(
        "room-a",
        "alice-id",
        "alice",
        0,
        random_group_secret_epoch_0(),
        [4u8; 32],
    )
    .unwrap();
    let mut bob =
        GroupCryptoState::new_pending_epoch("room-a", "bob-id", "bob", 0, [4u8; 32]).unwrap();
    alice.replace_members(names(&["alice"])).unwrap();
    let before = encrypt_message(&mut alice, SecureMessageType::Text, b"before").unwrap();
    alice.replace_members(names(&["alice", "bob"])).unwrap();
    bob.replace_members(names(&["alice", "bob"])).unwrap();
    assert_eq!(bob.apply_key_announce(&alice.local_key_announce()), Ok(true));
    assert_eq!(alice.apply_key_announce(&bob.local_key_announce()), Ok(true));
    let commit = alice.build_pending_epoch_commit().unwrap().expect("it is alice's turn");

    let mut carol =
        GroupCryptoState::new_pending_epoch("room-a", "carol-id", "carol", 0, [4u8; 32]).unwrap();
    assert!(commit.wrapped_secrets.iter().all(|w| w.recipient_id != "carol-id"));
    carol.replace_members(names(&["alice", "bob", "carol"])).unwrap();
    assert!(carol.apply_epoch_commit(&commit).is_err());

    assert_eq!(alice.apply_epoch_commit(&commit), Ok(true));
    assert_eq!(bob.apply_epoch_commit(&commit), Ok(true));
    (alice, bob, before)
}

#[test]
fn newcomer_cannot_read_what_was_said_before() {
    let (mut alice, mut bob, before) = alice_and_bob_in_epoch_one();
    assert_eq!(decrypt_message(&mut bob, &before), Err(CryptoError::EpochMismatch));
    let now = encrypt_message(&mut alice, SecureMessageType::Text, b"now").unwrap();
    assert_eq!(decrypt_message(&mut bob, &now).unwrap().plaintext, b"now");
}

#[test]
fn keys_change_with_the_epoch() {
    let (alice, bob, _) = alice_and_bob_in_epoch_one();
    let secret = StaticSecret::from(alice.current_x25519_secret_for_test());
    assert_eq!(alice.current_x25519_public(), PublicKey::from(&secret).as_bytes());
    assert_ne!(alice.current_x25519_public(), bob.current_x25519_public());
    assert_eq!(alice.epoch, 1);
    assert_eq!(bob.epoch, 1);
}

#[test]
fn ended_epoch_is_read_until_its_keys_expire() {
    let secret = random_test_epoch_secret();
    let build = |id: &str, name: &str| {
        let mut state =
            GroupCryptoState::new_single_epoch("room-a", id, name, 0, secret, [4u8; 32]).unwrap();
        state.replace_members(names(&["alice", "bob"])).unwrap();
        state.install_test_recv_chains_for_current_roster(secret).unwrap();
        state
    };
    let mut alice = build("alice-id", "alice");
    let mut bob = build("bob-id", "bob");
    let first = encrypt_message_at(&mut alice, SecureMessageType::Text, b"1", 1000).unwrap();
    let second = encrypt_message_at(&mut alice, SecureMessageType::Text, b"2", 1000).unwrap();
    bob.activate_epoch_with(1, [1u8; 32], 1000, [2u8; 32]);
    assert_eq!(decrypt_message_at(&mut bob, &first, 1299).unwrap().plaintext, b"1");
    assert_eq!(decrypt_message_at(&mut bob, &second, 1300), Err(CryptoError::EpochMismatch));
}
