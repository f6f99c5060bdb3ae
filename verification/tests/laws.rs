use base64::{engine::general_purpose::STANDARD, Engine};
use mistv::attachments::kind::infer_attachment_kind;
use mistv::attachments::receiver::{
    append_chunk, register_attachment, AttachmentReceiveEvent, AttachmentReceiveState,
};
use mistv::attachments::store::AttachmentStore;
use mistv::client::initialization::login_failed_text;
use mistv::client::keyboard::{new_request_id, paste, EditState, PasteAction, UndoMgr};
use mistv::client::network::{outgoing_line, outgoing_line_now, Outgoing};
use mistv::client::drain::{drain_messages, drain_more, settle_write, ChatState};
use mistv::client::receiver::{ChatMessage, TransferUiState};
use mistv::crypto::epoch::validate_epoch_commit;
use mistv::crypto::group::GroupCryptoState;
use mistv::crypto::messages::{EncryptedMessage, SecureMessageType};
use mistv::crypto::safety::{compute_room_safety_code, SafetyTranscript};
use mistv::crypto::secure::{decrypt_message_at, encrypt_message_at};
use mistv::crypto::transport::{TransportCrypto, TransportOpenResult, TransportSide};
use mistv::protocol::attachment::{build_file_chunk2_line, AttachmentKind, AttachmentMeta};
use mistv::protocol::line::parse_rmsg_line;
use mistv::protocol::local_event::{build_local_attachment_send_line, LocalUiEvent};
use mistv::protocol::member::MemberIdentity;
use mistv::transport::packet::{next_send_step, SendStep};
use mistv::ui::clipboard::{encode_rgba_as_png, parse_clipboard_file_paths, ClipData};
use mistv::util::path::file_name_or_default;
use mistv::util::text::contains_part;
use sha2::{Digest, Sha256};
use std::path::Path;

fn identity(member_id: &str, nickname: &str) -> MemberIdentity {
    MemberIdentity { member_id: member_id.to_string(), nickname: nickname.to_string() }
}

#[test]
fn safety_codes_tell_rooms_apart() {
    let code = |room: &str, members: &[MemberIdentity]| {
        compute_room_safety_code(&SafetyTranscript::room_v0(room, members))
    };
    let base = code("room", &[identity("ab", "c")]);
    assert_ne!(base, code("room", &[identity("a", "bc")]));
    assert_ne!(base, code("roo", &[identity("mab", "c")]));
    assert_ne!(base, code("room", &[identity("ab", "c"), identity("ab", "c")]));
    assert_ne!(base, code("room", &[]));
    let mut later = SafetyTranscript::room_v0("room", &[identity("ab", "c")]);
    later.transcript_hash = Some(Vec::new());
    assert_ne!(base, compute_room_safety_code(&later));
    later.transcript_hash = None;
    later.members[0].x25519_pubkey = Some(Vec::new());
    assert_ne!(base, compute_room_safety_code(&later));
}

#[test]
fn a_room_transcript_holds_its_members_in_order() {
    let t = SafetyTranscript::room_v0("room", &[identity("b", "Bob"), identity("a", "Al")]);
    let listed: Vec<(&str, Option<&str>)> = t
        .members
        .iter()
        .map(|m| (m.member_id.as_str(), m.nickname.as_deref()))
        .collect();
    assert_eq!(listed, [("a", Some("Al")), ("b", Some("Bob"))]);
    assert!(t.members.iter().all(|m| m.identity_pubkey.is_none() && m.x25519_pubkey.is_none()));
}

#[test]
fn every_line_of_the_window_is_a_duplicate() {
    let mut tx = TransportCrypto::new([7u8; 32], TransportSide::Client);
    let mut rx = TransportCrypto::new([7u8; 32], TransportSide::Server);
    let lines: Vec<String> = (0..1100).map(|i| tx.seal(&format!("line {i}"))).collect();
    for (i, line) in lines.iter().enumerate().take(1050) {
        assert_eq!(rx.open(line), Some(TransportOpenResult::Fresh(format!("line {i}"))));
    }
    for _ in 0..2 {
        for (i, line) in lines.iter().enumerate().take(1050).skip(26) {
            assert_eq!(rx.open(line), Some(TransportOpenResult::Duplicate(format!("line {i}"))));
        }
    }
    assert_eq!(rx.open(&lines[25]), None);
    assert_eq!(rx.open(&lines[1051]), None);
    assert_eq!(rx.open("no line"), None);
    assert_eq!(rx.open(&lines[1050]), Some(TransportOpenResult::Fresh("line 1050".to_string())));
}

#[test]
fn sealed_lines_carry_their_numbers() {
    let mut tx = TransportCrypto::new([7u8; 32], TransportSide::Client);
    let mut rx = TransportCrypto::new([7u8; 32], TransportSide::Server);
    let keys = (*tx.send_key(), *tx.recv_key());
    assert_ne!(keys.0, keys.1);
    let mut lines: Vec<String> = Vec::new();
    for n in 0..5u64 {
        let line = tx.seal("same");
        let data = STANDARD.decode(&line).unwrap();
        assert_eq!(data[..8], n.to_be_bytes());
        assert_eq!(data.len(), 8 + 4 + 16);
        assert!(!lines.contains(&line));
        lines.push(line);
        tx.open(&rx.seal("back"));
    }
    assert_eq!((*tx.send_key(), *tx.recv_key()), keys);
}

fn members_in_step() -> (GroupCryptoState, GroupCryptoState) {
    let secret = [9u8; 32];
    let start = |id: &str, name: &str| {
        GroupCryptoState::new_single_epoch("room-a", id, name, 0, secret, [4u8; 32]).unwrap()
    };
    let (mut alice, mut bob) = (start("alice-id", "alice"), start("bob-id", "bob"));
    for member in [&mut alice, &mut bob] {
        member
            .replace_members(vec![
                ("alice-id".to_string(), "alice".to_string()),
                ("bob-id".to_string(), "bob".to_string()),
            ])
            .unwrap();
        member.install_test_recv_chains_for_current_roster(secret).unwrap();
    }
    (alice, bob)
}

#[test]
fn a_run_of_messages_opens_once_in_any_order() {
    let (mut alice, mut bob) = members_in_step();
    let sent: Vec<_> = (0..65u8)
        .map(|i| encrypt_message_at(&mut alice, SecureMessageType::Text, &[i], 1000).unwrap())
        .collect();
    for step in 0..65usize {
        let i = (64 + 17 * step) % 65;
        let now = 1000 + step as i64;
        let opened = decrypt_message_at(&mut bob, &sent[i], now).unwrap();
        assert_eq!(opened.plaintext, [i as u8]);
        assert!(decrypt_message_at(&mut bob, &sent[i], now).is_err());
    }
    for message in &sent {
        assert!(decrypt_message_at(&mut bob, message, 1070).is_err());
    }
}

#[test]
fn a_refused_message_leaves_the_rest() {
    let (mut alice, mut bob) = members_in_step();
    let message = encrypt_message_at(&mut alice, SecureMessageType::Text, b"hi", 1000).unwrap();
    let mut bad = encrypt_message_at(&mut alice, SecureMessageType::Text, b"yo", 1000).unwrap();
    bad.header.version = 2;
    assert!(decrypt_message_at(&mut bob, &bad, 1000).is_err());
    bad.header.version = 1;
    bad.header.group_id = "room-b".to_string();
    assert!(decrypt_message_at(&mut bob, &bad, 1000).is_err());
    bad.header.group_id = "room-a".to_string();
    bad.header.msg_no = 65;
    assert!(decrypt_message_at(&mut bob, &bad, 1000).is_err());
    bad.header.msg_no = 1;
    let last = bad.ciphertext.len() - 1;
    bad.ciphertext[last] ^= 1;
    assert!(decrypt_message_at(&mut bob, &bad, 1000).is_err());
    assert_eq!(decrypt_message_at(&mut bob, &message, 1000).unwrap().plaintext, b"hi");
}

#[test]
fn a_built_commit_is_valid_and_names_the_roster() {
    let mut alice =
        GroupCryptoState::new_single_epoch("room-a", "alice-id", "alice", 3, [1u8; 32], [4u8; 32])
            .unwrap();
    let bob =
        GroupCryptoState::new_pending_epoch("room-a", "bob-id", "bob", 3, [4u8; 32]).unwrap();
    let pair = |id: &str, name: &str| (id.to_string(), name.to_string());
    alice.replace_members(vec![pair("alice-id", "alice")]).unwrap();
    alice.replace_members(vec![pair("bob-id", "bob")]).unwrap();
    assert!(alice.members.contains_key("alice-id"));
    assert_eq!(alice.apply_key_announce(&bob.local_key_announce()), Ok(true));
    let again = vec![pair("bob-id", "robert"), pair("alice-id", "alice")];
    alice.replace_members(again).unwrap();
    let pending = alice.pending_transition.as_ref().expect("the change is still pending");
    assert_eq!(pending.new_members, ["alice-id", "bob-id"]);
    let (old, new) = (pending.old_members.clone(), pending.new_members.clone());
    let commit = alice.build_pending_epoch_commit().unwrap().expect("it is alice's turn");
    assert_eq!(validate_epoch_commit("room-a", 3, &commit, &old, &new), Ok(()));
    assert_eq!((commit.old_epoch, commit.new_epoch, commit.proposer_attempt), (3, 4, 0));
    assert_eq!(commit.proposer_id, "alice-id");
    let served: Vec<&str> =
        commit.wrapped_secrets.iter().map(|w| w.recipient_id.as_str()).collect();
    assert_eq!(served, ["alice-id", "bob-id"]);
}

#[test]
fn pieces_of_any_size_come_through() {
    let mut store = AttachmentStore::with_key("room".to_string(), [2u8; 32]);
    let mut state = AttachmentReceiveState::default();
    let parts: [&[u8]; 4] = [b"a", b"", b"bcdef", b"gh"];
    let meta = AttachmentMeta {
        group_id: "room-a".to_string(),
        epoch: 0,
        sender_id: "alice-id".to_string(),
        transfer_id: "t".to_string(),
        kind: AttachmentKind::File,
        file_name: "demo.txt".to_string(),
        total_size: 8,
        total_chunks: 4,
        sha256_hex: hex::encode(Sha256::digest(b"abcdefgh")),
        file_key: [3u8; 32],
        nonce_base: [7u8; 8],
    };
    register_attachment(&mut state, "alice".to_string(), meta, &mut store).unwrap();
    let mut counts: Vec<usize> = Vec::new();
    for index in [2usize, 0, 2, 3, 0, 1, 1] {
        let beyond = append_chunk(&mut state, "t".to_string(), 4, vec![1], &mut store);
        assert_eq!(beyond.is_err(), counts.last() != Some(&4));
        let events =
            append_chunk(&mut state, "t".to_string(), index, parts[index].to_vec(), &mut store)
                .unwrap();
        match events.first() {
            Some(AttachmentReceiveEvent::Progress { received_chunks, total_chunks: 4, .. }) => {
                counts.push(*received_chunks);
                assert_eq!(
                    matches!(events.last(), Some(AttachmentReceiveEvent::Complete(_))),
                    *received_chunks == 4
                );
            }
            Some(other) => panic!("unexpected event: {other:?}"),
            None => assert_eq!(counts.last(), Some(&4)),
        }
    }
    assert_eq!(counts, [1, 2, 2, 3, 3, 4]);
    let item = store.next_unwritten().expect("the attachment awaits writing");
    assert_eq!(
        AttachmentStore::decrypt_encoded_bytes(&[2u8; 32], &item.attachment_id, &item.encoded),
        Ok(b"abcdefgh".to_vec())
    );
}

#[test]
fn there_is_one_line_per_transfer() {
    let mut transfers = TransferUiState::default();
    transfers.begin_incoming("t1".to_string(), "a.txt".to_string(), 2, 5);
    transfers.begin_incoming("t2".to_string(), "b.txt".to_string(), 2, 5);
    transfers.begin_incoming("t1".to_string(), "c.txt".to_string(), 2, 5);
    transfers.finish_incoming("t9");
    transfers.apply(LocalUiEvent::TransferDone { transfer_id: "t8".to_string() });
    let lines = transfers.lines(9);
    assert_eq!(lines.len(), 2);
    assert!(lines[0].contains("b.txt") && lines[1].contains("c.txt"));
    assert_eq!(transfers.lines(1), [lines[0].clone()]);
}

#[test]
fn an_image_that_cannot_be_encoded_is_warned_of() {
    let reason = encode_rgba_as_png(&[], 0, 0).expect_err("an empty image has no file");
    assert!(!reason.is_empty());
    let mut state = EditState {
        input: String::new(),
        cursor: 0,
        selected: None,
        undo_mgr: UndoMgr::new(0),
    };
    let empty = ClipData::Image { width: 0, height: 0, bytes: Vec::new() };
    match paste(&mut state, empty, &Vec::new(), 10) {
        PasteAction::Warn(text) => {
            assert_eq!(text, format!("⚠️ Failed to encode image: {reason}"))
        }
        other => panic!("unexpected action: {other:?}"),
    }
    let dot = ClipData::Image { width: 1, height: 1, bytes: vec![1, 2, 3, 4] };
    match paste(&mut state, dot, &Vec::new(), 10) {
        PasteAction::Write { file_name, .. } => {
            assert_eq!(file_name.len(), "clipboard_.png".len() + 32)
        }
        other => panic!("unexpected action: {other:?}"),
    }
}

#[test]
fn names_of_requests_are_fresh() {
    let (a, b) = (new_request_id(), new_request_id());
    assert_eq!(a.len(), 32);
    assert_ne!(a, b);
}

#[test]
fn a_failed_login_is_explained() {
    assert_eq!(
        login_failed_text("邀请码无效或已过期"),
        "❌ 邀请码无效或已过期，请重新选择服务器或输入新的邀请码。\n"
    );
    assert_eq!(login_failed_text("x 断开服务器"), "断开服务器... \n");
    assert_eq!(login_failed_text("refused"), "HandShake Error: refused");
    assert!(contains_part("abc", "") && contains_part("abc", "bc") && !contains_part("abc", "bd"));
}

#[test]
fn a_line_about_an_attachment_goes_out_as_text() {
    let (mut alice, mut bob) = members_in_step();
    let line = build_local_attachment_send_line("a.png", AttachmentKind::Image, b"xyz");
    match outgoing_line(&mut alice, &line, false, "x", 1000) {
        Outgoing::Send { payload, .. } => {
            let message: EncryptedMessage = parse_rmsg_line(&payload).expect("a message is sent");
            assert_eq!(message.ciphertext.len(), line.len() + 16);
            let opened = decrypt_message_at(&mut bob, &message, 1000).unwrap();
            assert_eq!(opened.plaintext, line.as_bytes());
        }
        other => panic!("unexpected action: {other:?}"),
    }
    match outgoing_line_now(&mut alice, "hello", false) {
        Outgoing::Send { packet_id, .. } => {
            assert!(packet_id.starts_with("msg-") && packet_id.len() == 36)
        }
        other => panic!("unexpected action: {other:?}"),
    }
}

fn chat_with_a_transfer() -> (ChatState, Vec<String>) {
    let (_, bob) = members_in_step();
    let store = AttachmentStore::with_key("room".to_string(), [2u8; 32]);
    let mut chat = ChatState::new("bob".to_string(), bob, store);
    let meta = AttachmentMeta {
        group_id: "room-a".to_string(),
        epoch: 0,
        sender_id: "alice-id".to_string(),
        transfer_id: "t".to_string(),
        kind: AttachmentKind::File,
        file_name: "dir/demo.txt".to_string(),
        total_size: 4,
        total_chunks: 2,
        sha256_hex: hex::encode(Sha256::digest(b"abcd")),
        file_key: [3u8; 32],
        nonce_base: [7u8; 8],
    };
    chat.transfers.begin_incoming("t".to_string(), "demo.txt".to_string(), 2, 4);
    register_attachment(&mut chat.receiver.attachments, "alice".to_string(), meta, &mut chat.store)
        .unwrap();
    let piece = |index: usize, data: &[u8]| {
        let line = build_file_chunk2_line(
            "room-a", 0, "alice-id", "t", index, 2, data, &[3u8; 32], &[7u8; 8],
        );
        format!("[alice] {}", line.unwrap())
    };
    let waiting = vec![piece(0, b"ab"), piece(1, b"cd"), "⚡ later".to_string()];
    (chat, waiting)
}

#[test]
fn an_attachment_is_shown_once_it_is_written() {
    let (mut chat, mut waiting) = chat_with_a_transfer();
    let out = drain_messages(&mut chat, &mut waiting);
    assert_eq!((out.taken, out.notifications, waiting.len()), (2, 0, 1));
    assert!(chat.awaits_write() && chat.messages.is_empty());
    assert_eq!(drain_more(&mut chat, &mut waiting, out.taken).taken, 0);
    assert!(settle_write(&mut chat, None));
    assert!(matches!(
        &chat.messages[0],
        ChatMessage::Attachment { name, size: 4, .. } if name == "demo.txt"
    ));
    assert!(chat.transfers.lines(1)[0].contains("received"));
    let more = drain_more(&mut chat, &mut waiting, out.taken);
    assert_eq!((more.taken, more.notifications, waiting.len()), (1, 1, 0));
    assert!(!settle_write(&mut chat, None));
    assert_eq!(chat.messages.len(), 2);
}

#[test]
fn an_attachment_that_is_not_written_is_not_shown() {
    let (mut chat, mut waiting) = chat_with_a_transfer();
    drain_messages(&mut chat, &mut waiting);
    let before = chat.transfers.lines(1);
    assert!(settle_write(&mut chat, Some("disk full".to_string())));
    assert!(matches!(
        &chat.messages[0],
        ChatMessage::Text(t) if t.starts_with("[System] [") && t.ends_with("] disk full")
    ));
    assert_eq!(chat.transfers.lines(1), before);
    assert!(!before[0].contains("received"));
    assert!(!chat.awaits_write());
}

#[test]
fn an_acknowledgement_ends_the_sending() {
    for first in 0..4usize {
        let mut sent = 0;
        let done = loop {
            match next_send_step(sent, sent > first) {
                SendStep::Send => sent += 1,
                SendStep::Done => break true,
                SendStep::GiveUp => break false,
            }
        };
        assert_eq!((sent, done), if first < 3 { (first + 1, true) } else { (3, false) });
    }
}

#[test]
fn names_and_roots_are_those_of_the_machine() {
    assert_eq!(infer_attachment_kind("dir/a.png"), AttachmentKind::Image);
    assert_eq!(file_name_or_default("dir/a.png/"), "a.png");
    assert_eq!(
        file_name_or_default("a\\b.png"),
        Path::new("a\\b.png").file_name().unwrap().to_str().unwrap()
    );
    for path in ["/a", "a", "", "C:\\a", "\\\\host\\share\\a"] {
        let named = parse_clipboard_file_paths(path, &vec![true; usize::from(!path.is_empty())]);
        assert_eq!(named.is_some(), Path::new(path).is_absolute());
    }
}
