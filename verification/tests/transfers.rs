use mistv::attachments::sender::{
    cleanup_attachment_window, initialize_memory_attachment_job, is_done, process_attachment_meta,
    scan_attachment_window, take_up_chunk, wants_chunk, AttachmentJob, MetaStep, SendError,
    ATTACHMENT_CHUNK_SIZE, ATTACHMENT_WINDOW_SIZE,
};
use mistv::client::receiver::TransferUiState;
use mistv::client::utils::{
    handshake_writeall_macro, packet_id_for_text, parse_text_img,
};
use mistv::crypto::group::GroupCryptoState;
use mistv::crypto::room::RoomCryptoState;
use mistv::protocol::attachment::{
    build_file_chunk2_line, decrypt_file_chunk2, parse_attachment_frame, AttachmentFrame,
    AttachmentKind, ChunkError,
};
use mistv::protocol::local_event::LocalUiEvent;
use mistv::transport::packet::AckRegistry;

const TIMEOUT: u64 = 4500;

fn group() -> GroupCryptoState {
    GroupCryptoState::new_single_epoch("room-a", "alice-id", "alice", 0, [1u8; 32], [2u8; 32]).unwrap()
}

fn announced(pieces: usize, acks: &mut AckRegistry) -> AttachmentJob {
    let mut job = initialize_memory_attachment_job(
        "demo.bin".to_string(),
        vec![5u8; pieces * ATTACHMENT_CHUNK_SIZE],
        AttachmentKind::File,
    );
    let mut group = group();
    let step = process_attachment_meta(&mut job, acks, &mut group, 0, 0).unwrap();
    let MetaStep::Send { packet_id, .. } = step else {
        panic!("the announcement goes first");
    };
    acks.mark_acked(&packet_id);
    assert!(matches!(
        process_attachment_meta(&mut job, acks, &mut group, 1, 0).unwrap(),
        MetaStep::Acked
    ));
    job
}

fn take_up(job: &mut AttachmentJob, acks: &mut AckRegistry, now: u64) -> String {
    let mut buf = vec![0u8; ATTACHMENT_CHUNK_SIZE];
    let read = job.source.read_chunk(&mut buf).unwrap();
    let (packet_id, _) = take_up_chunk(job, &buf[..read], now).unwrap();
    acks.subscribe(&packet_id);
    packet_id
}

#[test]
fn only_a_window_of_pieces_is_under_way() {
    let mut acks = AckRegistry::new();
    let mut job = announced(5, &mut acks);
    let mut ids = Vec::new();
    while wants_chunk(&job) {
        ids.push(take_up(&mut job, &mut acks, 10));
    }
    assert_eq!(ids.len(), ATTACHMENT_WINDOW_SIZE);
    assert_eq!(ids.len(), 3);

    acks.mark_acked(&ids[1]);
    let scan = scan_attachment_window(&mut job, &mut acks, 20);
    assert_eq!(scan.progress.len(), 1);
    assert!(scan.resend.is_empty() && scan.error.is_none());
    assert!(wants_chunk(&job));
    ids.push(take_up(&mut job, &mut acks, 20));
    assert!(!wants_chunk(&job));

    for id in &ids {
        acks.mark_acked(id);
    }
    scan_attachment_window(&mut job, &mut acks, 30);
    assert!(!is_done(&job));
    let last = take_up(&mut job, &mut acks, 30);
    assert!(!wants_chunk(&job));
    acks.mark_acked(&last);
    scan_attachment_window(&mut job, &mut acks, 40);
    assert!(is_done(&job));
}

#[test]
fn piece_without_an_answer_is_sent_three_times() {
    let mut acks = AckRegistry::new();
    let mut job = announced(1, &mut acks);
    let id = take_up(&mut job, &mut acks, 0);
    let early = scan_attachment_window(&mut job, &mut acks, TIMEOUT - 1);
    assert!(early.resend.is_empty() && early.error.is_none());
    for n in 1..3u64 {
        let scan = scan_attachment_window(&mut job, &mut acks, n * TIMEOUT);
        assert_eq!(scan.resend.len(), 1);
        assert_eq!(scan.resend[0].0, id);
        assert!(scan.error.is_none());
    }
    let scan = scan_attachment_window(&mut job, &mut acks, 3 * TIMEOUT);
    assert!(scan.resend.is_empty());
    let error = scan.error.unwrap();
    assert!(matches!(error, SendError::ChunkTimeout { index: 0, total: 1 }));
    assert_eq!(error.message(), "ACK timeout for chunk 1 of 1");
    cleanup_attachment_window(&mut acks, &job);
    assert!(!acks.mark_acked(&id));
}

#[test]
fn announcement_without_an_answer_is_sent_three_times() {
    let mut acks = AckRegistry::new();
    let mut group = group();
    let mut job = initialize_memory_attachment_job("a.txt".to_string(), b"abc".to_vec(), AttachmentKind::File);
    let mut lines = Vec::new();
    for n in 0..3u64 {
        match process_attachment_meta(&mut job, &mut acks, &mut group, n * TIMEOUT, 0).unwrap() {
            MetaStep::Send { line, .. } => lines.push(line),
            other => panic!("unexpected: {other:?}"),
        }
        assert!(matches!(
            process_attachment_meta(&mut job, &mut acks, &mut group, n * TIMEOUT + 1, 0).unwrap(),
            MetaStep::Wait
        ));
    }
    assert_eq!(lines[0], lines[2]);
    let error = process_attachment_meta(&mut job, &mut acks, &mut group, 3 * TIMEOUT, 0).unwrap_err();
    assert_eq!(error.message(), "ACK timeout for attachment metadata");
}

#[test]
fn pieces_need_an_announcement_and_bytes() {
    let mut job = initialize_memory_attachment_job("a.txt".to_string(), b"abc".to_vec(), AttachmentKind::File);
    let error = take_up_chunk(&mut job, b"abc", 0).unwrap_err();
    assert_eq!(error.message(), "Attachment manifest context is unavailable");
    let mut acks = AckRegistry::new();
    let mut job = announced(1, &mut acks);
    let error = take_up_chunk(&mut job, b"", 0).unwrap_err();
    assert_eq!(error.message(), "Unexpected EOF while reading attachment demo.bin");
    let mut waiting =
        GroupCryptoState::new_pending_epoch("room-a", "bob-id", "bob", 0, [2u8; 32]).unwrap();
    let mut job = initialize_memory_attachment_job("a.txt".to_string(), b"abc".to_vec(), AttachmentKind::File);
    let error = process_attachment_meta(&mut job, &mut acks, &mut waiting, 0, 0).unwrap_err();
    assert_eq!(error.message(), "Current epoch secret unavailable");
}

#[test]
fn piece_opens_only_in_its_place() {
    let line = build_file_chunk2_line("room-a", 3, "alice", "t1", 4, 9, b"data", &[1u8; 32], &[2u8; 8]).unwrap();
    let Some(AttachmentFrame::EncryptedChunk(chunk)) = parse_attachment_frame(&line) else {
        panic!("the line holds a piece");
    };
    assert_eq!(decrypt_file_chunk2(&chunk, &[1u8; 32], &[2u8; 8]), Ok(b"data".to_vec()));
    let mut moved = chunk.clone();
    moved.index = 5;
    assert_eq!(decrypt_file_chunk2(&moved, &[1u8; 32], &[2u8; 8]), Err(ChunkError::OpenFailed));
    let mut moved = chunk.clone();
    moved.epoch = 4;
    assert_eq!(decrypt_file_chunk2(&moved, &[1u8; 32], &[2u8; 8]), Err(ChunkError::OpenFailed));
    let mut moved = chunk.clone();
    moved.sender_id = "bob".to_string();
    assert_eq!(decrypt_file_chunk2(&moved, &[1u8; 32], &[2u8; 8]), Err(ChunkError::OpenFailed));
    let mut moved = chunk.clone();
    moved.total_chunks = 8;
    assert_eq!(decrypt_file_chunk2(&moved, &[1u8; 32], &[2u8; 8]), Err(ChunkError::OpenFailed));
    assert_eq!(decrypt_file_chunk2(&chunk, &[3u8; 32], &[2u8; 8]), Err(ChunkError::OpenFailed));
}

#[test]
fn transfers_are_followed_by_their_events() {
    let mut transfers = TransferUiState::new();
    assert_eq!(
        transfers.apply(LocalUiEvent::TransferBegin {
            transfer_id: "t1".to_string(),
            file_name: "a.txt".to_string(),
            total_chunks: 4,
            total_size: 100,
        }),
        None
    );
    transfers.begin_incoming("t2".to_string(), "b.txt".to_string(), 2, 50);
    assert_eq!(transfers.lines(5).len(), 2);
    assert_eq!(transfers.lines(1).len(), 1);
    assert!(transfers.lines(1)[0].contains("b.txt"));
    transfers.apply(LocalUiEvent::TransferProgress {
        transfer_id: "t1".to_string(),
        acked_chunks: 2,
        total_chunks: 4,
    });
    transfers.progress_incoming("t2", 1, 2);
    transfers.finish_incoming("t2");
    assert!(transfers.lines(1)[0].contains("received"));
    transfers.apply(LocalUiEvent::TransferDone { transfer_id: "t1".to_string() });
    assert!(transfers.lines(2)[1].contains("server acked"));
    assert_eq!(
        transfers.apply(LocalUiEvent::TransferFailed {
            transfer_id: "t1".to_string(),
            reason: "gone".to_string(),
        }),
        Some("传输失败: a.txt - gone".to_string())
    );
    assert_eq!(
        transfers.apply(LocalUiEvent::TransferFailed {
            transfer_id: "t9".to_string(),
            reason: "gone".to_string(),
        }),
        Some("传输失败: t9 - gone".to_string())
    );
    transfers.fail_incoming("t2", "broken");
    assert!(transfers.lines(1)[0].contains("broken"));
    assert_eq!(transfers.apply(LocalUiEvent::Notice("hi".to_string())), Some("hi".to_string()));
    assert_eq!(transfers.apply(LocalUiEvent::EchoText { body: "x".to_string() }), None);
}

#[test]
fn room_lines_are_shown_under_their_names() {
    let room = RoomCryptoState::from_room_credential("room-a", "cred");
    let other = RoomCryptoState::from_room_credential("room-b", "cred");
    let line = format!("[alice] {}", room.seal("hello"));
    assert_eq!(parse_text_img(&line, &room), ("alice".to_string(), "hello".to_string()));
    assert_ne!(parse_text_img(&line, &other).1, "hello");
    assert_eq!(handshake_writeall_macro("OK".to_string()), b"OK\n");
    let id = packet_id_for_text();
    assert!(id.starts_with("msg-"));
    assert_eq!(id.len(), 36);
    assert_ne!(id, packet_id_for_text());
}
