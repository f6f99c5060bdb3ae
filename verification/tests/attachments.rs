use mistv::attachments::kind::infer_attachment_kind;
use mistv::attachments::receiver::{
    append_chunk, register_attachment, validate_manifest, AttachmentReceiveEvent,
    AttachmentReceiveState, ReceiveError,
};
use mistv::attachments::sender::{
    chunk_count_of, initialize_memory_attachment_job, next_pump_step, PumpStep,
    ATTACHMENT_CHUNK_SIZE,
};
use mistv::attachments::store::{
    extension_for, file_name_from, fresh_file_name, AttachmentStore, StoreError,
};
use mistv::protocol::attachment::{AttachmentKind, AttachmentMeta};
use sha2::{Digest, Sha256};

fn manifest(name: &str, bytes: &[u8], total_chunks: usize) -> AttachmentMeta {
    AttachmentMeta {
        group_id: "room-a".to_string(),
        epoch: 0,
        sender_id: "alice-id".to_string(),
        transfer_id: "transfer-1".to_string(),
        kind: AttachmentKind::File,
        file_name: name.to_string(),
        total_size: bytes.len() as u64,
        total_chunks,
        sha256_hex: hex::encode(Sha256::digest(bytes)),
        file_key: [3u8; 32],
        nonce_base: [7u8; 8],
    }
}

fn new_store() -> AttachmentStore {
    AttachmentStore::new_in("/tmp/room".to_string())
}

#[test]
fn manifest_with_zero_chunks_and_nonzero_size_is_rejected() {
    let mut store = new_store();
    let mut state = AttachmentReceiveState::default();
    let mut meta = manifest("demo.txt", b"abc", 0);
    meta.total_size = 3;
    assert!(register_attachment(&mut state, "alice".to_string(), meta, &mut store).is_err());
}

#[test]
fn chunk_out_of_range_is_rejected_without_panic() {
    let mut store = new_store();
    let mut state = AttachmentReceiveState::default();
    let meta = manifest("demo.txt", b"abc", 1);
    register_attachment(&mut state, "alice".to_string(), meta, &mut store)
        .expect("manifest should register");
    assert!(append_chunk(
        &mut state,
        "transfer-1".to_string(),
        9,
        b"a".to_vec(),
        &mut store
    )
    .is_err());
}

#[test]
fn duplicate_chunk_does_not_panic_or_double_count() {
    let mut store = new_store();
    let mut state = AttachmentReceiveState::default();
    let meta = manifest("demo.txt", b"abc", 1);
    register_attachment(&mut state, "alice".to_string(), meta, &mut store)
        .expect("manifest should register");
    let first = append_chunk(
        &mut state,
        "transfer-1".to_string(),
        0,
        b"abc".to_vec(),
        &mut store,
    )
    .expect("first chunk should succeed");
    assert!(matches!(
        first.last(),
        Some(AttachmentReceiveEvent::Complete(_))
    ));
}

#[test]
fn pieces_may_come_in_any_order_and_twice() {
    let mut store = new_store();
    let mut state = AttachmentReceiveState::default();
    let meta = manifest("demo.txt", b"abcdef", 2);
    register_attachment(&mut state, "alice".to_string(), meta, &mut store).unwrap();
    let mut append = |index: usize, data: &[u8]| {
        append_chunk(
            &mut state,
            "transfer-1".to_string(),
            index,
            data.to_vec(),
            &mut store,
        )
        .unwrap()
    };
    assert!(matches!(
        append(1, b"def").last(),
        Some(AttachmentReceiveEvent::Progress { received_chunks: 1, total_chunks: 2, .. })
    ));
    append(1, b"def");
    assert!(matches!(
        append(0, b"abc").last(),
        Some(AttachmentReceiveEvent::Complete(done)) if done.total_size == 6 && done.sender == "alice"
    ));
    let item = store.next_unwritten().expect("attachment should be stored");
    assert_eq!(item.display_name, "demo.txt");
    assert_eq!(
        AttachmentStore::decrypt_encoded_bytes(
            &store.local_storage_key,
            &item.attachment_id,
            &item.encoded
        ),
        Ok(b"abcdef".to_vec())
    );
}

#[test]
fn what_does_not_match_the_manifest_is_refused() {
    let mut store = new_store();
    let mut state = AttachmentReceiveState::default();
    register_attachment(&mut state, "a".to_string(), manifest("x", b"abc", 1), &mut store).unwrap();
    assert!(matches!(
        append_chunk(&mut state, "transfer-1".to_string(), 0, b"abd".to_vec(), &mut store),
        Err(ReceiveError::ChecksumMismatch(name)) if name == "x"
    ));
    register_attachment(&mut state, "a".to_string(), manifest("x", b"abc", 1), &mut store).unwrap();
    assert!(matches!(
        append_chunk(&mut state, "transfer-1".to_string(), 0, b"ab".to_vec(), &mut store),
        Err(ReceiveError::SizeMismatch { expected: 3, got: 2 })
    ));
    let mut meta = manifest("x", b"", 1);
    assert!(matches!(validate_manifest(&meta), Err(ReceiveError::ChunksForNoBytes)));
    meta = manifest("x", b"abc", 1);
    meta.sha256_hex = "xyz".to_string();
    assert!(matches!(validate_manifest(&meta), Err(ReceiveError::BadChecksumText)));
    assert!(validate_manifest(&manifest("x", b"", 0)).is_ok());
}

#[test]
fn memory_attachment_job_reads_from_memory_without_path() {
    let payload = vec![7u8; ATTACHMENT_CHUNK_SIZE + 3];
    let expected_hash = hex::encode(Sha256::digest(&payload));
    let mut job = initialize_memory_attachment_job(
        "clipboard.png".to_string(),
        payload.clone(),
        AttachmentKind::Image,
    );

    assert_eq!(job.file_name, "clipboard.png");
    assert_eq!(job.kind, AttachmentKind::Image);
    assert_eq!(job.total_size, payload.len() as u64);
    assert_eq!(job.total_chunks, 2);
    assert_eq!(job.sha256_hex, expected_hash);

    let mut first = vec![0u8; ATTACHMENT_CHUNK_SIZE];
    let read = job
        .source
        .read_chunk(&mut first)
        .expect("first chunk should read");
    assert_eq!(read, ATTACHMENT_CHUNK_SIZE);
    assert_eq!(&first, &payload[..ATTACHMENT_CHUNK_SIZE]);

    let mut second = vec![0u8; ATTACHMENT_CHUNK_SIZE];
    let read = job
        .source
        .read_chunk(&mut second)
        .expect("second chunk should read");
    assert_eq!(read, 3);
    assert_eq!(&second[..3], &payload[ATTACHMENT_CHUNK_SIZE..]);
}

fn stored(key: [u8; 32], name: &str, payload: &[u8]) -> (String, Vec<u8>) {
    let mut store = AttachmentStore::with_key("/tmp/room".to_string(), key);
    let id = store.store_attachment(name, payload).unwrap();
    let item = store.next_unwritten().unwrap();
    assert_eq!(item.attachment_id, id);
    (id, item.encoded)
}

#[test]
fn encrypted_filename_hides_original_name_and_extension() {
    let mut store = AttachmentStore::with_key("/tmp/room".to_string(), [7u8; 32]);
    let attachment_id = store
        .store_attachment("secret-plan.pdf", b"payload")
        .unwrap();
    let item = store.next_unwritten().unwrap();
    let file_name = fresh_file_name(None).to_lowercase();
    store.add_record(
        item.attachment_id,
        format!("{}/{file_name}", store.root),
        item.display_name,
    );

    assert!(!file_name.contains("secret"));
    assert!(!file_name.contains("plan"));
    assert!(!file_name.contains("pdf"));
    let cipher_path = store.record_for(&attachment_id).unwrap().cipher_path.clone();
    assert_eq!(
        std::path::Path::new(&cipher_path).parent().unwrap(),
        std::path::Path::new("/tmp/room")
    );
}

#[test]
fn encrypted_payload_does_not_contain_plaintext() {
    let payload = b"top-secret-plaintext-payload";
    let (_, cipher_bytes) = stored([9u8; 32], "evidence.bin", payload);

    assert!(!cipher_bytes
        .windows(payload.len())
        .any(|window| window == payload));
}

#[test]
fn decrypt_with_wrong_local_storage_key_fails() {
    let (attachment_id, cipher_bytes) = stored([3u8; 32], "proof.txt", b"hello world");
    let err = AttachmentStore::decrypt_encoded_bytes(&[4u8; 32], &attachment_id, &cipher_bytes)
        .unwrap_err()
        .message();

    assert!(err.contains("decrypt"));
}

#[test]
fn room_or_server_key_material_cannot_decrypt_local_attachment() {
    let (attachment_id, cipher_bytes) = stored([1u8; 32], "slides.pptx", b"office bytes");

    let mut fake_room_server_key = [0u8; 32];
    fake_room_server_key[..16].copy_from_slice(b"room-key-1234567");
    fake_room_server_key[16..].copy_from_slice(b"server-key-12345");

    assert!(AttachmentStore::decrypt_encoded_bytes(
        &fake_room_server_key,
        &attachment_id,
        &cipher_bytes
    )
    .is_err());
}

#[test]
fn local_storage_key_is_independent_from_test_fixture_name() {
    let store = AttachmentStore::with_key("/tmp/room".to_string(), [11u8; 32]);

    assert_eq!(store.local_storage_key, [11u8; 32]);
}

#[test]
fn stored_attachments_are_found_and_opened() {
    let mut store = new_store();
    let id = store.store_attachment("photo.jpeg", b"img-bytes").unwrap();
    assert_eq!(store.record_for(&id).unwrap_err(), StoreError::NotFound);
    let item = store.next_unwritten().unwrap();
    assert!(store.next_unwritten().is_none());
    store.add_record(item.attachment_id, "/tmp/room/x".to_string(), item.display_name);
    assert_eq!(store.record_for(&id).unwrap().display_name, "photo.jpeg");
    assert_eq!(store.decrypt_attachment(&id, &item.encoded), Ok(b"img-bytes".to_vec()));
    assert_eq!(
        store.decrypt_attachment("other", &item.encoded),
        Err(StoreError::NotFound)
    );
    let open = |bytes: &[u8]| {
        AttachmentStore::decrypt_encoded_bytes(&store.local_storage_key, &id, bytes)
    };
    assert_eq!(open(&item.encoded[..48]), Err(StoreError::Truncated));
    let mut broken = item.encoded.clone();
    broken[0] ^= 1;
    assert_eq!(open(&broken), Err(StoreError::BadMagic));
    broken[0] ^= 1;
    broken[4] = 2;
    assert_eq!(open(&broken), Err(StoreError::BadVersion));
    broken[4] = 1;
    let last = broken.len() - 1;
    broken[last] ^= 1;
    assert_eq!(open(&broken), Err(StoreError::Decrypt));
}

#[test]
fn file_names_are_hexadecimal_with_the_extension() {
    assert_eq!(file_name_from(&[0xab, 0x01], Some("gz")), "ab01.gz");
    assert_eq!(file_name_from(&[0xab, 0x01], None), "ab01");
    assert_eq!(extension_for("archive.tar.gz").as_deref(), Some("gz"));
    assert_eq!(extension_for("README"), None);
}

#[test]
fn images_are_told_by_their_extension() {
    assert_eq!(infer_attachment_kind("a/b/Photo.PNG"), AttachmentKind::Image);
    assert_eq!(infer_attachment_kind("a/b/notes.txt"), AttachmentKind::File);
}

#[test]
fn pieces_are_counted_up() {
    assert_eq!(chunk_count_of(0), 0);
    assert_eq!(chunk_count_of(1), 1);
    assert_eq!(chunk_count_of(ATTACHMENT_CHUNK_SIZE), 1);
    assert_eq!(chunk_count_of(ATTACHMENT_CHUNK_SIZE + 1), 2);
}

#[test]
fn the_pump_works_on_one_attachment_at_a_time() {
    assert_eq!(next_pump_step(None, None, false), PumpStep::Idle);
    assert_eq!(next_pump_step(None, None, true), PumpStep::Prepare);
    assert_eq!(next_pump_step(None, Some(false), true), PumpStep::Idle);
    assert_eq!(next_pump_step(None, Some(true), true), PumpStep::Collect);
    assert_eq!(next_pump_step(Some(false), None, true), PumpStep::Meta);
    assert_eq!(next_pump_step(Some(true), None, true), PumpStep::Window);
}
