//! Two devices and what travels between them.
use base64::engine::general_purpose;
use base64::Engine;
use cipherclip::clipboard::{preview, uses_attachment, ContentKind};
use cipherclip::crypto::{CryptoState, KeySource};
use cipherclip::db::Database;
use cipherclip::download::FileBuffer;
use cipherclip::storage::{file_uri, StorageManager};
use cipherclip::tables::Clocks;
use cipherclip::wire::{chunk, count_chunks};
use sha2::{Digest, Sha256};

fn setup_node(device_id: &str) -> (Database, CryptoState) {
    let (crypto, saved) = CryptoState::new(&KeySource::Nowhere).unwrap();
    assert_eq!(saved.unwrap().len(), 64);
    (Database::new(device_id.to_string()), crypto)
}

fn sync_events(source: &Database, target: &mut Database, source_device_id: &str) {
    let peer_state = target.get_peer_sync_state(source_device_id);
    let mut map = Clocks::new();
    map.insert(source_device_id.to_string(), peer_state);

    let events = source.get_missing_events(&map, 100);
    let max_clock = events.iter().map(|e| e.vector_clock).max().unwrap_or(0);

    if !events.is_empty() {
        target.apply_sync_events(events).unwrap();
        target.update_peer_sync_state(source_device_id, max_clock);
    }
}

fn hash(data: &[u8]) -> Vec<u8> {
    let mut hasher = Sha256::new();
    hasher.update(data);
    hasher.finalize().to_vec()
}

#[test]
fn e2e_case1_inline_text_propagation() {
    let (mut db_a, crypto_a) = setup_node("Node_A");
    let (mut db_b, _crypto_b) = setup_node("Node_B");

    let text_50kb: Vec<u8> = (0..50 * 1024).map(|i| b"ABCDEFGHIJ"[i % 10]).collect();
    assert!(text_50kb.len() <= 500 * 1024, "Payload should be under 500KB threshold");
    assert!(!uses_attachment(ContentKind::Text, text_50kb.len()));

    let encrypted = crypto_a.encrypt(&text_50kb).unwrap();

    let clip_id = db_a.insert_clip("text", &encrypted, 100, false, None).unwrap();
    println!("  ✓ Node A inserted inline text clip (id={})", clip_id);

    let events = db_a.get_missing_events(&Clocks::new(), 10);
    assert!(!events.is_empty(), "Node A should have generated an event");
    assert!(events[0].vector_clock > 0, "HLC vector clock should have advanced");
    assert_eq!(events[0].event_type, "INSERT");
    assert_eq!(events[0].has_attachment, Some(false));

    sync_events(&db_a, &mut db_b, "Node_A");

    let clips = db_b.get_all_clips();
    assert_eq!(clips.len(), 1, "Node B should have exactly 1 clip");
    assert_eq!(clips[0].1, "text");
    assert_eq!(clips[0].6, false, "has_attachment should be false for inline text");
    assert_eq!(crypto_a.decrypt(&clips[0].2).unwrap(), text_50kb);
}

#[test]
fn e2e_case2_binary_image_ingestion() {
    let (mut db_a, crypto_a) = setup_node("Node_A");
    let (mut db_b, _crypto_b) = setup_node("Node_B");
    let storage_a = StorageManager::new("a".to_string());

    let image_size = 15 * 1024 * 1024;
    let fake_image_data: Vec<u8> = (0..image_size).map(|i| (i % 251) as u8).collect();

    let attachment_uuid = uuid::Uuid::new_v4().to_string();
    assert_eq!(storage_a.get_attachment_path(&attachment_uuid).name, format!("{}.png", attachment_uuid));

    let original_hash = hash(&fake_image_data);

    let preview = general_purpose::STANDARD.encode(&fake_image_data[..1024]);
    let encrypted_preview = crypto_a.encrypt(preview.as_bytes()).unwrap();

    let clip_id = db_a
        .insert_clip("image", &encrypted_preview, 100, true, Some(attachment_uuid.clone()))
        .unwrap();
    println!("  ✓ Node A inserted image clip with has_attachment=true (id={})", clip_id);

    sync_events(&db_a, &mut db_b, "Node_A");

    let clips = db_b.get_all_clips();
    assert_eq!(clips.len(), 1);
    assert_eq!(clips[0].1, "image");
    assert_eq!(clips[0].6, true, "has_attachment should be true");
    assert!(clips[0].7.is_some(), "attachment_path should contain the UUID");
    assert_eq!(clips[0].7, Some(attachment_uuid));

    let mut downloaded = FileBuffer::new();
    for i in 0..count_chunks(fake_image_data.len()) {
        let part = chunk(&fake_image_data, i);
        assert!(part.len() <= 65536, "Chunk size must be ≤ 64KB");
        assert!(downloaded.take(Ok(part)));
    }

    let receiver_hash = hash(downloaded.bytes());
    assert_eq!(original_hash, receiver_hash, "Node B file hash must match Node A exactly");
    assert_eq!(downloaded.len(), image_size);
}

#[test]
fn e2e_case3_heavy_text_attachment_fallback() {
    let (mut db_a, crypto_a) = setup_node("Node_A");
    let storage_a = StorageManager::new("a".to_string());

    let log_size = 2 * 1024 * 1024;
    let dense_log: Vec<u8> = (0..log_size).map(|i| b"console.log('Line ');\n"[i % 21]).collect();

    assert!(dense_log.len() > 500 * 1024, "Must exceed 500KB threshold");
    assert!(uses_attachment(ContentKind::Text, dense_log.len()));

    let attachment_uuid = uuid::Uuid::new_v4().to_string();

    let preview_len = std::cmp::min(dense_log.len(), 512);
    let shown = String::from_utf8_lossy(&dense_log[..preview_len]);
    let stub = format!("[Large file: {} bytes]\n{}", dense_log.len(), shown);
    assert_eq!(preview(ContentKind::Text, &dense_log, &Vec::new()), stub.as_bytes());
    let encrypted_stub = crypto_a.encrypt(stub.as_bytes()).unwrap();

    let clip_id = db_a
        .insert_clip("text", &encrypted_stub, 100, true, Some(attachment_uuid.clone()))
        .unwrap();
    println!("  ✓ Inserted clip with 512-byte preview stub (id={})", clip_id);

    assert!(encrypted_stub.len() < 2048, "Encrypted preview stub should be small");

    assert_eq!(storage_a.get_attachment_path(&attachment_uuid).name, format!("{}.png", attachment_uuid));

    let clips = db_a.get_all_clips();
    assert_eq!(clips.len(), 1);
    assert_eq!(clips[0].6, true, "has_attachment must be true");
    assert_eq!(clips[0].7, Some(attachment_uuid.clone()), "attachment_path must be the UUID");
}

#[test]
fn e2e_case4_file_uri_normalization() {
    // Windows-style path
    let win_path = r"C:\Users\test\AppData\cipherclip\attachments\abc123.bin";
    let win_uri = file_uri(win_path, true);
    assert_eq!(win_uri, "file:///C:/Users/test/AppData/cipherclip/attachments/abc123.bin");
    println!("  ✓ Windows path normalized: {} → {}", win_path, win_uri);

    // Unix-style path
    let unix_path = "/home/user/.cipherclip/attachments/abc123.bin";
    let unix_uri = file_uri(unix_path, false);
    assert_eq!(unix_uri, "file:///home/user/.cipherclip/attachments/abc123.bin");
    println!("  ✓ Unix path normalized: {} → {}", unix_path, unix_uri);

    // A URI passes through unchanged
    let already_uri = "file:///C:/Users/test/file.bin";
    assert_eq!(file_uri(already_uri, true), already_uri);
    assert_eq!(file_uri(already_uri, false), already_uri);

    // Spaces stay
    let space_path = r"C:\Users\John Doe\Downloads\my file.pdf";
    let space_uri = file_uri(space_path, true);
    assert!(space_uri.contains("John Doe"), "Spaces should be preserved in the URI");
    assert_eq!(space_uri, "file:///C:/Users/John Doe/Downloads/my file.pdf");
}
