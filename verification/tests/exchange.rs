//! How devices exchange events, and what they show.
use cipherclip::clipboard::{
    add_mobile_clip, add_mobile_clip_with, add_mobile_image, add_mobile_image_with, captured_text, content_type, form_to_store,
    keep_captured, keep_captured_with, keep_clip_with, latest_hash, preview, uses_attachment, ContentKind, StoreError, Watcher, TEXT_ATTACHMENT_THRESHOLD,
};
use cipherclip::crypto::{CryptoError, CryptoState};
use base64::Engine;
use cipherclip::db::Database;
use cipherclip::history::{attachment_uuid, content_from, entries};
use cipherclip::image_util::thumbnail;
use cipherclip::model::DbError;
use cipherclip::sync::{
    answer_events, answer_request, attachment_at, attachment_from, attachment_of, batch, batches, must_fetch, open_payloads,
    seal_payload, seal_payloads_with, sync_request, take_over, take_over_with, BATCH,
};
use cipherclip::tables::{Clocks, SyncEvent};

const NOW: i64 = 1_700_000_000_000_000;

fn key(n: u8) -> CryptoState {
    CryptoState::from_key(vec![n; 32]).unwrap()
}

fn event(uuid: &str, clock: i64, payload: Option<Vec<u8>>) -> SyncEvent {
    SyncEvent {
        event_type: "INSERT".to_string(),
        clip_uuid: uuid.to_string(),
        device_id: "B".to_string(),
        vector_clock: clock,
        timestamp: NOW,
        content_type: Some("text".to_string()),
        payload,
        has_attachment: Some(false),
        attachment_path: None,
        pinned: None,
        is_locked: None,
    }
}

/// A large picture that does not compress well.
fn photo() -> Vec<u8> {
    let mut n: u32 = 1;
    let img = image::RgbImage::from_fn(300, 300, |_, _| {
        n = n.wrapping_mul(1664525).wrapping_add(1013904223);
        image::Rgb([(n >> 24) as u8, (n >> 16) as u8, (n >> 8) as u8])
    });
    let mut out = std::io::Cursor::new(Vec::new());
    img.write_to(&mut out, image::ImageFormat::Png).unwrap();
    out.into_inner()
}

#[test]
fn payloads_are_opened_and_sealed() {
    let k = key(1);
    let sealed = seal_payload(&k, event("u", 1, Some(b"data".to_vec())), &[3; 24]);
    assert_eq!(sealed.payload, Some(k.encrypt_with(&[3; 24], b"data").unwrap()));
    assert_eq!(seal_payload(&k, event("u", 1, None), &[3; 24]).payload, None);
    let other = open_payloads(&key(2), vec![sealed.clone()]);
    assert_ne!(other[0].payload, Some(b"data".to_vec()));
    let opened = open_payloads(&k, vec![sealed, event("v", 2, None), event("w", 3, Some(b"open".to_vec()))]);
    let payloads: Vec<_> = opened.into_iter().map(|e| e.payload).collect();
    assert_eq!(payloads, vec![Some(b"data".to_vec()), None, Some(b"open".to_vec())]);
}

#[test]
fn payloads_survive_an_exchange() {
    let k = key(1);
    let mut a = Database::new("A".to_string());
    let mut b = Database::new("B".to_string());
    keep_captured(&mut a, &k, ContentKind::Text, &b"from a".to_vec(), 100, None).unwrap();
    keep_captured(&mut b, &k, ContentKind::Text, &b"from b".to_vec(), 100, None).unwrap();

    let request = sync_request(&a, &k);
    assert_eq!(request.device_id, "A");
    assert_eq!(request.pushed_events[0].payload, Some(b"from a".to_vec()));
    let (answer, applied) = answer_request(&mut b, &k, request.pushed_events, &request.peer_sync_state);
    assert_eq!(applied, Ok(()));
    assert_eq!(answer.iter().map(|e| e.payload.clone().unwrap()).collect::<Vec<_>>().len(), 2);
    take_over(&mut a, &k, answer).unwrap();

    let texts = |db: &Database| {
        let mut t: Vec<String> = entries(&k, &db.get_all_clips()).into_iter().map(|e| e.content).collect();
        t.sort();
        t
    };
    assert_eq!(texts(&a), vec!["from a", "from b"]);
    assert_eq!(texts(&b), vec!["from a", "from b"]);
    for db in [&a, &b] {
        for c in db.get_all_clips() {
            assert!(c.2.len() > 40);
        }
    }
    let none = answer_events(&b, &k, &a.get_all_sync_states());
    assert!(none.iter().all(|e| e.device_id == "A"));
    let (answer, applied) = answer_request(&mut b, &k, Vec::new(), &Clocks::new());
    assert_eq!((answer.len(), applied), (2, Ok(())));
}

#[test]
fn events_are_taken_over_at_a_time() {
    let k = key(1);
    let mut a = Database::new("A".to_string());
    let mut early = event("u", 1, Some(b"x".to_vec()));
    early.timestamp = NOW + 3_600_000_001;
    let nonces = vec![Some(vec![3; 24]), Some(vec![4; 24])];
    let events = vec![early, event("v", 2, Some(b"y".to_vec()))];
    assert_eq!(take_over_with(&mut a, &k, events, &nonces, NOW), Ok(()));
    let clips = a.get_all_clips();
    assert_eq!(clips.len(), 1);
    assert_eq!(clips[0].2, k.encrypt_with(&[4; 24], b"y").unwrap());
}

#[test]
fn nothing_is_taken_over_in_the_open() {
    let k = key(1);
    let mut a = Database::new("A".to_string());
    let events = || vec![event("v", 1, Some(b"y".to_vec())), event("w", 2, Some(b"z".to_vec()))];
    for nonces in [vec![], vec![None, None], vec![Some(vec![4; 24])], vec![None, Some(vec![4; 24])]] {
        assert_eq!(take_over_with(&mut a, &k, events(), &nonces, NOW), Err(DbError::NoRandomness));
        assert!(a.clip_rows().is_empty() && a.event_rows().is_empty());
    }
    assert_eq!(take_over_with(&mut a, &k, vec![event("x", 1, None)], &vec![], NOW), Ok(()));
    assert_eq!(a.event_rows().len(), 1);
}

#[test]
fn each_payload_is_sealed_under_its_nonce() {
    let k = key(1);
    let events = || -> Vec<SyncEvent> {
        (0..3).map(|i| event("u", i, if i == 1 { None } else { Some(vec![i as u8]) })).collect()
    };
    let nonces = vec![Some(vec![7; 24]), None, Some(vec![8; 24])];
    let sealed = seal_payloads_with(&k, events(), &nonces).unwrap();
    let payloads: Vec<_> = sealed.into_iter().map(|e| e.payload).collect();
    let expected = |n: u8, i: u8| Some(k.encrypt_with(&[n; 24], &[i]).unwrap());
    assert_eq!(payloads, vec![expected(7, 0), None, expected(8, 2)]);
    assert!(seal_payloads_with(&k, events(), &vec![Some(vec![7; 24])]).is_none());
}

#[test]
fn an_attachment_is_named_by_its_file() {
    let mut e = event("clip", 1, None);
    assert_eq!(attachment_of(&e), None);
    e.has_attachment = None;
    assert_eq!(attachment_of(&e), None);
    e.has_attachment = Some(true);
    assert_eq!(attachment_of(&e), Some("clip".to_string()));
    e.attachment_path = Some("name".to_string());
    assert_eq!(attachment_of(&e), Some("name".to_string()));
    e.attachment_path = Some("some/dir/name.png".to_string());
    assert_eq!(attachment_of(&e), Some("name".to_string()));
    assert_eq!(attachment_at("some/dir/name.png"), "name");
    assert_eq!(attachment_at("name"), "name");
    assert_eq!(attachment_at(""), "");
    assert_eq!(attachment_at("/some.dir/0b-1.enc"), "0b-1");
    assert_eq!(attachment_at("d/u.bin"), "u");
    assert_eq!(attachment_at("C:\\Users\\me.you/u.bin"), "u");
    assert_eq!(attachment_from("", "u"), "u");
    assert_eq!(attachment_from("s", "u"), "s");
    assert!(must_fetch(false, false));
    assert!(!must_fetch(true, false) && !must_fetch(false, true) && !must_fetch(true, true));
}

#[test]
fn batches_make_up_the_events() {
    let events: Vec<SyncEvent> = (0..120).map(|i| event(&format!("u{}", i), i, None)).collect();
    let mut joined = Vec::new();
    let mut from = 0;
    while from < events.len() {
        let b = batch(&events, from);
        assert!(b.len() <= BATCH);
        joined.extend(b.into_iter().map(|e| e.vector_clock));
        from += BATCH;
    }
    assert_eq!(joined, (0..120).collect::<Vec<i64>>());
    assert!(batch(&events, 120).is_empty());
    let clocks: Vec<Vec<i64>> =
        batches(&events).into_iter().map(|b| b.into_iter().map(|e| e.vector_clock).collect()).collect();
    assert_eq!(clocks, vec![(0..50).collect::<Vec<i64>>(), (50..100).collect(), (100..120).collect()]);
    assert_eq!(batches(&events[..100].to_vec()).len(), 2);
    assert!(batches(&Vec::new()).is_empty());
}

#[test]
fn what_is_on_the_clipboard_is_sorted() {
    assert_eq!(captured_text(None), None);
    assert_eq!(captured_text(Some("")), None);
    assert_eq!(captured_text(Some("ä")), Some(vec![0xc3, 0xa4]));
    assert!(uses_attachment(ContentKind::Image, 0));
    assert!(!uses_attachment(ContentKind::Text, TEXT_ATTACHMENT_THRESHOLD));
    assert!(uses_attachment(ContentKind::Text, TEXT_ATTACHMENT_THRESHOLD + 1));
    assert_eq!(TEXT_ATTACHMENT_THRESHOLD, 500 * 1024);
    assert_eq!(content_type(ContentKind::Text), "text");
    assert_eq!(content_type(ContentKind::Image), "image");
}

#[test]
fn a_preview_shows_the_beginning() {
    let thumb = b"any carnal pleas".to_vec();
    assert_eq!(preview(ContentKind::Image, &vec![1], &thumb), b"YW55IGNhcm5hbCBwbGVhcw==".to_vec());
    assert_eq!(preview(ContentKind::Text, &b"ab".to_vec(), &thumb), b"[Large file: 2 bytes]\nab".to_vec());
    assert_eq!(preview(ContentKind::Image, &vec![1], &Vec::new()), Vec::<u8>::new());
    let mut long = vec![b'a'; 511];
    long.extend("ä".as_bytes());
    long.extend(vec![b'b'; 487]);
    let shown = String::from_utf8(preview(ContentKind::Text, &long, &Vec::new())).unwrap();
    assert_eq!(shown, format!("[Large file: 1000 bytes]\n{}\u{fffd}", "a".repeat(511)));
}

#[test]
fn the_watcher_tells_old_from_new() {
    let k = key(1);
    let mut db = Database::new("A".to_string());
    assert_eq!(latest_hash(&db, &k), None);
    keep_captured(&mut db, &k, ContentKind::Text, &b"abc".to_vec(), 100, None).unwrap();
    let digest = hex::decode("ba7816bf8f01cfea414140de5dae2223b00361a396177a9cb410ff61f20015ad").unwrap();
    assert_eq!(latest_hash(&db, &k), Some(digest));
    assert_eq!(latest_hash(&db, &key(2)), None);
    let mut w = Watcher::new(&db, &k);
    assert!(!w.note(b"abc"));
    assert!(w.note(b"abd"));
    assert!(!w.note(b"abd"));
    assert!(w.note(b"abc"));
    assert!(Watcher::new(&db, &key(2)).note(b"abc"));
}

#[test]
fn only_news_uses_up_the_wish_to_ignore() {
    let k = key(1);
    let mut db = Database::new("A".to_string());
    keep_captured(&mut db, &k, ContentKind::Text, &b"abc".to_vec(), 100, None).unwrap();
    let mut w = Watcher::new(&db, &k);
    assert_eq!(w.take_in(b"abc", true), (false, false));
    assert_eq!(w.take_in(b"abc", false), (false, false));
    assert_eq!(w.take_in(b"abd", true), (false, true));
    assert_eq!(w.take_in(b"abd", false), (false, false));
    assert_eq!(w.take_in(b"abe", false), (true, false));
}

#[test]
fn a_clip_is_kept_sealed() {
    let k = key(1);
    let mut db = Database::new("A".to_string());
    let r = keep_clip_with(&mut db, &k, "text", b"abc", 2, None, &[9; 24], "u".to_string(), NOW, NOW);
    assert_eq!(r, Ok(1));
    assert_eq!(db.get_all_clips()[0].2, k.encrypt_with(&[9; 24], b"abc").unwrap());
    let r = keep_clip_with(&mut db, &k, "text", b"abc", 2, None, &[9; 24], "u".to_string(), NOW, NOW);
    assert_eq!(r, Err(StoreError::Db(DbError::UuidTaken)));
    assert_eq!(keep_captured(&mut db, &k, ContentKind::Image, &b"p".to_vec(), 2, Some("file".to_string())), Ok(2));
    assert_eq!(db.get_all_clips()[0].7, Some("file".to_string()));
    assert_eq!(keep_captured(&mut db, &k, ContentKind::Text, &b"q".to_vec(), 2, None), Err(StoreError::Db(DbError::PayloadRequired)));
}

#[test]
fn what_was_captured_is_kept() {
    let k = key(1);
    let mut db = Database::new("A".to_string());
    let long = vec![b'x'; TEXT_ATTACHMENT_THRESHOLD + 1];
    assert_eq!(form_to_store(ContentKind::Image, &vec![1], &b"Man".to_vec()), b"TWFu");
    assert_eq!(form_to_store(ContentKind::Text, &b"short".to_vec(), &b"Man".to_vec()), b"short");
    let file = photo();
    let stub = base64::engine::general_purpose::STANDARD.encode(thumbnail(&file));
    assert!(!stub.is_empty() && stub.len() < file.len());
    keep_captured(&mut db, &k, ContentKind::Text, &b"short".to_vec(), 100, None).unwrap();
    keep_captured(&mut db, &k, ContentKind::Text, &long, 100, Some("file".to_string())).unwrap();
    keep_captured(&mut db, &k, ContentKind::Image, &file, 100, Some("pic".to_string())).unwrap();
    let shown = entries(&k, &db.get_all_clips());
    assert_eq!((shown[0].content.as_str(), shown[0].content_type.as_str()), (stub.as_str(), "image"));
    assert_eq!(shown[1].content, format!("[Large file: 512001 bytes]\n{}", "x".repeat(512)));
    assert_eq!((shown[2].content.as_str(), shown[2].has_attachment), ("short", false));
}

#[test]
fn text_from_a_phone_is_kept_once() {
    let k = key(1);
    let mut db = Database::new("A".to_string());
    assert_eq!(add_mobile_clip(&mut db, &k, "text", 100), Ok(true));
    assert_eq!(add_mobile_clip(&mut db, &k, "text", 100), Ok(false));
    assert_eq!(add_mobile_clip(&mut db, &k, "other", 100), Ok(true));
    assert_eq!(add_mobile_clip(&mut db, &k, "text", 100), Ok(true));
    assert_eq!(db.get_all_clips().len(), 3);
    assert_eq!(add_mobile_clip(&mut db, &k, "more", 2), Err(StoreError::Db(DbError::PayloadRequired)));
}

#[test]
fn what_is_kept_is_sealed_under_its_nonce() {
    let k = key(1);
    let mut db = Database::new("A".to_string());
    let picture = vec![1, 2, 3];
    let thumb = b"Man".to_vec();
    let nonce = [6; 24];
    let r = keep_captured_with(
        &mut db,
        &k,
        ContentKind::Image,
        &picture,
        &thumb,
        100,
        Some("pic".to_string()),
        &nonce,
        "u".to_string(),
        NOW,
        NOW,
    );
    assert_eq!(r, Ok(1));
    assert_eq!(db.get_all_clips()[0].2, k.encrypt_with(&nonce, b"TWFu").unwrap());
    assert_eq!(add_mobile_clip_with(&mut db, &k, "TWFu", 100, &nonce, "v".to_string(), NOW, NOW), None);
    assert_eq!(add_mobile_clip_with(&mut db, &k, "text", 100, &nonce, "v".to_string(), NOW, NOW), Some(Ok(2)));
    assert_eq!(db.get_all_clips()[0].2, k.encrypt_with(&nonce, b"text").unwrap());
    let taken = Some(Err(StoreError::Db(DbError::UuidTaken)));
    assert_eq!(add_mobile_clip_with(&mut db, &k, "more", 100, &nonce, "v".to_string(), NOW, NOW), taken);
}

#[test]
fn a_picture_from_a_phone_shows_its_thumbnail() {
    let k = key(1);
    let mut db = Database::new("A".to_string());
    assert_eq!(add_mobile_image(&mut db, &k, &b"Man".to_vec(), "file".to_string(), 100), Ok(1));
    let shown = entries(&k, &db.get_all_clips());
    assert_eq!(shown[0].content, "TWFu");
    assert_eq!(shown[0].content_type, "image");
    assert!(shown[0].has_attachment);
    assert_eq!(attachment_uuid(&shown[0]), Some("file".to_string()));
}

#[test]
fn a_picture_from_a_phone_is_sealed_under_its_nonce() {
    let k = key(1);
    let mut db = Database::new("A".to_string());
    let thumb = b"Man".to_vec();
    let mut add = |nonce: Option<Vec<u8>>, uuid: &str, limit: i64| {
        add_mobile_image_with(&mut db, &k, &thumb, "file".to_string(), limit, nonce, uuid.to_string(), NOW, NOW)
    };
    assert_eq!(add(Some(vec![5; 24]), "u", 100), Ok(1));
    assert_eq!(add(None, "v", 100), Ok(2));
    assert_eq!(add(None, "v", 100), Err(DbError::UuidTaken));
    assert_eq!(add(None, "w", 2), Err(DbError::PayloadRequired));
    let clips = db.get_all_clips();
    assert_eq!(clips[2].2, k.encrypt_with(&[5; 24], b"TWFu").unwrap());
    assert_eq!((clips[2].1.as_str(), clips[2].6, clips[2].7.as_deref()), ("image", true, Some("file")));
    assert!(clips[1].2.is_empty());
}

#[test]
fn only_what_can_be_opened_is_shown() {
    let k = key(1);
    let mut db = Database::new("A".to_string());
    db.insert_clip_at("text", b"not sealed", 100, false, None, "u1".to_string(), NOW, NOW).unwrap();
    db.insert_clip_at("image", b"not sealed", 100, true, Some("dir/pic.bin".to_string()), "u2".to_string(), NOW, NOW).unwrap();
    let binary = k.encrypt(&[0xff, 0xfe]).unwrap();
    db.insert_clip_at("text", &binary, 100, true, Some("x".to_string()), "u3".to_string(), NOW, NOW).unwrap();
    let good = k.encrypt("ä".as_bytes()).unwrap();
    db.insert_clip_at("text", &good, 100, false, Some("x".to_string()), "u4".to_string(), NOW, NOW).unwrap();
    let shown = entries(&k, &db.get_all_clips());
    assert_eq!(shown.iter().map(|e| (e.id, e.content.clone())).collect::<Vec<_>>(), vec![(4, "ä".to_string()), (2, String::new())]);
    assert_eq!(shown[0].attachment, None);
    assert_eq!(attachment_uuid(&shown[0]), None);
    assert_eq!(attachment_uuid(&shown[1]), Some("pic".to_string()));
    assert_eq!(content_from(Err(CryptoError::Cipher), true), Some(String::new()));
    assert_eq!(content_from(Err(CryptoError::Cipher), false), None);
    assert_eq!(content_from(Ok(vec![0xff]), true), None);
    assert_eq!(content_from(Ok(vec![]), false), Some(String::new()));
}
