//! What holds of the history store, on examples.
use cipherclip::db::Database;
use cipherclip::model::DbError;
use cipherclip::primitives::{fresh_uuid, uuid_from};
use cipherclip::tables::{ClipRow, Clocks, EventRow, KnownPeer, SyncEvent, SyncStateRow};

const NOW: i64 = 1_700_000_000_000_000;

fn clip(id: i64, uuid: Option<&str>) -> ClipRow {
    ClipRow {
        id,
        uuid: uuid.map(|u| u.to_string()),
        content_type: "text".to_string(),
        encrypted_payload: vec![id as u8],
        timestamp: NOW,
        pinned: false,
        is_deleted: false,
        is_locked: false,
        payload_hash: None,
        has_attachment: false,
        attachment_path: None,
    }
}

fn event(kind: &str, uuid: &str, device: &str, clock: i64, timestamp: i64) -> SyncEvent {
    SyncEvent {
        event_type: kind.to_string(),
        clip_uuid: uuid.to_string(),
        device_id: device.to_string(),
        vector_clock: clock,
        timestamp,
        content_type: Some("text".to_string()),
        payload: Some(vec![1, 2, 3]),
        has_attachment: Some(false),
        attachment_path: None,
        pinned: Some(false),
        is_locked: Some(false),
    }
}

fn with_clips(clips: Vec<ClipRow>) -> Database {
    let n = clips.len() as i64;
    Database::from_tables("A".to_string(), clips, n, Vec::new(), 0, Vec::new(), Vec::new()).unwrap()
}

fn dump(db: &Database) -> String {
    let clips: Vec<String> = db
        .clip_rows()
        .iter()
        .map(|c| {
            format!(
                "{} {:?} {} {:?} {} {} {} {} {:?} {} {:?}",
                c.id,
                c.uuid,
                c.content_type,
                c.encrypted_payload,
                c.timestamp,
                c.pinned,
                c.is_deleted,
                c.is_locked,
                c.payload_hash,
                c.has_attachment,
                c.attachment_path
            )
        })
        .collect();
    let events: Vec<String> = db
        .event_rows()
        .iter()
        .map(|e| format!("{} {} {} {} {}", e.id, e.event_type, e.clip_uuid, e.device_id, e.vector_clock))
        .collect();
    let states: Vec<String> = db
        .state_rows()
        .iter()
        .map(|s| format!("{} {} {}", s.author_id, s.peer_id, s.acknowledged_clock))
        .collect();
    format!("{:?} {:?} {:?}", clips, events, states)
}

#[test]
fn an_inserted_clip_is_on_top() {
    let mut db = Database::new("A".to_string());
    db.insert_clip_at("text", b"first", 100, false, None, "u1".to_string(), NOW, NOW).unwrap();
    let id = db
        .insert_clip_at("image", b"second", 100, true, Some("file".to_string()), "u2".to_string(), NOW + 1, NOW + 1)
        .unwrap();
    assert_eq!(id, 2);
    let clips = db.get_all_clips();
    assert_eq!(clips.len(), 2);
    assert_eq!(clips[0], (2, "image".to_string(), b"second".to_vec(), NOW + 1, false, false, true, Some("file".to_string())));
    assert_eq!(db.get_latest_hash(), Some(b"second".to_vec()));
    assert_eq!(db.get_clip_by_id(1), Some(("text".to_string(), b"first".to_vec())));
    assert_eq!(db.get_clip_by_id(9), None);
    assert_eq!(db.event_rows()[1].event_type, "INSERT");
    assert_eq!(db.event_rows()[1].payload, Some(b"second".to_vec()));
}

#[test]
fn the_digest_of_a_payload_is_sha256_in_hexadecimal() {
    let mut db = Database::new("A".to_string());
    db.insert_clip_at("text", b"abc", 100, false, None, "u1".to_string(), NOW, NOW).unwrap();
    let hash = "ba7816bf8f01cfea414140de5dae2223b00361a396177a9cb410ff61f20015ad";
    assert_eq!(db.get_hash_by_id(1), Ok(Some(hash.to_string())));
    assert_eq!(db.get_hash_by_id(2), Err(DbError::NoSuchClip));
    assert!(!db.is_locked_by_hash(hash));
    db.toggle_lock_by_hash(hash, true);
    assert!(db.is_locked_by_hash(hash));
    db.toggle_pin_by_hash(hash, true);
    assert!(db.get_all_clips()[0].4);
    db.delete_clip_by_hash(hash);
    assert!(db.get_all_clips().is_empty());
    assert!(!db.is_locked_by_hash("none"));
    assert_eq!(db.event_rows().len(), 1);
}

#[test]
fn a_fresh_uuid_is_given_to_each_clip() {
    let mut db = Database::new("A".to_string());
    db.insert_clip("text", b"x", 100, false, None).unwrap();
    db.insert_clip("text", b"x", 100, false, None).unwrap();
    let a = db.get_uuid_by_id(1).unwrap().unwrap();
    let b = db.get_uuid_by_id(2).unwrap().unwrap();
    assert_ne!(a, b);
    for u in [&a, &b] {
        assert_eq!(u.len(), 36);
        assert_eq!(&u[14..15], "4");
        assert!("89ab".contains(&u[19..20]));
        for (i, c) in u.chars().enumerate() {
            if i == 8 || i == 13 || i == 18 || i == 23 {
                assert_eq!(c, '-');
            } else {
                assert!(c.is_ascii_hexdigit() && !c.is_ascii_uppercase());
            }
        }
    }
    let clocks: Vec<i64> = db.event_rows().iter().map(|e| e.vector_clock).collect();
    assert!(clocks[0] < clocks[1]);
    assert!(clocks[0] > NOW);
}

#[test]
fn a_full_history_refuses_the_clip_it_has_written() {
    let mut db = Database::new("A".to_string());
    db.insert_clip_at("text", b"1", 2, false, None, "u1".to_string(), NOW, NOW).unwrap();
    db.insert_clip_at("text", b"2", 2, false, None, "u2".to_string(), NOW, NOW).unwrap();
    assert_eq!(
        db.insert_clip_at("text", b"3", 2, false, None, "u3".to_string(), NOW, NOW),
        Err(DbError::PayloadRequired)
    );
    assert_eq!(db.get_all_clips().len(), 3);
    assert_eq!(db.event_rows().len(), 3);
}

#[test]
fn a_limit_that_is_not_positive_is_a_hundred() {
    let mut db = Database::new("A".to_string());
    for i in 0..100 {
        db.insert_clip_at("text", b"1", 0, false, None, format!("u{}", i), NOW, NOW).unwrap();
    }
    assert_eq!(
        db.insert_clip_at("text", b"1", -5, false, None, "last".to_string(), NOW, NOW),
        Err(DbError::PayloadRequired)
    );
    assert_eq!(db.get_all_clips().len(), 100);
    assert_eq!(db.clip_rows().len(), 101);
}

#[test]
fn deleted_clips_of_some_age_are_dropped_at_an_insertion() {
    let mut db = Database::new("A".to_string());
    db.insert_clip_at("text", b"1", 100, false, None, "u1".to_string(), NOW, NOW).unwrap();
    db.insert_clip_at("text", b"2", 100, false, None, "u2".to_string(), NOW + 10, NOW).unwrap();
    db.delete_clip_at(1, NOW, NOW).unwrap();
    db.delete_clip_at(2, NOW, NOW).unwrap();
    db.insert_clip_at("text", b"3", 100, false, None, "u3".to_string(), NOW + 604_801, NOW).unwrap();
    assert_eq!(db.clip_rows().iter().map(|c| c.id).collect::<Vec<_>>(), vec![2, 3]);
}

#[test]
fn a_taken_uuid_is_refused() {
    let mut db = Database::new("A".to_string());
    db.insert_clip_at("text", b"1", 100, false, None, "u1".to_string(), NOW, NOW).unwrap();
    let before = dump(&db);
    assert_eq!(
        db.insert_clip_at("text", b"2", 100, false, None, "u1".to_string(), NOW, NOW),
        Err(DbError::UuidTaken)
    );
    assert_eq!(dump(&db), before);
}

#[test]
fn no_row_number_is_given_twice() {
    let mut db =
        Database::from_tables("A".to_string(), Vec::new(), i64::MAX, Vec::new(), 0, Vec::new(), Vec::new()).unwrap();
    assert_eq!(
        db.insert_clip_at("text", b"1", 100, false, None, "u".to_string(), NOW, NOW),
        Err(DbError::Full)
    );
    assert_eq!(db.apply_sync_events_at(&vec![event("INSERT", "u", "B", 1, NOW)], NOW), Err(DbError::Full));
    assert_eq!(db.apply_sync_events_at(&vec![event("DELETE", "u", "B", 1, NOW)], NOW), Ok(()));
    assert!(db.clip_rows().is_empty());

    let mut db =
        Database::from_tables("A".to_string(), vec![clip(1, Some("u"))], 1, Vec::new(), i64::MAX, Vec::new(), Vec::new())
            .unwrap();
    assert_eq!(db.toggle_pin_at(1, true, NOW, NOW), Err(DbError::Full));
    assert!(db.clip_rows()[0].pinned);
    assert_eq!(
        db.insert_clip_at("text", b"1", 100, false, None, "v".to_string(), NOW, NOW),
        Err(DbError::Full)
    );
    assert_eq!(db.delete_clip_at(1, NOW, NOW), Ok(()));
    assert!(db.event_rows().is_empty());
}

#[test]
fn clips_without_a_uuid_are_not_shared() {
    let mut db = with_clips(vec![clip(1, None), clip(2, Some("u"))]);
    assert_eq!(db.get_uuid_by_id(1), Err(DbError::MissingUuid));
    assert_eq!(db.get_uuid_by_id(2), Ok(Some("u".to_string())));
    assert_eq!(db.get_uuid_by_id(3), Ok(None));
    assert_eq!(db.toggle_pin_at(1, true, NOW, NOW), Err(DbError::MissingUuid));
    assert!(!db.clip_rows()[0].pinned);
    assert_eq!(db.toggle_pin_at(3, true, NOW, NOW), Err(DbError::NoSuchClip));
    assert_eq!(db.toggle_pin(3, true), Err(DbError::NoSuchClip));
    assert_eq!(db.toggle_lock_at(1, true, NOW, NOW), Err(DbError::MissingUuid));
    assert!(db.clip_rows()[0].is_locked);
    assert_eq!(db.toggle_lock(1, false), Ok(()));
    assert_eq!(db.delete_clip(1), Err(DbError::MissingUuid));
    assert!(db.clip_rows()[0].is_deleted);
    assert_eq!(db.clear_all_at(true, NOW, NOW), Err(DbError::MissingUuid));
    assert!(!db.clip_rows()[1].is_deleted);
    assert_eq!(db.permanently_delete_clip(1), Err(DbError::MissingUuid));
    assert_eq!(db.clip_rows().len(), 2);
    assert!(db.event_rows().is_empty());
}

#[test]
fn rows_that_are_no_store_are_refused() {
    let none = || Vec::<EventRow>::new();
    let states = || Vec::<SyncStateRow>::new();
    let peers = || Vec::<KnownPeer>::new();
    let a = "A".to_string();
    assert!(Database::from_tables(a.clone(), vec![clip(2, None), clip(1, None)], 2, none(), 0, states(), peers()).is_none());
    assert!(Database::from_tables(a.clone(), vec![clip(1, Some("u")), clip(2, Some("u"))], 2, none(), 0, states(), peers()).is_none());
    assert!(Database::from_tables(a.clone(), vec![clip(3, None)], 2, none(), 0, states(), peers()).is_none());
    assert!(Database::from_tables(a.clone(), Vec::new(), -1, none(), 0, states(), peers()).is_none());
    let s = || SyncStateRow { author_id: "x".to_string(), peer_id: "y".to_string(), acknowledged_clock: 1 };
    assert!(Database::from_tables(a.clone(), Vec::new(), 0, none(), 0, vec![s(), s()], peers()).is_none());
    let p = || KnownPeer { device_id: "x".to_string(), name: String::new(), last_seen: 1 };
    assert!(Database::from_tables(a.clone(), Vec::new(), 0, none(), 0, states(), vec![p(), p()]).is_none());
    assert!(Database::from_tables(a, vec![clip(1, None), clip(2, None)], 2, none(), 0, vec![s()], vec![p()]).is_some());
}

#[test]
fn locking_is_told_and_unlocking_is_not() {
    let mut db = with_clips(vec![clip(1, Some("u"))]);
    db.toggle_lock_at(1, true, NOW, NOW).unwrap();
    assert_eq!(db.event_rows().len(), 1);
    assert_eq!(db.event_rows()[0].event_type, "LOCK");
    db.toggle_lock_at(1, false, NOW, NOW).unwrap();
    assert_eq!(db.event_rows().len(), 1);
    assert!(!db.clip_rows()[0].is_locked);
    db.toggle_lock(1, true).unwrap();
    assert_eq!(db.event_rows().len(), 2);
}

#[test]
fn pinning_carries_the_attachment() {
    let mut c = clip(1, Some("u"));
    c.has_attachment = true;
    c.attachment_path = Some("file".to_string());
    let mut db = with_clips(vec![c]);
    db.toggle_pin_at(1, true, NOW, 7).unwrap();
    db.toggle_pin_at(1, false, NOW, 7).unwrap();
    let e = db.event_rows();
    assert_eq!((e[0].event_type.as_str(), e[0].vector_clock), ("PIN", 7));
    assert_eq!((e[1].event_type.as_str(), e[1].vector_clock), ("UNPIN", 8));
    assert_eq!(e[0].has_attachment, Some(true));
    assert_eq!(e[1].attachment_path, Some("file".to_string()));
}

#[test]
fn restoring_undoes_deleting_but_for_the_pin() {
    let mut c = clip(1, Some("u"));
    c.pinned = true;
    let mut db = with_clips(vec![c]);
    db.delete_clip_at(1, NOW, NOW).unwrap();
    assert!(db.get_all_clips().is_empty());
    assert_eq!(db.get_deleted_clips().len(), 1);
    db.restore_clip(1);
    let clips = db.get_all_clips();
    assert_eq!(clips.len(), 1);
    assert!(!clips[0].4);
}

#[test]
fn clearing_spares_locked_clips_unless_asked() {
    let mut locked = clip(2, Some("v"));
    locked.is_locked = true;
    let mut db = with_clips(vec![clip(1, Some("u")), locked]);
    db.clear_all_at(false, NOW, 5).unwrap();
    assert_eq!(db.get_all_clips().iter().map(|c| c.0).collect::<Vec<_>>(), vec![2]);
    db.clear_all_at(true, NOW, 5).unwrap();
    assert!(db.get_all_clips().is_empty());
    let clocks: Vec<(String, i64)> = db.event_rows().iter().map(|e| (e.clip_uuid.clone(), e.vector_clock)).collect();
    assert_eq!(clocks, vec![("u".to_string(), 5), ("u".to_string(), 6), ("v".to_string(), 6)]);
    db.empty_recycle_bin();
    assert!(db.clip_rows().is_empty());
    assert!(db.get_deleted_clips().is_empty());
    db.clear_all(true).unwrap();
}

#[test]
fn a_clip_deleted_for_good_is_gone() {
    let mut db = with_clips(vec![clip(1, Some("u")), clip(2, Some("v"))]);
    db.permanently_delete_clip_at(1, NOW, NOW).unwrap();
    assert_eq!(db.clip_rows().iter().map(|c| c.id).collect::<Vec<_>>(), vec![2]);
    assert_eq!(db.event_rows()[0].event_type, "DELETE");
    db.permanently_delete_clip_at(9, NOW, NOW).unwrap();
    db.permanently_delete_clip(2).unwrap();
    assert!(db.clip_rows().is_empty());
}

#[test]
fn applying_again_changes_nothing() {
    let mut db = Database::new("A".to_string());
    let events = vec![
        event("INSERT", "u", "B", 5, NOW),
        event("PIN", "u", "C", 3, NOW + 1),
        event("INSERT", "v", "B", 6, NOW + 4_000_000_000),
    ];
    db.apply_sync_events_at(&events, NOW).unwrap();
    let once = dump(&db);
    db.apply_sync_events_at(&events, NOW).unwrap();
    assert_eq!(dump(&db), once);
    assert_eq!(db.get_all_clips().len(), 1);
    assert!(db.get_all_clips()[0].4);
    assert_eq!(db.get_peer_sync_state("B"), 5);
    assert_eq!(db.get_peer_sync_state("C"), 3);
    assert_eq!(db.get_peer_sync_state("D"), 0);
}

#[test]
fn nothing_comes_back_from_the_recycle_bin() {
    let mut db = Database::new("A".to_string());
    db.apply_sync_events_at(&vec![event("DELETE", "u", "B", 1, NOW)], NOW).unwrap();
    db.apply_sync_events_at(&vec![event("INSERT", "u", "B", 2, NOW + 1)], NOW).unwrap();
    assert!(db.get_all_clips().is_empty());
    assert_eq!(db.get_deleted_clips()[0].2, vec![1, 2, 3]);
}

#[test]
fn a_deletion_wins_in_either_order() {
    let insert = event("INSERT", "u", "B", 1, NOW);
    let delete = event("DELETE", "u", "C", 1, NOW + 1);
    for events in [vec![insert.clone(), delete.clone()], vec![delete, insert]] {
        let mut db = Database::new("A".to_string());
        db.apply_sync_events_at(&events, NOW).unwrap();
        assert!(db.get_all_clips().is_empty());
        assert_eq!(db.get_deleted_clips().len(), 1);
    }
}

#[test]
fn the_later_write_wins_in_either_order() {
    let write = |kind: &str, device: &str, timestamp: i64| {
        let mut e = event(kind, "u", device, 1, timestamp);
        e.payload = Some(device.as_bytes().to_vec());
        e.pinned = if device == "C" { Some(true) } else { None };
        e
    };
    for (one, two) in [
        (write("INSERT", "B", NOW), write("UPDATE", "C", NOW)),
        (write("INSERT", "D", NOW), write("UPDATE", "C", NOW + 1)),
        (write("UPDATE", "C", NOW + 1), write("INSERT", "B", NOW)),
    ] {
        for events in [vec![one.clone(), two.clone()], vec![two, one]] {
            let mut db = Database::new("A".to_string());
            db.apply_sync_events_at(&events, NOW).unwrap();
            let clips = db.get_all_clips();
            assert_eq!(clips.len(), 1);
            assert_eq!((clips[0].0, clips[0].2.as_slice(), clips[0].4, clips[0].5), (1, b"C".as_slice(), true, false));
        }
    }
}

#[test]
fn authors_are_followed_to_their_largest_clock() {
    let mut db = Database::new("A".to_string());
    let events = vec![
        event("INSERT", "u", "B", 5, NOW),
        event("INSERT", "v", "B", 3, NOW),
        event("INSERT", "w", "C", 2, NOW),
        event("INSERT", "x", "B", 9, NOW + 3_600_000_001),
        event("PIN", "u", "B", 7, NOW - 1),
    ];
    db.apply_sync_events_at(&events, NOW).unwrap();
    let clocks = db.get_all_sync_states();
    assert_eq!((clocks.get("B"), clocks.get("C")), (Some(7), Some(2)));
    let logged: Vec<(String, i64)> = db.event_rows().iter().map(|e| (e.clip_uuid.clone(), e.vector_clock)).collect();
    assert_eq!(logged, vec![("u".to_string(), 5), ("w".to_string(), 2), ("u".to_string(), 7)]);
}

#[test]
fn an_insertion_leaves_live_clips_alone() {
    let mut db = Database::new("A".to_string());
    for (i, uuid) in ["u", "v", "w"].iter().enumerate() {
        let r = db.insert_clip_at("text", b"x", 2, false, None, uuid.to_string(), NOW + i as i64, NOW);
        assert_eq!(r, if i < 2 { Ok(i as i64 + 1) } else { Err(DbError::PayloadRequired) });
    }
    let ids: Vec<i64> = db.get_all_clips().iter().map(|c| c.0).collect();
    assert_eq!(ids, vec![3, 2, 1]);
    assert!(db.get_deleted_clips().is_empty());
}

#[test]
fn a_uuid_is_written_from_its_bytes() {
    let bytes: Vec<u8> = (0..16).collect();
    assert_eq!(uuid_from(&bytes), "00010203-0405-4607-8809-0a0b0c0d0e0f");
    assert_eq!(uuid_from(&[255; 16]), "ffffffff-ffff-4fff-bfff-ffffffffffff");
    assert_ne!(fresh_uuid().unwrap(), fresh_uuid().unwrap());
}

#[test]
fn equal_stamps_are_decided_by_the_device() {
    let mut db = Database::new("A".to_string());
    db.apply_sync_events_at(&vec![event("INSERT", "u", "C", 1, NOW)], NOW).unwrap();
    db.apply_sync_events_at(&vec![event("PIN", "u", "B", 1, NOW)], NOW).unwrap();
    assert!(!db.get_all_clips()[0].4);
    db.apply_sync_events_at(&vec![event("PIN", "u", "D", 1, NOW)], NOW).unwrap();
    assert!(db.get_all_clips()[0].4);
    db.apply_sync_events_at(&vec![event("UNPIN", "u", "E", 1, NOW + 1), event("LOCK", "u", "E", 2, NOW + 2)], NOW)
        .unwrap();
    assert!(!db.get_all_clips()[0].4);
    assert!(db.get_all_clips()[0].5);
}

#[test]
fn events_too_far_ahead_are_ignored() {
    let mut db = Database::new("A".to_string());
    db.apply_sync_events_at(&vec![event("INSERT", "u", "B", 1, NOW + 3_600_000_001)], NOW).unwrap();
    assert_eq!(db.get_peer_sync_state("B"), 0);
    db.apply_sync_events_at(&vec![event("INSERT", "u", "B", 1, NOW + 3_600_000_000)], NOW).unwrap();
    assert_eq!(db.get_peer_sync_state("B"), 1);
}

#[test]
fn an_attachment_without_a_payload_keeps_a_place() {
    let mut db = Database::new("A".to_string());
    let mut e = event("INSERT", "u", "B", 1, NOW);
    e.payload = None;
    e.has_attachment = Some(true);
    e.attachment_path = Some("file".to_string());
    db.apply_sync_events_at(&vec![e.clone()], NOW).unwrap();
    assert_eq!(db.get_all_clips()[0].2, Vec::<u8>::new());
    e.vector_clock = 2;
    e.timestamp = NOW + 1;
    e.payload = Some(vec![9]);
    db.apply_sync_events_at(&vec![e.clone()], NOW).unwrap();
    assert_eq!(db.get_all_clips()[0].2, vec![9]);
    e.vector_clock = 3;
    e.timestamp = NOW + 2;
    e.payload = None;
    db.apply_sync_events_at(&vec![e], NOW).unwrap();
    assert_eq!(db.get_all_clips()[0].2, vec![9]);
}

#[test]
fn one_exchange_catches_up() {
    let mut a = Database::new("A".to_string());
    let mut b = Database::new("B".to_string());
    for i in 0..4 {
        a.insert_clip_at("text", &[i], 100, false, None, format!("u{}", i), NOW + i as i64, NOW).unwrap();
    }
    a.delete_clip_at(2, NOW + 9, NOW).unwrap();
    let events = a.get_missing_events(&b.get_all_sync_states(), 50);
    assert_eq!(events.len(), 5);
    assert_eq!(events[1].event_type, "DELETE");
    assert_eq!(events[1].payload, None);
    b.apply_sync_events_at(&events, NOW).unwrap();
    assert!(a.get_missing_events(&b.get_all_sync_states(), 50).is_empty());
    assert_eq!(b.get_all_clips().iter().map(|c| c.2.clone()).collect::<Vec<_>>(), vec![vec![3], vec![2], vec![0]]);
    assert_eq!(b.get_all_sync_states().get("A"), Some(a.get_latest_hlc()));
    assert_eq!(a.get_latest_event_uuid(), Some("u1".to_string()));
    assert_eq!(Database::new("C".to_string()).get_latest_event_uuid(), None);
}

#[test]
fn one_missing_event_is_always_handed_out() {
    let mut a = Database::new("A".to_string());
    for i in 0..3 {
        a.insert_clip_at("text", &[i], 100, false, None, format!("u{}", i), NOW, NOW).unwrap();
    }
    assert_eq!(a.get_missing_events(&Clocks::new(), 0).len(), 1);
    assert_eq!(a.get_missing_events(&Clocks::new(), -3).len(), 1);
    assert_eq!(a.get_missing_events(&Clocks::new(), 2).len(), 2);
    assert_eq!(a.get_recent_events(2).iter().map(|e| e.clip_uuid.clone()).collect::<Vec<_>>(), vec!["u1", "u2"]);
    assert_eq!(a.get_recent_events(-1).len(), 3);
    assert_eq!(a.get_recent_events(0).len(), 0);
}

#[test]
fn only_acknowledged_events_are_pruned() {
    let mut a = Database::new("A".to_string());
    for i in 0..3 {
        a.insert_clip_at("text", &[i], 100, false, None, format!("u{}", i), NOW, i as i64 + 1).unwrap();
    }
    a.prune_tombstones();
    assert_eq!(a.event_rows().len(), 3);
    a.update_peer_sync_state("B", 2);
    a.update_peer_sync_state("C", 1);
    a.prune_tombstones();
    assert_eq!(a.event_rows().iter().map(|e| e.vector_clock).collect::<Vec<_>>(), vec![2, 3]);
    a.remove_peer_sync_state("C");
    a.prune_tombstones();
    assert_eq!(a.event_rows().iter().map(|e| e.vector_clock).collect::<Vec<_>>(), vec![3]);
}

#[test]
fn the_next_clock_is_past_all_clocks() {
    let mut db = Database::new("A".to_string());
    assert_eq!(db.next_hlc_at(7), 7);
    db.apply_sync_events_at(&vec![event("INSERT", "u", "B", 50, NOW)], NOW).unwrap();
    assert_eq!(db.next_hlc_at(7), 51);
    assert_eq!(db.next_hlc_at(99), 99);
    assert!(db.get_next_hlc().unwrap() > NOW);
    assert!(db.has_clock_left());
    db.apply_sync_events_at(&vec![event("INSERT", "v", "B", i64::MAX, NOW)], NOW).unwrap();
    assert!(!db.has_clock_left());
}

#[test]
fn known_devices_come_last_seen_first() {
    let mut db = Database::new("A".to_string());
    db.upsert_known_peer_at("x", "one", 1);
    db.upsert_known_peer_at("y", "two", 2);
    db.upsert_known_peer("z", "three").unwrap();
    let peers = db.get_known_peers();
    assert_eq!(peers.iter().map(|p| p.device_id.clone()).collect::<Vec<_>>(), vec!["z", "y", "x"]);
    assert!(peers[0].last_seen > 1_700_000_000);
    db.update_peer_sync_state("y", 3);
    db.remove_peer_sync_state("y");
    assert_eq!(db.get_known_peers().len(), 2);
    assert!(db.state_rows().is_empty());
    db.clear_all_peers();
    assert!(db.get_known_peers().is_empty());
    assert_eq!(db.device_id(), "A");
}

#[test]
fn only_what_changed_is_written() {
    let mut db = Database::new("A".to_string());
    for uuid in ["u", "v", "w"] {
        db.insert_clip_at("text", b"x", 100, false, None, uuid.to_string(), NOW, NOW).unwrap();
    }
    let clips = db.clip_rows().clone();
    let events = db.event_rows().clone();
    let unchanged = db.clip_changes_since(&clips);
    assert!(unchanged.gone.is_empty() && unchanged.written.is_empty());
    db.restore_clip(1);
    db.toggle_pin_at(2, true, NOW, NOW).unwrap();
    db.permanently_delete_clip_at(1, NOW, NOW).unwrap();
    db.insert_clip_at("text", b"y", 100, false, None, "z".to_string(), NOW, NOW).unwrap();
    let changes = db.clip_changes_since(&clips);
    assert_eq!((changes.gone, changes.written), (vec![1], vec![0, 2]));
    let changes = db.event_changes_since(&events);
    assert_eq!((changes.gone, changes.written), (vec![], vec![3, 4, 5]));
    let none = db.clip_changes_since(&Vec::new());
    assert_eq!((none.gone, none.written), (vec![], vec![0, 1, 2]));
    let mut altered = db.clip_rows().clone();
    altered[1].payload_hash = None;
    assert_eq!(db.clip_changes_since(&altered).written, vec![1]);
}
