//! Devices that were apart come together again.
use cipherclip::db::Database;
use cipherclip::tables::Clocks;
use std::time::{Duration, Instant};

fn setup_test_db(name: &str) -> Database {
    Database::new(name.to_string())
}

fn wait(millis: u64) {
    let start = Instant::now();
    while start.elapsed() < Duration::from_millis(millis) {}
}

fn clock_of(device: &str, clock: i64) -> Clocks {
    let mut map = Clocks::new();
    map.insert(device.to_string(), clock);
    map
}

#[test]
fn test_concurrent_offline_resolution() {
    let mut db_a = setup_test_db("Device_A");
    let mut db_b = setup_test_db("Device_B");

    let clip_id_a = db_a.insert_clip("TEXT", b"Hello", 100, false, None).unwrap();

    let events_from_a = db_a.get_missing_events(&Clocks::new(), 50);
    let max_clock_a = events_from_a.iter().map(|e| e.vector_clock).max().unwrap_or(0);
    db_b.apply_sync_events(events_from_a.clone()).unwrap();
    db_b.update_peer_sync_state("Device_A", max_clock_a);

    let clips_b = db_b.get_all_clips();
    assert_eq!(clips_b.len(), 1);
    let clip_id_b = clips_b[0].0;

    wait(5);
    db_a.toggle_pin(clip_id_a, true).unwrap();

    wait(5);
    db_b.delete_clip(clip_id_b).unwrap();

    let missing_for_b = db_a.get_missing_events(&clock_of("Device_A", db_b.get_peer_sync_state("Device_A")), 50);
    let missing_for_a = db_b.get_missing_events(&clock_of("Device_B", db_a.get_peer_sync_state("Device_B")), 50);

    db_b.apply_sync_events(missing_for_b).unwrap();
    db_a.apply_sync_events(missing_for_a).unwrap();

    assert_eq!(db_a.get_all_clips().len(), 0);
    assert_eq!(db_b.get_all_clips().len(), 0);
}

#[test]
fn test_offline_reconnection_catchup() {
    let mut db_a = setup_test_db("Device_A");
    let mut db_b = setup_test_db("Device_B");

    for i in 0..10 {
        db_a.insert_clip("TEXT", format!("Clip {}", i).as_bytes(), 100, false, None).unwrap();
        wait(2);
    }

    let missing_events = db_a.get_missing_events(&Clocks::new(), 50);
    assert_eq!(missing_events.len(), 10);

    db_b.apply_sync_events(missing_events).unwrap();

    let b_clips = db_b.get_all_clips();
    assert_eq!(b_clips.len(), 10);
    assert_eq!(b_clips[0].2, b"Clip 9");
    assert_eq!(b_clips[9].2, b"Clip 0");
}

#[test]
fn test_tombstone_sync_and_compaction() {
    let mut db_a = setup_test_db("Device_A");
    let mut db_b = setup_test_db("Device_B");

    let id_a = db_a.insert_clip("TEXT", b"To Be Deleted", 100, false, None).unwrap();
    let evts = db_a.get_missing_events(&Clocks::new(), 50);
    let max_clock_a2 = evts.iter().map(|e| e.vector_clock).max().unwrap_or(0);
    db_b.apply_sync_events(evts.clone()).unwrap();
    db_b.update_peer_sync_state("Device_A", max_clock_a2);

    assert_eq!(db_b.get_all_clips().len(), 1);

    wait(5);
    db_a.delete_clip(id_a).unwrap();
    println!("A clips after delete: {}", db_a.get_all_clips().len());

    let evts2 = db_a.get_missing_events(&clock_of("Device_A", db_b.get_peer_sync_state("Device_A")), 50);

    assert_eq!(evts2.len(), 1);
    assert_eq!(evts2[0].event_type, "DELETE");

    db_b.apply_sync_events(evts2).unwrap();

    let b_clips = db_b.get_all_clips();
    println!("B clips at end: {}", b_clips.len());
    for clip in b_clips {
        let hash = db_b.get_hash_by_id(clip.0).unwrap();
        println!("B clip id: {}, uuid: {:?}", clip.0, hash);
    }
    assert_eq!(db_b.get_all_clips().len(), 0);
    assert_eq!(db_a.get_all_clips().len(), 0);
}
