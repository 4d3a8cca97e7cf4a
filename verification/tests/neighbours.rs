//! Announcements, farewells, and who is around.
use cipherclip::crypto::CryptoState;
use cipherclip::discovery::{
    device_label, disconnect_message, discovery_message, get_my_ip, interface_suffices, label_from, subnet_broadcast,
};
use cipherclip::network::{NetworkManager, SECOND};

fn key(n: u8) -> CryptoState {
    CryptoState::from_key(vec![n; 32]).unwrap()
}

fn manager() -> NetworkManager {
    NetworkManager::new("me".to_string(), Vec::new())
}

fn names(n: &mut NetworkManager, now: i64) -> Vec<(String, String)> {
    n.get_connected_peers(now).into_iter().map(|p| (p.ip, p.name)).collect()
}

#[test]
fn an_announcement_has_this_form() {
    let k = key(0);
    let m = discovery_message(&k, "id", "10.0.0.2", "my: phone", 42);
    let hash = k.get_sync_key_hash();
    let said = format!("CIPHERCLIP_DISCOVER:{}:id:10.0.0.2:my: phone:42", hash);
    assert_eq!(m, format!("{}:{}", said, k.generate_sync_state_mac(&said)));
    let said = format!("CIPHERCLIP_DISCOVER:{}:id:10.0.0.2:n:", hash);
    assert_eq!(discovery_message(&k, "id", "10.0.0.2", "n", 0), format!("{}:{}", said, k.generate_sync_state_mac(&said)));
    assert_eq!(disconnect_message(&k, "id", "10.0.0.2"), format!("CIPHERCLIP_DISCONNECT:{}:id:10.0.0.2", hash));
}

#[test]
fn an_announcement_is_understood() {
    let k = key(0);
    let mut n = manager();
    let m = discovery_message(&k, "other", "10.0.0.2", "a: b:", 42);
    let r = n.on_datagram(&k, m.as_bytes(), "10.0.0.9", 0);
    assert!(r.greet);
    assert_eq!(r.note, Some(("other".to_string(), "a: b:".to_string())));
    assert_eq!(r.catch_up, Some(42));
    assert!(!r.block);
    assert_eq!(names(&mut n, 0), vec![("10.0.0.9".to_string(), "a: b:".to_string())]);

    let again = n.on_datagram(&k, m.as_bytes(), "10.0.0.9", 30 * SECOND + SECOND - 1);
    assert!(!again.greet);
    assert_eq!(again.catch_up, None);
    let later = n.on_datagram(&k, m.as_bytes(), "10.0.0.9", 31 * SECOND);
    assert_eq!(later.catch_up, Some(42));
    let empty = discovery_message(&k, "other", "10.0.0.2", "n", 0);
    assert_eq!(n.on_datagram(&k, empty.as_bytes(), "10.0.0.8", 0).catch_up, Some(0));
}

#[test]
fn other_keys_and_oneself_are_not_heard() {
    let k = key(0);
    let mut n = manager();
    let own = discovery_message(&k, "me", "10.0.0.2", "n", 1);
    assert!(n.on_datagram(&k, own.as_bytes(), "10.0.0.9", 0).note.is_none());
    let foreign = discovery_message(&key(1), "other", "10.0.0.2", "n", 1);
    assert!(n.on_datagram(&k, foreign.as_bytes(), "10.0.0.9", 0).note.is_none());
    assert!(n.on_datagram(&k, b"CIPHERCLIP_DISCOVER:", "10.0.0.9", 0).note.is_none());
    assert!(n.on_datagram(&k, b"something else that is long enough", "10.0.0.9", 0).note.is_none());
    assert!(n.on_datagram(&k, b"CIPHERCLIP_DISCOVER:\xff\xff", "10.0.0.9", 0).note.is_none());
    assert!(names(&mut n, 0).is_empty());
}

#[test]
fn a_forged_clock_is_not_followed() {
    let k = key(0);
    let mut n = manager();
    let m = discovery_message(&k, "other", "10.0.0.2", "n", 42).replace(":42:", ":43:");
    let r = n.on_datagram(&k, m.as_bytes(), "10.0.0.9", 0);
    assert!(r.note.is_some());
    assert_eq!(r.catch_up, None);
}

#[test]
fn old_announcements_have_a_name_or_none() {
    let k = key(0);
    let mut n = manager();
    let hash = k.get_sync_key_hash();
    let r = n.hear_announcement(&k, &format!("{}:other:10.0.0.2", hash), "10.0.0.9", 0);
    assert_eq!(r.note, Some(("other".to_string(), "Unknown Device".to_string())));
    assert_eq!(r.catch_up, None);
    let r = n.hear_announcement(&k, &format!("{}:other:10.0.0.2:a:b", hash), "10.0.0.9", 0);
    assert_eq!(r.note, Some(("other".to_string(), "a:b".to_string())));
    assert!(n.hear_announcement(&k, &format!("{}:other", hash), "10.0.0.9", 0).note.is_none());
}

#[test]
fn a_colon_in_the_address_is_taken_for_the_name() {
    let k = key(0);
    let mut n = manager();
    let m = discovery_message(&k, "other", "fe80::1", "n", 42);
    let r = n.on_datagram(&k, m.as_bytes(), "10.0.0.9", 0);
    assert_eq!(r.note, Some(("other".to_string(), ":1:n".to_string())));
    assert_eq!(r.catch_up, Some(42));
}

#[test]
fn devices_that_are_gone_are_dropped() {
    let k = key(0);
    let mut n = manager();
    let m = discovery_message(&k, "other", "10.0.0.2", "n", 1);
    n.on_datagram(&k, m.as_bytes(), "10.0.0.9", 0);
    assert_eq!(names(&mut n, 45 * SECOND - 1).len(), 1);
    n.touch("10.0.0.9", 10 * SECOND);
    n.touch("10.0.0.7", 10 * SECOND);
    assert_eq!(n.peer_ips(), vec!["10.0.0.9"]);
    assert_eq!(names(&mut n, 55 * SECOND - 1).len(), 1);
    assert_eq!(names(&mut n, 55 * SECOND).len(), 0);
}

#[test]
fn a_farewell_blocks_the_sender() {
    let k = key(0);
    let mut n = manager();
    let m = discovery_message(&k, "other", "10.0.0.2", "n", 1);
    n.on_datagram(&k, m.as_bytes(), "10.0.0.9", 0);
    let bye = disconnect_message(&k, "other", "10.0.0.2");
    assert!(n.on_datagram(&k, bye.as_bytes(), "10.0.0.9", 1).block);
    assert!(!n.on_datagram(&k, bye.as_bytes(), "10.0.0.9", 1).block);
    assert!(n.is_blocked("10.0.0.9"));
    assert!(n.peer_ips().is_empty());
    assert!(n.on_datagram(&k, m.as_bytes(), "10.0.0.9", 2).note.is_none());
    assert!(!n.hear_farewell(&k, "wrong:other:10.0.0.2", "10.0.0.8").block);
    assert!(!n.hear_farewell(&k, &k.get_sync_key_hash(), "10.0.0.8").block);
    n.clear_blocks();
    assert!(!n.is_blocked("10.0.0.9"));
    assert!(n.on_datagram(&k, m.as_bytes(), "10.0.0.9", 2).greet);
    assert!(n.disconnect_peer("10.0.0.9"));
    assert!(!n.disconnect_peer("10.0.0.9"));
    assert!(n.peer_ips().is_empty());
    assert_eq!(n.instance_id(), "me");
}

#[test]
fn blocked_addresses_are_kept_once() {
    let n = NetworkManager::new("me".to_string(), vec!["a".to_string(), "b".to_string(), "a".to_string()]);
    assert!(n.is_blocked("a") && n.is_blocked("b") && !n.is_blocked("c"));
    let mut n = n;
    let k = key(0);
    n.on_datagram(&k, discovery_message(&k, "o", "i", "n", 1).as_bytes(), "c", 0);
    assert_eq!(n.peer_ips().len(), 1);
    n.clear_peers();
    assert!(n.peer_ips().is_empty());
}

#[test]
fn a_name_that_says_nothing_is_replaced() {
    assert_eq!(device_label(Some("Laptop")), "Laptop");
    assert_eq!(device_label(Some("UNKNOWN")), "Mobile Device");
    assert_eq!(device_label(Some("LocalHost")), "Mobile Device");
    assert_eq!(device_label(Some(" \t")), "Mobile Device");
    assert_eq!(device_label(Some("")), "Mobile Device");
    assert_eq!(device_label(Some("\u{2003}")), "Mobile Device");
    assert_eq!(device_label(None), "Unknown Device");
    assert_eq!(label_from("X", "unknown"), "Mobile Device");
    assert_eq!(label_from("X", "x"), "X");
}

#[test]
fn the_address_of_the_interface_comes_first() {
    assert_eq!(get_my_ip(Some("10.0.0.2"), Some("10.0.0.3")), "10.0.0.2");
    assert_eq!(get_my_ip(Some("127.0.0.1"), Some("10.0.0.3")), "10.0.0.3");
    assert_eq!(get_my_ip(None, Some("10.0.0.3")), "10.0.0.3");
    assert_eq!(get_my_ip(Some("127.0.0.1"), None), "127.0.0.1");
    assert_eq!(get_my_ip(None, None), "127.0.0.1");
    assert!(interface_suffices(Some("10.0.0.2")));
    assert!(!interface_suffices(Some("127.0.0.1")));
    assert!(!interface_suffices(None));
}

#[test]
fn the_subnet_is_taken_to_have_24_bits() {
    assert_eq!(subnet_broadcast(192, 168, 7), Some("192.168.7.255".to_string()));
    assert_eq!(subnet_broadcast(0, 0, 0), Some("0.0.0.255".to_string()));
    assert_eq!(subnet_broadcast(255, 255, 255), None);
}
