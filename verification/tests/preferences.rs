//! Settings, files, passwords and text.
use cipherclip::commands::{has_master_password, set_master_password, set_sync_key, verify_master_password};
use cipherclip::crypto::{CryptoError, CryptoState};
use cipherclip::db::Database;
use cipherclip::discovery::discovery_message;
use cipherclip::network::NetworkManager;
use cipherclip::password::{check_password, first_fault, password_hash, PasswordError};
use cipherclip::settings::{default_theme, AppSettings, SettingsManager};
use cipherclip::storage::{
    export_name, export_name_at, file_to_show, file_uri, form_to_read, form_to_stream, forms_to_delete, fresh_name,
    is_for_sharing, FileForm, ShownFile, StorageManager,
};
use cipherclip::text::{blank, decimal_text, join, parse_i64, replace, split, starts_with, text_below, trim};

#[test]
fn a_new_device_has_these_settings() {
    let s = SettingsManager::new(None).get();
    assert_eq!(s.history_limit, 100);
    assert_eq!(s.global_shortcut, "CommandOrControl+Shift+C");
    assert_eq!(s.theme, default_theme());
    assert_eq!(s.theme, "system");
    assert_eq!(s.master_password_hash, None);
    assert!(s.blocked_ips.is_empty());
}

#[test]
fn settings_are_set() {
    let stored = AppSettings { history_limit: 7, ..AppSettings::default() };
    let mut m = SettingsManager::new(Some(stored));
    assert_eq!(m.get().history_limit, 7);
    m.set_limit(-1);
    m.set_theme("dark".to_string());
    m.set_shortcut("X".to_string());
    m.set_master_password_hash(Some("h".to_string()));
    assert!(m.add_blocked_ip("a".to_string()));
    assert!(m.add_blocked_ip("b".to_string()));
    assert!(!m.add_blocked_ip("a".to_string()));
    let s = m.get();
    assert_eq!((s.history_limit, s.theme.as_str(), s.global_shortcut.as_str()), (-1, "dark", "X"));
    assert_eq!(s.master_password_hash, Some("h".to_string()));
    assert_eq!(m.get_blocked_ips(), vec!["a", "b"]);
    m.clear_blocked_ips();
    assert!(m.get_blocked_ips().is_empty());
}

#[test]
fn attachments_have_these_files() {
    let s = StorageManager::new("d".to_string());
    let name = |p: cipherclip::storage::FilePath| format!("{}/{}", p.dir, p.name);
    assert_eq!(name(s.get_attachment_path("u")), "d/u.png");
    assert_eq!(name(s.get_legacy_attachment_path("u")), "d/u.bin");
    assert_eq!(name(s.get_encrypted_attachment_path("u")), "d/u.enc");
    assert_eq!(name(s.shrunk_attachment_path("u", 640)), "d/u-w640.jpg");
    assert_eq!(name(s.file_in("u", FileForm::Legacy)), "d/u.bin");
    assert_ne!(fresh_name().unwrap(), fresh_name().unwrap());
    assert_eq!(fresh_name().unwrap().len(), 36);
}

#[test]
fn files_are_chosen_by_what_is_there() {
    assert_eq!(form_to_read(true, true, true), Some(FileForm::Encrypted));
    assert_eq!(form_to_read(false, true, true), Some(FileForm::Plain));
    assert_eq!(form_to_read(false, false, true), Some(FileForm::Legacy));
    assert_eq!(form_to_read(false, false, false), None);
    assert_eq!(form_to_stream(true, true), FileForm::Plain);
    assert_eq!(form_to_stream(false, true), FileForm::Legacy);
    assert_eq!(form_to_stream(false, false), FileForm::Plain);
    assert_eq!(forms_to_delete(true, true), vec![FileForm::Plain, FileForm::Legacy]);
    assert_eq!(forms_to_delete(false, true), vec![FileForm::Legacy]);
    assert_eq!(forms_to_delete(false, false), Vec::<FileForm>::new());
    assert_eq!(file_to_show(true, true), ShownFile::Plain);
    assert_eq!(file_to_show(false, true), ShownFile::RenamedLegacy);
    assert_eq!(file_to_show(false, false), ShownFile::Legacy);
}

#[test]
fn exported_files_have_these_names() {
    assert_eq!(export_name_at("share", 1700000000000), "cipherclip-share-1700000000000.png");
    assert_eq!(export_name_at("download", 0), "cipherclip-0.png");
    assert!(is_for_sharing("share") && !is_for_sharing("Share"));
    let now = export_name("share").unwrap();
    assert!(now.starts_with("cipherclip-share-1") && now.ends_with(".png"));
    assert_eq!(file_uri("/a\\b", false), "file:///a\\b");
    assert_eq!(file_uri("C:\\a\\b", true), "file:///C:/a/b");
    assert_eq!(file_uri("file://x\\y", true), "file://x\\y");
    assert_eq!(file_uri(&file_uri("/a", false), false), "file:///a");
}

#[test]
fn passwords_follow_the_rules() {
    assert_eq!(check_password("Ab1!efg"), Some(PasswordError::TooShort));
    assert_eq!(check_password("ab1!efgh"), Some(PasswordError::NoUppercase));
    assert_eq!(check_password("AB1!EFGH"), Some(PasswordError::NoLowercase));
    assert_eq!(check_password("Abc!efgh"), Some(PasswordError::NoNumber));
    assert_eq!(check_password("Abc1efgh"), Some(PasswordError::NoSpecial));
    assert_eq!(check_password("Abc1!fgh"), None);
    // Characters are counted, not bytes, and every alphabet has its cases.
    assert_eq!(check_password("A\u{e9}1!\u{e9}\u{e9}"), Some(PasswordError::TooShort));
    assert_eq!(check_password("Äßé٣!éé"), Some(PasswordError::TooShort));
    assert_eq!(check_password("Äßé٣!ééé"), None);
    assert_eq!(first_fault(8, true, true, true, true), None);
    assert_eq!(first_fault(7, false, false, false, false), Some(PasswordError::TooShort));
    assert_eq!(PasswordError::TooShort.message(), "Password must be at least 8 characters long.");
    assert_eq!(PasswordError::NoUppercase.message(), "Password must contain at least one uppercase letter.");
    assert_eq!(PasswordError::NoLowercase.message(), "Password must contain at least one lowercase letter.");
    assert_eq!(PasswordError::NoNumber.message(), "Password must contain at least one number.");
    assert_eq!(PasswordError::NoSpecial.message(), "Password must contain at least one special character.");
    assert_eq!(password_hash("abc"), "ba7816bf8f01cfea414140de5dae2223b00361a396177a9cb410ff61f20015ad");
}

#[test]
fn a_master_password_is_set_and_taken_away() {
    let mut db = Database::new("A".to_string());
    db.insert_clip("text", b"x", 100, false, None).unwrap();
    db.toggle_lock(1, true).unwrap();
    let mut s = SettingsManager::new(None);
    assert!(!has_master_password(&s));
    assert!(verify_master_password(&s, "anything"));
    assert_eq!(set_master_password(&mut db, &mut s, Some("weak")), Err(PasswordError::TooShort));
    assert_eq!(set_master_password(&mut db, &mut s, Some("A\u{e9}1!\u{e9}\u{e9}")), Err(PasswordError::TooShort));
    assert!(!has_master_password(&s));
    assert_eq!(set_master_password(&mut db, &mut s, Some("Abc1!fgh")), Ok(()));
    assert!(has_master_password(&s));
    assert!(verify_master_password(&s, "Abc1!fgh"));
    assert!(!verify_master_password(&s, "Abc1!fgi"));
    let refused = set_master_password(&mut db, &mut s, Some("A\u{e9}1!\u{e9}\u{e9}")).unwrap_err();
    assert_eq!(refused.message(), "Password must be at least 8 characters long.");
    assert!(verify_master_password(&s, "Abc1!fgh"));
    assert!(db.get_all_clips()[0].5);
    assert_eq!(set_master_password(&mut db, &mut s, None), Ok(()));
    assert!(!has_master_password(&s));
    assert!(!db.get_all_clips()[0].5);
}

#[test]
fn a_new_key_starts_a_new_group() {
    let mut db = Database::new("A".to_string());
    db.insert_clip("text", b"x", 100, false, None).unwrap();
    db.upsert_known_peer_at("x", "one", 1);
    db.update_peer_sync_state("x", 4);
    let mut s = SettingsManager::new(None);
    s.add_blocked_ip("b".to_string());
    let mut k = CryptoState::from_key(vec![1; 32]).unwrap();
    let mut n = NetworkManager::new("me".to_string(), s.get_blocked_ips());
    n.on_datagram(&k, discovery_message(&k, "o", "i", "n", 1).as_bytes(), "c", 0);
    assert_eq!(set_sync_key(&mut n, &mut s, &mut db, &mut k, "00"), Err(CryptoError::KeyLength));
    assert!(n.peer_ips().is_empty() && !n.is_blocked("b"));
    assert!(s.get_blocked_ips().is_empty());
    assert!(db.get_known_peers().is_empty() && db.state_rows().is_empty());
    assert_eq!(db.get_all_clips().len(), 1);
    assert_eq!(k.get_key().unwrap(), vec![1; 32]);
    assert_eq!(set_sync_key(&mut n, &mut s, &mut db, &mut k, &"ab".repeat(32)), Ok(()));
    assert_eq!(k.get_key().unwrap(), vec![0xab; 32]);
}

#[test]
fn numbers_are_read_like_the_standard_library_reads_them() {
    for s in [
        "", "+", "-", "0", "-0", "+0", "007", "42", "-42", "+42", " 42", "42 ", "4 2", "4a", "--4", "+-4", "٣",
        "9223372036854775807", "9223372036854775808", "-9223372036854775808", "-9223372036854775809",
        "00000000000000000000000000000001", "99999999999999999999999999",
    ] {
        assert_eq!(parse_i64(s), s.parse::<i64>().ok(), "{}", s);
    }
    for n in [0u128, 9, 10, 1234567890, u128::MAX] {
        assert_eq!(decimal_text(n), n.to_string());
    }
}

#[test]
fn text_is_cut_like_the_standard_library_cuts_it() {
    for s in ["", ":", "a", "a:b", "a::b", ":a:", "ä:ö:ü"] {
        let parts: Vec<String> = s.split(':').map(|p| p.to_string()).collect();
        assert_eq!(split(s, ':'), parts);
        assert_eq!(join(&parts, 0, parts.len(), ':'), s);
        assert_eq!(join(&parts, 0, parts.len() - 1, ':'), parts[..parts.len() - 1].join(":"));
    }
    for s in ["", " ", "a", " a\t", "\u{2003}a b\u{85}\r\n", "\u{200b}a", "\x0b\x0ca"] {
        assert_eq!(trim(s), s.trim());
        assert_eq!(blank(s), s.trim().is_empty());
    }
    assert_eq!(replace("a\\b\\", '\\', '/'), "a/b/");
    assert!(starts_with("file://x", "file://") && !starts_with("file:/", "file://") && starts_with("x", ""));
}

#[test]
fn text_is_ordered_by_its_bytes() {
    let words = ["", "A", "AB", "Z", "a", "ä", "\u{ffff}", "\u{10000}"];
    for a in words {
        for b in words {
            assert_eq!(text_below(a, b), a.as_bytes() < b.as_bytes());
        }
    }
}
