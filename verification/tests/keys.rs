//! Keys, sealing and tags.
use aes_gcm_siv::aead::{Aead, KeyInit};
use cipherclip::crypto::{settle, CryptoError, CryptoState, KeySource};
use cipherclip::primitives::HexError;
use hmac::Mac;

fn state() -> CryptoState {
    CryptoState::from_key((0..32).collect()).unwrap()
}

#[test]
fn sealed_data_open_again() {
    let c = state();
    for data in [&b""[..], b"x", b"some longer text that takes more than a block of the cipher, to be sure of it"] {
        let sealed = c.encrypt(data).unwrap();
        assert_eq!(sealed.len(), data.len() + 40);
        assert_ne!(&sealed[24..], data);
        assert_eq!(c.decrypt(&sealed).unwrap(), data);
    }
    assert_ne!(c.encrypt(b"x").unwrap(), c.encrypt(b"x").unwrap());
}

#[test]
fn the_nonce_stands_in_front() {
    let c = state();
    let nonce = [7u8; 24];
    let sealed = c.encrypt_with(&nonce, b"data").unwrap();
    let key: Vec<u8> = (0..32).collect();
    let cipher = chacha20poly1305::XChaCha20Poly1305::new_from_slice(&key).unwrap();
    let expected = cipher.encrypt(chacha20poly1305::XNonce::from_slice(&nonce), &b"data"[..]).unwrap();
    assert_eq!(&sealed[..24], &nonce);
    assert_eq!(&sealed[24..], &expected[..]);
}

#[test]
fn payloads_of_the_old_cipher_are_read() {
    let c = state();
    let key: Vec<u8> = (0..32).collect();
    let cipher = aes_gcm_siv::Aes256GcmSiv::new_from_slice(&key).unwrap();
    let nonce = [9u8; 12];
    let mut old = nonce.to_vec();
    old.extend(cipher.encrypt(aes_gcm_siv::Nonce::from_slice(&nonce), &b"from before"[..]).unwrap());
    assert_eq!(c.decrypt(&old).unwrap(), b"from before");
}

#[test]
fn what_cannot_be_opened_is_refused() {
    let c = state();
    let mut sealed = c.encrypt(b"data").unwrap();
    let last = sealed.len() - 1;
    sealed[last] ^= 1;
    assert_eq!(c.decrypt(&sealed), Err(CryptoError::Cipher));
    assert_eq!(c.decrypt(&[0; 24]), Err(CryptoError::Cipher));
    assert_eq!(c.decrypt(&[0; 23]), Err(CryptoError::TooShort));
    assert_eq!(c.decrypt(&[]), Err(CryptoError::TooShort));
    let other = CryptoState::from_key(vec![1; 32]).unwrap();
    assert_eq!(other.decrypt(&c.encrypt(b"data").unwrap()), Err(CryptoError::Cipher));
}

#[test]
fn the_first_cipher_that_reads_something_counts() {
    assert_eq!(settle(40, Some(vec![1]), Some(vec![2])), Ok(vec![1]));
    assert_eq!(settle(40, None, Some(vec![2])), Ok(vec![2]));
    assert_eq!(settle(24, None, None), Err(CryptoError::Cipher));
    assert_eq!(settle(23, None, None), Err(CryptoError::TooShort));
    assert_eq!(settle(23, None, Some(vec![])), Ok(vec![]));
}

#[test]
fn a_new_key_is_stored_and_read_back() {
    let (c, saved) = CryptoState::new(&KeySource::Nowhere).unwrap();
    let saved = saved.unwrap();
    assert_eq!(saved, hex::encode(c.get_key().unwrap()));
    let (again, nothing) = CryptoState::new(&KeySource::Keyring(saved.clone())).unwrap();
    assert_eq!(again.get_key(), c.get_key());
    assert_eq!(nothing, None);
    let (filed, _) = CryptoState::new(&KeySource::File(format!(" {}\r\n", saved))).unwrap();
    assert_eq!(filed.get_key(), c.get_key());
    assert_eq!(CryptoState::get_key_hex(&KeySource::File(format!("\t{}\n", saved))), Ok(saved.clone()));
    assert_eq!(CryptoState::get_key_hex(&KeySource::Keyring(saved.clone())), Ok(saved));
    assert_eq!(CryptoState::get_key_hex(&KeySource::Nowhere), Err(CryptoError::KeyNotFound));
}

#[test]
fn a_drawn_key_is_to_be_saved() {
    let (c, saved) = CryptoState::from_drawn_key((0..32).collect());
    assert_eq!(saved, "000102030405060708090a0b0c0d0e0f101112131415161718191a1b1c1d1e1f");
    assert_eq!(c.get_key().unwrap(), state().get_key().unwrap());
}

#[test]
fn stored_keys_are_checked() {
    let read = |s: &str| CryptoState::new(&KeySource::Keyring(s.to_string())).err();
    assert_eq!(read("abc"), Some(CryptoError::Hex(HexError::OddLength)));
    assert_eq!(read("abxy"), Some(CryptoError::Hex(HexError::InvalidHexCharacter { c: 'x', index: 2 })));
    assert_eq!(read("abcd"), Some(CryptoError::StoredKeyLength));
    assert_eq!(read(""), Some(CryptoError::StoredKeyLength));
    assert_eq!(read(" ab"), Some(CryptoError::Hex(HexError::OddLength)));
    assert_eq!(CryptoState::from_key(vec![0; 31]).err(), Some(CryptoError::StoredKeyLength));
    // A letter of two bytes is named by its first byte.
    assert_eq!(read("é"), Some(CryptoError::Hex(HexError::InvalidHexCharacter { c: 'Ã', index: 0 })));
}

#[test]
fn a_key_is_replaced_or_kept() {
    let mut c = state();
    let before = c.get_key().unwrap();
    assert_eq!(c.set_key_hex("12"), Err(CryptoError::KeyLength));
    assert_eq!(c.set_key_hex("1"), Err(CryptoError::Hex(HexError::OddLength)));
    assert_eq!(c.get_key().unwrap(), before);
    let written = "FFeeddccbbaa99887766554433221100ffeeddccbbaa99887766554433221100";
    c.set_key_hex(written).unwrap();
    assert_eq!(c.get_key().unwrap(), hex::decode(written).unwrap());
}

#[test]
fn the_digest_of_the_key_is_known() {
    let c = CryptoState::from_key(vec![0; 32]).unwrap();
    assert_eq!(c.get_sync_key_hash(), "66687aadf862bd776c8fc18b8e9f8e20089714856ee233b3902a591d0d5f2925");
}

#[test]
fn own_tags_are_accepted() {
    let c = state();
    let tag = c.generate_sync_state_mac("some text");
    assert_eq!(tag.len(), 64);
    assert!(c.verify_sync_state_mac("some text", &tag));
    assert!(c.verify_sync_state_mac("some text", &tag.to_uppercase()));
    assert!(!c.verify_sync_state_mac("other text", &tag));
    assert!(!c.verify_sync_state_mac("some text", &tag[..62]));
    assert!(!c.verify_sync_state_mac("some text", &tag[..63]));
    assert!(!c.verify_sync_state_mac("some text", &format!("{}00", tag)));
    assert!(!c.verify_sync_state_mac("some text", &format!("{}\u{e9}", &tag[..62])));
    assert!(!c.verify_sync_state_mac("some text", "zz"));
    assert!(!c.verify_sync_state_mac("some text", ""));
}

#[test]
fn tags_are_made_with_the_derived_key() {
    let c = state();
    let key: Vec<u8> = (0..32).collect();
    let mut derived = [0u8; 32];
    hkdf::Hkdf::<sha2::Sha256>::new(Some(b"cipherclip_discovery"), &key).expand(b"udp_broadcast", &mut derived).unwrap();
    let mut mac = <hmac::Hmac<sha2::Sha256> as Mac>::new_from_slice(&derived).unwrap();
    mac.update("päyload".as_bytes());
    assert_eq!(c.generate_sync_state_mac("päyload"), hex::encode(mac.finalize().into_bytes()));
}

#[test]
fn errors_are_reported_in_words() {
    let words = |e: CryptoError| e.message();
    assert_eq!(words(CryptoError::Hex(HexError::OddLength)), hex::decode("abc").unwrap_err().to_string());
    assert_eq!(words(CryptoError::Hex(HexError::OddLength)), "Odd number of digits");
    let invalid = HexError::InvalidHexCharacter { c: 'x', index: 2 };
    assert_eq!(words(CryptoError::Hex(invalid)), hex::decode("abxy").unwrap_err().to_string());
    assert_eq!(words(CryptoError::Hex(invalid)), "Invalid character 'x' at position 2");
    assert_eq!(words(CryptoError::StoredKeyLength), "Invalid key length stored in keyring");
    assert_eq!(words(CryptoError::KeyLength), "Invalid key length");
    assert_eq!(words(CryptoError::KeyNotFound), "Key not found");
    assert_eq!(words(CryptoError::TooShort), "Payload too short to contain nonce");
    assert_eq!(words(CryptoError::Cipher), aes_gcm_siv::aead::Error.to_string());
}
