//! The key of a sync group and what is done with it: sealing and opening
//! payloads, and vouching for announcements.
use crate::primitives;
use crate::primitives::{hex_decode, hex_encode, hex_error_text, random_bytes, sha256, HexError};
use crate::tables::{bytes_of, copy_bytes};
use crate::text;
use crate::text::trim;
use aes_gcm_siv::aead::{Aead, KeyInit};
use hmac::Mac;
use vstd::prelude::*;
use vstd::slice::slice_subrange;
use vstd::utf8::*;

verus! {

broadcast use vstd::seq_lib::group_seq_properties;

/// The length of a key.
pub const KEY_LEN: usize = 32;

/// The length of the nonce in front of a sealed payload.
pub const NONCE_LEN: usize = 24;

/// The length of the nonce in front of an old sealed payload.
pub const OLD_NONCE_LEN: usize = 12;

/// The length of the tag behind a sealed payload.
pub const TAG_LEN: usize = 16;

/// The longest data that can be sealed: 2^32 - 2 blocks of 64 bytes.
pub const MAX_PLAIN: u64 = 274_877_906_816;

/// The longest payload that can be opened.
pub const MAX_SEALED: u64 = 274_877_906_856;

/// Why something could not be done with a key.
#[derive(Debug, Clone, Copy, PartialEq, Eq, Structural)]
pub enum CryptoError {
    /// The key is not written in hexadecimal.
    Hex(HexError),
    /// The stored key does not have 32 bytes.
    StoredKeyLength,
    /// The new key does not have 32 bytes.
    KeyLength,
    /// No key is stored.
    KeyNotFound,
    /// The payload is too short to hold a nonce.
    TooShort,
    /// The cipher refused: the payload was not sealed with this key, or is too
    /// long.
    Cipher,
    /// The machine gave no random bytes.
    NoRandomness,
}

impl CryptoError {
    /// The words in which it is reported.
    pub open spec fn words(self) -> Seq<char> {
        match self {
            CryptoError::Hex(e) => primitives::hex_error_words(e),
            CryptoError::StoredKeyLength => "Invalid key length stored in keyring"@,
            CryptoError::KeyLength => "Invalid key length"@,
            CryptoError::KeyNotFound => "Key not found"@,
            CryptoError::TooShort => "Payload too short to contain nonce"@,
            CryptoError::Cipher => "aead::Error"@,
            CryptoError::NoRandomness => "No random bytes"@,
        }
    }

    /// The words in which it is reported.
    pub fn message(&self) -> (r: String)
        ensures
            r@ == self.words(),
    {
        match self {
            CryptoError::Hex(e) => hex_error_text(*e),
            CryptoError::StoredKeyLength => "Invalid key length stored in keyring".to_owned(),
            CryptoError::KeyLength => "Invalid key length".to_owned(),
            CryptoError::KeyNotFound => "Key not found".to_owned(),
            CryptoError::TooShort => "Payload too short to contain nonce".to_owned(),
            CryptoError::Cipher => "aead::Error".to_owned(),
            CryptoError::NoRandomness => "No random bytes".to_owned(),
        }
    }
}

// ---------------------------------------------------------------------------
// Outside functions
// ---------------------------------------------------------------------------

/// What XChaCha20-Poly1305 makes of data under a key and a nonce: the
/// ciphertext with the tag behind it.
pub uninterp spec fn xchacha_sealed(key: Seq<u8>, nonce: Seq<u8>, data: Seq<u8>) -> Seq<u8>;

/// What XChaCha20-Poly1305 reads from a ciphertext with its tag; nothing where
/// the tag does not fit.
pub uninterp spec fn xchacha_opened(key: Seq<u8>, nonce: Seq<u8>, sealed: Seq<u8>) -> Option<Seq<u8>>;

/// What AES-256-GCM-SIV reads from a ciphertext with its tag; nothing where the
/// tag does not fit.
pub uninterp spec fn aes_siv_opened(key: Seq<u8>, nonce: Seq<u8>, sealed: Seq<u8>) -> Option<Seq<u8>>;

/// The 32 bytes that HKDF-SHA256 derives from a key.
pub uninterp spec fn hkdf_sha256(salt: Seq<u8>, key: Seq<u8>, info: Seq<u8>) -> Seq<u8>;

/// The HMAC-SHA256 tag of data under a key.
pub uninterp spec fn hmac_sha256(key: Seq<u8>, data: Seq<u8>) -> Seq<u8>;

/// Whether XChaCha20-Poly1305 reads those data from a ciphertext.
pub open spec fn xchacha_opens(key: Seq<u8>, nonce: Seq<u8>, sealed: Seq<u8>, data: Seq<u8>) -> bool {
    xchacha_opened(key, nonce, sealed) == Some(data)
}

/// The bytes of an optional vector.
pub open spec fn opt_seq(o: Option<Vec<u8>>) -> Option<Seq<u8>> {
    match o {
        Some(v) => Some(v@),
        None => None,
    }
}

/// `XChaCha20Poly1305::encrypt` without associated data. The result is the data
/// and a tag of 16 bytes longer, and opening it under the same key and nonce
/// gives the data back. Longer data than admitted here are refused by the
/// cipher or stop the program.
#[verifier::external_body]
fn xchacha_seal(key: &[u8], nonce: &[u8], data: &[u8]) -> (r: Option<Vec<u8>>)
    requires
        key@.len() == 32,
        nonce@.len() == 24,
        data@.len() <= MAX_PLAIN,
    ensures
        r is Some,
        r->0@ == xchacha_sealed(key@, nonce@, data@),
        r->0@.len() == data@.len() + 16,
        xchacha_opens(key@, nonce@, r->0@, data@),
{
    let cipher = chacha20poly1305::XChaCha20Poly1305::new(chacha20poly1305::Key::from_slice(key));
    cipher.encrypt(chacha20poly1305::XNonce::from_slice(nonce), data).ok()
}

/// `XChaCha20Poly1305::decrypt` without associated data. What is read is a tag
/// of 16 bytes shorter.
#[verifier::external_body]
fn xchacha_open(key: &[u8], nonce: &[u8], sealed: &[u8]) -> (r: Option<Vec<u8>>)
    requires
        key@.len() == 32,
        nonce@.len() == 24,
        sealed@.len() <= MAX_PLAIN + 16,
    ensures
        opt_seq(r) == xchacha_opened(key@, nonce@, sealed@),
        r is Some ==> r->0@.len() + 16 == sealed@.len(),
{
    let cipher = chacha20poly1305::XChaCha20Poly1305::new(chacha20poly1305::Key::from_slice(key));
    cipher.decrypt(chacha20poly1305::XNonce::from_slice(nonce), sealed).ok()
}

/// `Aes256GcmSiv::decrypt` without associated data. What is read is a tag of 16
/// bytes shorter, so that nothing is read from less.
#[verifier::external_body]
fn aes_siv_open(key: &[u8], nonce: &[u8], sealed: &[u8]) -> (r: Option<Vec<u8>>)
    requires
        key@.len() == 32,
        nonce@.len() == 12,
    ensures
        opt_seq(r) == aes_siv_opened(key@, nonce@, sealed@),
        r is Some ==> r->0@.len() + 16 == sealed@.len(),
{
    let cipher = aes_gcm_siv::Aes256GcmSiv::new(aes_gcm_siv::Key::<aes_gcm_siv::Aes256GcmSiv>::from_slice(key));
    cipher.decrypt(aes_gcm_siv::Nonce::from_slice(nonce), sealed).ok()
}

/// `Hkdf::<Sha256>::new` and `expand` to 32 bytes, which is within the length
/// that can be derived.
#[verifier::external_body]
fn hkdf_derive(salt: &[u8], key: &[u8], info: &[u8]) -> (r: Vec<u8>)
    ensures
        r@ == hkdf_sha256(salt@, key@, info@),
        r@.len() == 32,
{
    let mut okm = [0u8; 32];
    hkdf::Hkdf::<sha2::Sha256>::new(Some(salt), key).expand(info, &mut okm).unwrap();
    okm.to_vec()
}

/// `Hmac::<Sha256>`, keyed, fed with the data and finalized: a tag of 32 bytes.
/// A key of any length will do.
#[verifier::external_body]
fn hmac_tag(key: &[u8], data: &[u8]) -> (r: Vec<u8>)
    ensures
        r@ == hmac_sha256(key@, data@),
        r@.len() == 32,
{
    let mut mac = <hmac::Hmac<sha2::Sha256> as Mac>::new_from_slice(key).unwrap();
    mac.update(data);
    mac.finalize().into_bytes().to_vec()
}

/// `Hmac::<Sha256>::verify_slice`: whether the whole tag is that of the data.
#[verifier::external_body]
fn hmac_verify(key: &[u8], data: &[u8], tag: &[u8]) -> (r: bool)
    ensures
        r == (tag@ == hmac_sha256(key@, data@)),
{
    let mut mac = <hmac::Hmac<sha2::Sha256> as Mac>::new_from_slice(key).unwrap();
    mac.update(data);
    mac.verify_slice(tag).is_ok()
}

/// A fresh nonce, or nothing where the machine gives no random bytes.
pub fn fresh_nonce() -> (r: Option<Vec<u8>>)
    ensures
        r matches Some(n) ==> n@.len() == NONCE_LEN,
{
    random_bytes(NONCE_LEN)
}

// ---------------------------------------------------------------------------
// Keys
// ---------------------------------------------------------------------------

/// Where a key was found.
pub enum KeySource {
    /// The keyring of the system holds this text.
    Keyring(String),
    /// The key file holds this text.
    File(String),
    /// Neither holds one.
    Nowhere,
}

/// What reading a stored key comes to: hexadecimal text for 32 bytes is the
/// key.
pub open spec fn key_read(text: Seq<u8>, r: Result<Seq<u8>, CryptoError>, wrong_length: CryptoError) -> bool {
    match r {
        Ok(key) => text.len() == 64 && primitives::all_hex(text) && key == primitives::hex_bytes(text),
        Err(CryptoError::Hex(e)) => primitives::hex_read(text, Err(e)),
        Err(e) => e == wrong_length && text.len() % 2 == 0 && primitives::all_hex(text) && text.len() != 64,
    }
}

/// What becomes of a key when another is set by its text, with the answer.
pub open spec fn key_set(before: Seq<u8>, text: Seq<char>, after: Seq<u8>, r: Result<(), CryptoError>) -> bool {
    match r {
        Ok(_) => key_read(encode_utf8(text), Ok(after), CryptoError::KeyLength),
        Err(e) => after == before && key_read(encode_utf8(text), Err(e), CryptoError::KeyLength),
    }
}

/// The key behind a state, or the error.
pub open spec fn key_result(r: Result<(CryptoState, Option<String>), CryptoError>) -> Result<Seq<u8>, CryptoError> {
    match r {
        Ok(p) => Ok(p.0@),
        Err(e) => Err(e),
    }
}

/// What a payload holds under a key: the nonce comes first, then the
/// ciphertext. Payloads of the old cipher are read too.
pub open spec fn decrypted(key: Seq<u8>, payload: Seq<u8>) -> Result<Seq<u8>, CryptoError> {
    if payload.len() < NONCE_LEN {
        Err(CryptoError::TooShort)
    } else if payload.len() > MAX_SEALED {
        Err(CryptoError::Cipher)
    } else {
        match xchacha_opened(key, payload.take(24), payload.skip(24)) {
            Some(data) => Ok(data),
            None => match aes_siv_opened(key, payload.take(12), payload.skip(12)) {
                Some(data) => Ok(data),
                None => Err(CryptoError::Cipher),
            },
        }
    }
}

/// A payload: the nonce, then the ciphertext with its tag.
pub open spec fn sealed_with(key: Seq<u8>, nonce: Seq<u8>, data: Seq<u8>) -> Seq<u8> {
    nonce + xchacha_sealed(key, nonce, data)
}

/// The bytes that came out, or the error.
pub open spec fn bytes_result(r: Result<Vec<u8>, CryptoError>) -> Result<Seq<u8>, CryptoError> {
    match r {
        Ok(v) => Ok(v@),
        Err(e) => Err(e),
    }
}

/// What is made of the outcomes of the two ciphers for a payload of some
/// length: the first that read something counts. A payload without room for a
/// nonce is only refused as too short.
pub open spec fn settled(
    length: int,
    primary: Option<Seq<u8>>,
    old_cipher: Option<Seq<u8>>,
) -> Result<Seq<u8>, CryptoError> {
    match primary {
        Some(data) => Ok(data),
        None => match old_cipher {
            Some(data) => Ok(data),
            None => if length < NONCE_LEN {
                Err(CryptoError::TooShort)
            } else {
                Err(CryptoError::Cipher)
            },
        },
    }
}

/// What is made of the outcomes of the two ciphers.
pub fn settle(length: usize, primary: Option<Vec<u8>>, old_cipher: Option<Vec<u8>>) -> (r: Result<Vec<u8>, CryptoError>)
    ensures
        bytes_result(r) == settled(length as int, opt_seq(primary), opt_seq(old_cipher)),
{
    match primary {
        Some(data) => Ok(data),
        None => match old_cipher {
            Some(data) => Ok(data),
            None => if length < NONCE_LEN {
                Err(CryptoError::TooShort)
            } else {
                Err(CryptoError::Cipher)
            },
        },
    }
}

/// The salt under which the discovery key is derived.
pub open spec fn discovery_salt() -> Seq<u8> {
    encode_utf8("cipherclip_discovery"@)
}

/// The purpose under which the discovery key is derived.
pub open spec fn discovery_info() -> Seq<u8> {
    encode_utf8("udp_broadcast"@)
}

/// The tag that vouches for a text.
pub open spec fn sync_state_tag(key: Seq<u8>, payload: Seq<char>) -> Seq<u8> {
    hmac_sha256(hkdf_sha256(discovery_salt(), key, discovery_info()), encode_utf8(payload))
}

/// Whether a written tag vouches for a text: it is hexadecimal, and stands for
/// the tag of the text.
pub open spec fn vouches(key: Seq<u8>, payload: Seq<char>, written: Seq<char>) -> bool {
    let text = encode_utf8(written);
    &&& text.len() % 2 == 0
    &&& primitives::all_hex(text)
    &&& primitives::hex_bytes(text) == sync_state_tag(key, payload)
}

/// The key of a sync group.
pub struct CryptoState {
    raw_key: Vec<u8>,
}

impl View for CryptoState {
    type V = Seq<u8>;

    closed spec fn view(&self) -> Seq<u8> {
        self.raw_key@
    }
}

fn read_key(text: &[u8], wrong_length: CryptoError) -> (r: Result<Vec<u8>, CryptoError>)
    requires
        wrong_length !is Hex,
    ensures
        key_read(text@, bytes_result(r), wrong_length),
{
    match hex_decode(text) {
        Ok(key) => if key.len() == KEY_LEN {
            Ok(key)
        } else {
            Err(wrong_length)
        },
        Err(e) => Err(CryptoError::Hex(e)),
    }
}

impl CryptoState {
    /// A key has 32 bytes.
    pub open spec fn wf(&self) -> bool {
        self@.len() == KEY_LEN
    }

    /// A state with the given key.
    pub fn from_key(key: Vec<u8>) -> (r: Result<CryptoState, CryptoError>)
        ensures
            match r {
                Ok(c) => key@.len() == KEY_LEN && c@ == key@ && c.wf(),
                Err(e) => key@.len() != KEY_LEN && e == CryptoError::StoredKeyLength,
            },
    {
        if key.len() != KEY_LEN {
            return Err(CryptoError::StoredKeyLength);
        }
        Ok(CryptoState { raw_key: key })
    }

    /// The state of a new device with the key that was drawn for it, and the
    /// text under which the key is to be stored.
    pub fn from_drawn_key(key: Vec<u8>) -> (r: (CryptoState, String))
        requires
            key@.len() == KEY_LEN,
        ensures
            r.0.wf(),
            r.0@ == key@,
            r.1@ == primitives::hex_text(key@),
    {
        let saved = hex_encode(key.as_slice());
        (CryptoState { raw_key: key }, saved)
    }

    /// The key of this device: the stored one, or else a new one, which then
    /// has to be stored. The text to store comes back in that case.
    pub fn new(source: &KeySource) -> (r: Result<(CryptoState, Option<String>), CryptoError>)
        ensures
            r matches Ok(p) ==> p.0.wf(),
            match source {
                KeySource::Keyring(text) => key_read(
                    encode_utf8(text@),
                    key_result(r),
                    CryptoError::StoredKeyLength,
                ) && (r matches Ok(p) ==> p.1 is None),
                KeySource::File(text) => key_read(
                    encode_utf8(text::trimmed(text@)),
                    key_result(r),
                    CryptoError::StoredKeyLength,
                ) && (r matches Ok(p) ==> p.1 is None),
                KeySource::Nowhere => match r {
                    Ok(p) => p.1 matches Some(saved) && saved@ == primitives::hex_text(p.0@),
                    Err(e) => e == CryptoError::NoRandomness,
                },
            },
    {
        match source {
            KeySource::Keyring(text) => match read_key(text.as_str().as_bytes(), CryptoError::StoredKeyLength) {
                Ok(key) => Ok((CryptoState { raw_key: key }, None)),
                Err(e) => Err(e),
            },
            KeySource::File(text) => {
                let t = trim(text.as_str());
                match read_key(t.as_str().as_bytes(), CryptoError::StoredKeyLength) {
                    Ok(key) => Ok((CryptoState { raw_key: key }, None)),
                    Err(e) => Err(e),
                }
            },
            KeySource::Nowhere => match random_bytes(KEY_LEN) {
                Some(key) => {
                    let (state, saved) = CryptoState::from_drawn_key(key);
                    Ok((state, Some(saved)))
                },
                None => Err(CryptoError::NoRandomness),
            },
        }
    }

    /// The digest of the key, by which devices with the same key find each
    /// other.
    pub fn get_sync_key_hash(&self) -> (r: String)
        ensures
            r@ == primitives::hex_text(primitives::sha256_digest(self@)),
    {
        hex_encode(sha256(self.raw_key.as_slice()).as_slice())
    }

    fn discovery_key(&self) -> (r: Vec<u8>)
        ensures
            r@ == hkdf_sha256(discovery_salt(), self@, discovery_info()),
    {
        hkdf_derive(
            "cipherclip_discovery".as_bytes(),
            self.raw_key.as_slice(),
            "udp_broadcast".as_bytes(),
        )
    }

    /// The written tag that vouches for a text: 64 hexadecimal digits, in lower
    /// case.
    pub fn generate_sync_state_mac(&self, payload: &str) -> (r: String)
        ensures
            r@ == primitives::hex_text(sync_state_tag(self@, payload@)),
            r@.len() == 64,
            forall|i: int| 0 <= i < 64 ==> '0' <= #[trigger] r@[i] <= '9' || 'a' <= r@[i] <= 'f',
            vouches(self@, payload@, r@),
            forall|written: Seq<char>|
                #[trigger] vouches(self@, payload@, written) <==> lowered(written) == r@,
    {
        let tag = hmac_tag(self.discovery_key().as_slice(), payload.as_bytes());
        let r = hex_encode(tag.as_slice());
        proof {
            assert forall|i: int| 0 <= i < 64 implies '0' <= #[trigger] r@[i] <= '9' || 'a' <= r@[i] <= 'f' by {
                let b = tag@[i / 2] as int;
                assert(0 <= b / 16 < 16 && 0 <= b % 16 < 16);
            }
            own_tag_is_accepted(self@, payload@, 0);
            assert forall|written: Seq<char>| #[trigger]
                vouches(self@, payload@, written) <==> lowered(written) == r@ by {
                only_the_tag_vouches(self@, payload@, written);
            }
        }
        r
    }

    /// Whether a written tag vouches for a text. The digits may be in either
    /// case.
    pub fn verify_sync_state_mac(&self, payload: &str, provided_mac_hex: &str) -> (r: bool)
        ensures
            r == vouches(self@, payload@, provided_mac_hex@),
    {
        match hex_decode(provided_mac_hex.as_bytes()) {
            Ok(tag) => hmac_verify(self.discovery_key().as_slice(), payload.as_bytes(), tag.as_slice()),
            Err(_) => false,
        }
    }

    /// The key.
    pub fn get_key(&self) -> (r: Result<Vec<u8>, CryptoError>)
        ensures
            r matches Ok(key) && key@ == self@,
    {
        Ok(copy_bytes(&self.raw_key))
    }

    /// The stored key as it is written.
    pub fn get_key_hex(source: &KeySource) -> (r: Result<String, CryptoError>)
        ensures
            match source {
                KeySource::Keyring(text) => r matches Ok(t) && t@ == text@,
                KeySource::File(text) => r matches Ok(t) && t@ == text::trimmed(text@),
                KeySource::Nowhere => r matches Err(e) && e == CryptoError::KeyNotFound,
            },
    {
        match source {
            KeySource::Keyring(text) => Ok(text.clone()),
            KeySource::File(text) => Ok(trim(text.as_str())),
            KeySource::Nowhere => Err(CryptoError::KeyNotFound),
        }
    }

    /// Replaces the key by a written one. A refused one leaves the key as it
    /// is.
    pub fn set_key_hex(&mut self, hex_key: &str) -> (r: Result<(), CryptoError>)
        requires
            old(self).wf(),
        ensures
            final(self).wf(),
            match r {
                Ok(_) => key_read(encode_utf8(hex_key@), Ok(final(self)@), CryptoError::KeyLength),
                Err(e) => final(self)@ == old(self)@ && key_read(
                    encode_utf8(hex_key@),
                    Err(e),
                    CryptoError::KeyLength,
                ),
            },
            key_set(old(self)@, hex_key@, final(self)@, r),
    {
        match read_key(hex_key.as_bytes(), CryptoError::KeyLength) {
            Ok(key) => {
                self.raw_key = key;
                Ok(())
            },
            Err(e) => Err(e),
        }
    }

    /// Seals data under a given nonce.
    pub fn encrypt_with(&self, nonce: &[u8], data: &[u8]) -> (r: Result<Vec<u8>, CryptoError>)
        requires
            self.wf(),
            nonce@.len() == NONCE_LEN,
        ensures
            match r {
                Ok(v) => data@.len() <= MAX_PLAIN && v@ == sealed_with(self@, nonce@, data@) && v@.len() == data@.len()
                    + 40 && decrypted(self@, v@) == Ok::<Seq<u8>, CryptoError>(data@),
                Err(e) => data@.len() > MAX_PLAIN && e == CryptoError::Cipher,
            },
    {
        if data.len() as u64 > MAX_PLAIN {
            return Err(CryptoError::Cipher);
        }
        match xchacha_seal(self.raw_key.as_slice(), nonce, data) {
            Some(sealed) => {
                let mut result = bytes_of(nonce);
                result.extend_from_slice(sealed.as_slice());
                proof {
                    assert(result@ =~= nonce@ + sealed@);
                    assert(result@.take(24) =~= nonce@);
                    assert(result@.skip(24) =~= sealed@);
                }
                Ok(result)
            },
            None => Err(CryptoError::Cipher),
        }
    }

    /// Seals data under a fresh nonce, which stands in front of the ciphertext.
    /// Whatever the nonce, opening gives the data back.
    pub fn encrypt(&self, data: &[u8]) -> (r: Result<Vec<u8>, CryptoError>)
        requires
            self.wf(),
        ensures
            match r {
                Ok(v) => {
                    &&& data@.len() <= MAX_PLAIN
                    &&& v@.len() == data@.len() + 40
                    &&& v@ == sealed_with(self@, v@.take(24), data@)
                    &&& decrypted(self@, v@) == Ok::<Seq<u8>, CryptoError>(data@)
                },
                Err(CryptoError::Cipher) => data@.len() > MAX_PLAIN,
                Err(e) => e == CryptoError::NoRandomness,
            },
    {
        match fresh_nonce() {
            Some(nonce) => {
                let r = self.encrypt_with(nonce.as_slice(), data);
                proof {
                    if r is Ok {
                        assert(r->Ok_0@.take(24) =~= nonce@);
                    }
                }
                r
            },
            None => Err(CryptoError::NoRandomness),
        }
    }

    /// Opens a payload.
    pub fn decrypt(&self, encrypted_payload: &[u8]) -> (r: Result<Vec<u8>, CryptoError>)
        requires
            self.wf(),
        ensures
            bytes_result(r) == decrypted(self@, encrypted_payload@),
    {
        let n = encrypted_payload.len();
        let key = self.raw_key.as_slice();
        if n as u64 > MAX_SEALED {
            return Err(CryptoError::Cipher);
        }
        if n < NONCE_LEN {
            let old_cipher = if n >= OLD_NONCE_LEN {
                aes_siv_open(
                    key,
                    slice_subrange(encrypted_payload, 0, OLD_NONCE_LEN),
                    slice_subrange(encrypted_payload, OLD_NONCE_LEN, n),
                )
            } else {
                None
            };
            return settle(n, None, old_cipher);
        }
        proof {
            assert(encrypted_payload@.subrange(0, 24) =~= encrypted_payload@.take(24));
            assert(encrypted_payload@.subrange(24, n as int) =~= encrypted_payload@.skip(24));
            assert(encrypted_payload@.subrange(0, 12) =~= encrypted_payload@.take(12));
            assert(encrypted_payload@.subrange(12, n as int) =~= encrypted_payload@.skip(12));
        }
        let primary = xchacha_open(
            key,
            slice_subrange(encrypted_payload, 0, NONCE_LEN),
            slice_subrange(encrypted_payload, NONCE_LEN, n),
        );
        if primary.is_some() {
            return settle(n, primary, None);
        }
        let old_cipher = aes_siv_open(
            key,
            slice_subrange(encrypted_payload, 0, OLD_NONCE_LEN),
            slice_subrange(encrypted_payload, OLD_NONCE_LEN, n),
        );
        settle(n, None, old_cipher)
    }
}

// ---------------------------------------------------------------------------
// Laws
// ---------------------------------------------------------------------------

/// The digits of a hexadecimal text are ASCII, so its bytes are its characters.
pub proof fn hex_text_bytes(bytes: Seq<u8>)
    ensures
        encode_utf8(primitives::hex_text(bytes)) == primitives::hex_text(bytes).map_values(|c: char| c as u8),
{
    let t = primitives::hex_text(bytes);
    assert forall|i: int| 0 <= i < t.len() implies (t[i] as u32) < 128 by {
        let b = bytes[i / 2] as int;
        assert(0 <= b / 16 < 16 && 0 <= b % 16 < 16);
    }
    assert(is_ascii_chars(t));
    is_ascii_chars_encode_utf8(t);
    assert(encode_utf8(t) =~= t.map_values(|c: char| c as u8));
}

/// Bytes that are all hexadecimal digits encode those digits and nothing else.
proof fn hex_bytes_are_their_text(written: Seq<char>)
    requires
        primitives::all_hex(encode_utf8(written)),
    ensures
        encode_utf8(written).len() == written.len(),
        forall|i: int| 0 <= i < written.len() ==> #[trigger] written[i] as u8 == encode_utf8(written)[i] && (written[i] as u32) < 128,
{
    let bytes = encode_utf8(written);
    let digits = bytes.map_values(|b: u8| b as char);
    assert forall|i: int| 0 <= i < digits.len() implies (#[trigger] digits[i] as u32) < 128 && digits[i] as u8 == bytes[i] by {
        assert(primitives::hex_value(bytes[i]) is Some);
    }
    assert(is_ascii_chars(digits));
    is_ascii_chars_encode_utf8(digits);
    assert(encode_utf8(digits) =~= bytes);
    encode_utf8_decode_utf8(written);
    encode_utf8_decode_utf8(digits);
    assert(written == digits);
}

/// The lower-case form of a hexadecimal digit is the digit of its value.
proof fn lowered_digit(c: char)
    requires
        (c as u32) < 128,
        primitives::hex_value(c as u8) is Some,
    ensures
        text::ascii_lower(c) == primitives::hex_digit(primitives::hex_value(c as u8)->0),
{
}

/// A character whose lower-case form is the digit of a number stands for that
/// number.
proof fn digit_of_lowered(c: char, n: int)
    requires
        0 <= n < 16,
        text::ascii_lower(c) == primitives::hex_digit(n),
    ensures
        '\0' <= c <= '\u{7f}',
        primitives::hex_value(c as u8) == Some(n),
{
}

/// A text with its ASCII letters in lower case.
pub open spec fn lowered(s: Seq<char>) -> Seq<char> {
    s.map_values(|c: char| text::ascii_lower(c))
}

/// Whether a text is hexadecimal for some bytes.
pub open spec fn stands_for(written: Seq<char>, bytes: Seq<u8>) -> bool {
    &&& encode_utf8(written).len() % 2 == 0
    &&& primitives::all_hex(encode_utf8(written))
    &&& primitives::hex_bytes(encode_utf8(written)) == bytes
}

/// A text is hexadecimal for some bytes if and only if in lower case it is what
/// they are written as.
pub proof fn digits_are_those_of_the_bytes(written: Seq<char>, tag: Seq<u8>)
    ensures
        stands_for(written, tag) <==> lowered(written) == primitives::hex_text(tag),
{
    let made = primitives::hex_text(tag);
    let bytes = encode_utf8(written);
    if stands_for(written, tag) {
        hex_bytes_are_their_text(written);
        assert forall|i: int| 0 <= i < written.len() implies #[trigger] lowered(written)[i] == made[i] by {
            let k = i / 2;
            let high = primitives::hex_value(bytes[2 * k])->0;
            let low = primitives::hex_value(bytes[2 * k + 1])->0;
            assert(primitives::hex_value(bytes[2 * k]) is Some && primitives::hex_value(bytes[2 * k + 1]) is Some);
            assert(tag[k] == primitives::hex_bytes(bytes)[k]);
            assert(0 <= high < 16 && 0 <= low < 16);
            assert(tag[k] == (16 * high + low) as u8);
            assert(tag[k] as int / 16 == high && tag[k] as int % 16 == low);
            assert(written[i] as u8 == bytes[i]);
            lowered_digit(written[i]);
        }
        assert(lowered(written) =~= made);
    }
    if lowered(written) == made {
        assert(lowered(written).len() == made.len());
        assert forall|i: int| 0 <= i < written.len() implies '\0' <= #[trigger] written[i] <= '\u{7f}'
            && primitives::hex_value(written[i] as u8) == Some(
            if i % 2 == 0 {
                tag[i / 2] as int / 16
            } else {
                tag[i / 2] as int % 16
            },
        ) by {
            assert(lowered(written)[i] == text::ascii_lower(written[i]));
            let b = tag[i / 2] as int;
            assert(0 <= b / 16 < 16 && 0 <= b % 16 < 16);
            let n = if i % 2 == 0 {
                b / 16
            } else {
                b % 16
            };
            assert(made[i] == primitives::hex_digit(n));
            digit_of_lowered(written[i], n);
        }
        assert(is_ascii_chars(written));
        is_ascii_chars_encode_utf8(written);
        assert forall|i: int| 0 <= i < bytes.len() implies primitives::hex_value(#[trigger] bytes[i]) is Some by {
            assert(written[i] as u8 == bytes[i]);
        }
        assert forall|k: int| 0 <= k < tag.len() implies #[trigger] primitives::hex_bytes(bytes)[k] == tag[k] by {
            assert(written[2 * k] as u8 == bytes[2 * k] && written[2 * k + 1] as u8 == bytes[2 * k + 1]);
            assert((2 * k) / 2 == k && (2 * k + 1) / 2 == k && (2 * k) % 2 == 0 && (2 * k + 1) % 2 == 1);
        }
        assert(primitives::hex_bytes(bytes) =~= tag);
    }
}

/// A written tag vouches for a text if and only if in lower case it is the tag
/// that is made for the text.
pub proof fn only_the_tag_vouches(key: Seq<u8>, payload: Seq<char>, written: Seq<char>)
    ensures
        vouches(key, payload, written) <==> lowered(written) == primitives::hex_text(sync_state_tag(key, payload)),
{
    digits_are_those_of_the_bytes(written, sync_state_tag(key, payload));
}

/// A tag that was made for a text vouches for it under the same key, and no
/// proper beginning of it does.
pub proof fn own_tag_is_accepted(key: Seq<u8>, payload: Seq<char>, n: int)
    ensures
        ({
            let made = primitives::hex_text(sync_state_tag(key, payload));
            &&& vouches(key, payload, made)
            &&& 0 <= n < made.len() ==> !vouches(key, payload, made.take(n))
        }),
{
    let made = primitives::hex_text(sync_state_tag(key, payload));
    hex_text_bytes(sync_state_tag(key, payload));
    primitives::hex_reads_back(sync_state_tag(key, payload));
    if 0 <= n < made.len() {
        only_the_tag_vouches(key, payload, made.take(n));
        assert(lowered(made.take(n)).len() == n);
    }
}

/// A key that was stored is read back, from the keyring and from the key file.
pub proof fn stored_key_is_read_back(key: Seq<u8>, r: Result<Seq<u8>, CryptoError>)
    requires
        key.len() == KEY_LEN,
        key_read(encode_utf8(primitives::hex_text(key)), r, CryptoError::StoredKeyLength) || key_read(
            encode_utf8(text::trimmed(primitives::hex_text(key))),
            r,
            CryptoError::StoredKeyLength,
        ),
    ensures
        r == Ok::<Seq<u8>, CryptoError>(key),
{
    let t = primitives::hex_text(key);
    assert(text::trimmed(t) == t) by {
        assert forall|i: int| 0 <= i < t.len() implies !text::is_white(#[trigger] t[i]) by {
            let b = key[i / 2] as int;
            assert(0 <= b / 16 < 16 && 0 <= b % 16 < 16);
        }
        assert(!text::is_white(t[0]));
    }
    let bytes = encode_utf8(t);
    assert(bytes.len() == 64 && primitives::all_hex(bytes) && primitives::hex_bytes(bytes) == key) by {
        hex_text_bytes(key);
        primitives::hex_reads_back(key);
    }
    assert(key_read(bytes, r, CryptoError::StoredKeyLength));
}

/// A text is read as a key exactly where it is 64 hexadecimal digits, in either
/// case, and the key is then the bytes that are written so. Any other text leaves
/// the key as it was: one that is hexadecimal is refused for its length, one that
/// is not is refused as such.
pub proof fn keys_are_set_by_their_digits(
    before: Seq<u8>,
    written: Seq<char>,
    after: Seq<u8>,
    r: Result<(), CryptoError>,
    key: Seq<u8>,
)
    requires
        key_set(before, written, after, r),
    ensures
        key.len() == 32 && lowered(written) == primitives::hex_text(key) ==> r is Ok && after == key,
        r is Ok ==> after.len() == 32 && written.len() == 64 && lowered(written) == primitives::hex_text(after),
        r is Err ==> after == before,
        key.len() != 32 && lowered(written) == primitives::hex_text(key) ==> r == Err::<(), CryptoError>(
            CryptoError::KeyLength,
        ),
        r is Err && r != Err::<(), CryptoError>(CryptoError::KeyLength) ==> r->Err_0 is Hex && forall|bytes: Seq<u8>|
            lowered(written) != #[trigger] primitives::hex_text(bytes),
{
    digits_are_those_of_the_bytes(written, key);
    digits_are_those_of_the_bytes(written, after);
    if lowered(written) == primitives::hex_text(key) {
        assert(lowered(written).len() == 2 * key.len());
        hex_bytes_are_their_text(written);
    }
    if r is Ok {
        assert(stands_for(written, after));
        assert(lowered(written).len() == 2 * after.len());
    } else if r->Err_0 is Hex {
        assert forall|bytes: Seq<u8>| lowered(written) != #[trigger] primitives::hex_text(bytes) by {
            digits_are_those_of_the_bytes(written, bytes);
            if lowered(written) == primitives::hex_text(bytes) {
                assert(stands_for(written, bytes));
            }
        }
    }
}

/// A key that was drawn for a new device is the one that the device finds when
/// it starts again, whether the keyring or the key file holds what was to be
/// stored; nothing is to be stored then.
pub proof fn new_key_is_found_again(
    drawn: (CryptoState, Option<String>),
    source: KeySource,
    r: Result<(CryptoState, Option<String>), CryptoError>,
)
    requires
        call_ensures(CryptoState::new, (&KeySource::Nowhere,), Ok(drawn)),
        source == KeySource::Keyring(drawn.1->0) || source == KeySource::File(drawn.1->0),
        call_ensures(CryptoState::new, (&source,), r),
    ensures
        drawn.0@.len() == 32,
        drawn.1 is Some,
        r matches Ok(p) && p.0@ == drawn.0@ && p.1 is None,
{
    stored_key_is_read_back(drawn.0@, key_result(r));
}

/// A device whose stored key cannot be read gets none: no new one is drawn in
/// its place.
pub proof fn unreadable_key_is_refused(
    text: String,
    from_file: bool,
    r: Result<(CryptoState, Option<String>), CryptoError>,
)
    requires
        call_ensures(
            CryptoState::new,
            (&if from_file {
                KeySource::File(text)
            } else {
                KeySource::Keyring(text)
            },),
            r,
        ),
    ensures
        r matches Ok(p) ==> p.1 is None && p.0@.len() == 32,
        r matches Ok(p) ==> lowered(
            if from_file {
                text::trimmed(text@)
            } else {
                text@
            },
        ) == primitives::hex_text(p.0@),
        forall|key: Seq<u8>|
            key.len() == 32 && lowered(
                if from_file {
                    text::trimmed(text@)
                } else {
                    text@
                },
            ) == #[trigger] primitives::hex_text(key) ==> (r matches Ok(p) && p.0@ == key),
        r matches Err(e) ==> e is Hex || e == CryptoError::StoredKeyLength,
{
    let written = if from_file {
        text::trimmed(text@)
    } else {
        text@
    };
    if r is Ok {
        digits_are_those_of_the_bytes(written, r->Ok_0.0@);
    }
    assert forall|key: Seq<u8>| key.len() == 32 && lowered(written) == #[trigger] primitives::hex_text(key) implies (
    r matches Ok(p) && p.0@ == key) by {
        digits_are_those_of_the_bytes(written, key);
        assert(stands_for(written, key));
        assert(lowered(written).len() == 2 * key.len());
        hex_bytes_are_their_text(written);
    }
}

/// A given key is taken as it is, and refused where it does not have 32 bytes.
pub proof fn given_key_is_taken(key: Vec<u8>, r: Result<CryptoState, CryptoError>)
    requires
        call_ensures(CryptoState::from_key, (key,), r),
    ensures
        key@.len() == 32 ==> (r matches Ok(c) && c@ == key@),
        key@.len() != 32 ==> r matches Err(CryptoError::StoredKeyLength),
{
}

/// The key of a state is what it was made from, and the text to store it under
/// is its hexadecimal form.
pub proof fn drawn_key_is_kept(key: Vec<u8>, r: (CryptoState, String), got: Result<Vec<u8>, CryptoError>)
    requires
        key@.len() == 32,
        call_ensures(CryptoState::from_drawn_key, (key,), r),
        call_ensures(CryptoState::get_key, (&r.0,), got),
    ensures
        got matches Ok(k) && k@ == key@,
        r.1@ == primitives::hex_text(key@),
{
}

/// The stored key is shown as it is written, without the white space around it
/// in a key file.
pub proof fn stored_key_is_shown(text: String, r: Result<String, CryptoError>, f: Result<String, CryptoError>)
    requires
        call_ensures(CryptoState::get_key_hex, (&KeySource::Keyring(text),), r),
        call_ensures(CryptoState::get_key_hex, (&KeySource::File(text),), f),
    ensures
        r matches Ok(t) && t@ == text@,
        f matches Ok(t) && t@ == text::trimmed(text@),
{
}

/// Two devices with one key show one digest, that of the key.
pub proof fn key_digest_is_that_of_the_key(a: CryptoState, r: String)
    requires
        call_ensures(CryptoState::get_sync_key_hash, (&a,), r),
    ensures
        r@.len() == 2 * primitives::sha256_digest(a@).len(),
        r@ == primitives::hex_text(primitives::sha256_digest(a@)),
{
}

/// A device accepts the tag that another with the same key made for a text, and
/// no text that differs from it in more than case.
pub proof fn made_tag_is_verified(
    a: CryptoState,
    b: CryptoState,
    payload: &str,
    made: String,
    shown: &str,
    r: bool,
)
    requires
        a@ == b@,
        call_ensures(CryptoState::generate_sync_state_mac, (&a, payload), made),
        call_ensures(CryptoState::verify_sync_state_mac, (&b, payload, shown), r),
    ensures
        r <==> lowered(shown@) == made@,
        made@ == primitives::hex_text(
            hmac_sha256(
                hkdf_sha256(encode_utf8("cipherclip_discovery"@), a@, encode_utf8("udp_broadcast"@)),
                encode_utf8(payload@),
            ),
        ),
{
    only_the_tag_vouches(b@, payload@, shown@);
}

/// Data can be sealed if they have at most 274877906816 bytes. What is sealed
/// starts with its nonce, is forty bytes longer than the data, and is opened to
/// the data by every device with the key.
pub proof fn sealed_data_are_opened(
    a: CryptoState,
    b: CryptoState,
    nonce: &[u8],
    data: &[u8],
    sealed: Result<Vec<u8>, CryptoError>,
    payload: &[u8],
    r: Result<Vec<u8>, CryptoError>,
)
    requires
        a.wf(),
        a@ == b@,
        nonce@.len() == 24,
        call_ensures(CryptoState::encrypt_with, (&a, nonce, data), sealed),
        sealed matches Ok(v) ==> v@ == payload@,
        call_ensures(CryptoState::decrypt, (&b, payload), r),
    ensures
        sealed is Ok <==> data@.len() <= 274_877_906_816,
        sealed is Ok ==> payload@.len() == data@.len() + 40,
        sealed is Ok ==> payload@.take(24) == nonce@,
        sealed is Ok ==> (r matches Ok(d) && d@ == data@),
        sealed matches Err(e) ==> e == CryptoError::Cipher,
{
    if sealed is Ok {
        assert(payload@.take(24) =~= nonce@);
    }
}

/// Data that were sealed under a fresh nonce are opened to what they were by
/// every device with the key. Only the length of the data, or a machine without
/// random bytes, keeps them from being sealed.
pub proof fn encrypted_data_are_decrypted(
    a: CryptoState,
    b: CryptoState,
    data: &[u8],
    sealed: Result<Vec<u8>, CryptoError>,
    payload: &[u8],
    r: Result<Vec<u8>, CryptoError>,
)
    requires
        a.wf(),
        a@ == b@,
        call_ensures(CryptoState::encrypt, (&a, data), sealed),
        sealed matches Ok(v) ==> v@ == payload@,
        call_ensures(CryptoState::decrypt, (&b, payload), r),
    ensures
        sealed is Ok ==> payload@.len() == data@.len() + 40,
        sealed is Ok ==> (r matches Ok(d) && d@ == data@),
        sealed matches Err(e) ==> e == CryptoError::NoRandomness || e == CryptoError::Cipher && data@.len()
            > 274_877_906_816,
{
}

/// A payload is opened by the cipher in use where that can read it, with the
/// first 24 bytes as the nonce, or else by the old one, with the first twelve.
/// One that has no room for a nonce is refused as too short, and one that neither
/// reads, or that is longer than anything sealed, is refused by the cipher.
pub proof fn payloads_are_opened_by_either_cipher(
    crypto: CryptoState,
    payload: &[u8],
    r: Result<Vec<u8>, CryptoError>,
)
    requires
        crypto.wf(),
        call_ensures(CryptoState::decrypt, (&crypto, payload), r),
    ensures
        payload@.len() < 24 ==> r matches Err(CryptoError::TooShort),
        payload@.len() > 274_877_906_856 ==> r matches Err(CryptoError::Cipher),
        24 <= payload@.len() <= 274_877_906_856 ==> {
            let now = xchacha_opened(crypto@, payload@.take(24), payload@.skip(24));
            let before = aes_siv_opened(crypto@, payload@.take(12), payload@.skip(12));
            &&& now matches Some(data) ==> (r matches Ok(d) && d@ == data)
            &&& now is None ==> (before matches Some(data) ==> (r matches Ok(d) && d@ == data))
            &&& now is None && before is None ==> r matches Err(CryptoError::Cipher)
        },
{
}

/// Of two outcomes the first that read something counts, whatever the length.
/// Where neither did, a payload shorter than 24 bytes is too short, and any other
/// is refused by the cipher.
pub proof fn first_outcome_counts(
    length: usize,
    primary: Option<Vec<u8>>,
    old_cipher: Option<Vec<u8>>,
    r: Result<Vec<u8>, CryptoError>,
)
    requires
        call_ensures(settle, (length, primary, old_cipher), r),
    ensures
        primary matches Some(data) ==> (r matches Ok(d) && d@ == data@),
        primary is None ==> (old_cipher matches Some(data) ==> (r matches Ok(d) && d@ == data@)),
        primary is None && old_cipher is None ==> r is Err && (r->Err_0 == (if length < 24 {
            CryptoError::TooShort
        } else {
            CryptoError::Cipher
        })),
{
}

/// Each error is reported in its own words.
pub proof fn errors_are_reported_in_words(e: CryptoError, r: String)
    requires
        call_ensures(CryptoError::message, (&e,), r),
    ensures
        e matches CryptoError::Hex(h) ==> r@ == primitives::hex_error_words(h),
        e == CryptoError::StoredKeyLength ==> r@ == "Invalid key length stored in keyring"@,
        e == CryptoError::KeyLength ==> r@ == "Invalid key length"@,
        e == CryptoError::KeyNotFound ==> r@ == "Key not found"@,
        e == CryptoError::TooShort ==> r@ == "Payload too short to contain nonce"@,
        e == CryptoError::Cipher ==> r@ == "aead::Error"@,
        e == CryptoError::NoRandomness ==> r@ == "No random bytes"@,
{
}

} // verus!
