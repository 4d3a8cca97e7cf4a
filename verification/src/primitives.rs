//! What the library has from outside: clock, fresh identifiers, digests and
//! their written forms.
use base64::Engine;
use chacha20poly1305::aead::rand_core::RngCore;
use sha2::Digest;
use vstd::prelude::*;

verus! {

/// `SystemTime::now` and `duration_since(UNIX_EPOCH)`: the microseconds since
/// 1970, or nothing where the clock of the machine is set to before 1970.
/// Nothing is claimed of the number.
#[verifier::external_body]
pub(crate) fn now_micros() -> (r: Option<i64>) {
    std::time::SystemTime::now().duration_since(std::time::UNIX_EPOCH).ok().map(|d| d.as_micros() as i64)
}

/// The same clock in milliseconds.
#[verifier::external_body]
pub(crate) fn now_millis() -> (r: Option<u128>) {
    std::time::SystemTime::now().duration_since(std::time::UNIX_EPOCH).ok().map(|d| d.as_millis())
}

/// The same clock in seconds.
#[verifier::external_body]
pub(crate) fn now_seconds() -> (r: Option<i64>) {
    std::time::SystemTime::now().duration_since(std::time::UNIX_EPOCH).ok().map(|d| d.as_secs() as i64)
}

/// The form of a written random uuid: five groups of lower-case hexadecimal
/// digits with hyphens between them, of version 4 and of the standard variant.
pub open spec fn uuid_shaped(s: Seq<char>) -> bool {
    &&& s.len() == 36
    &&& forall|i: int|
        0 <= i < 36 ==> if i == 8 || i == 13 || i == 18 || i == 23 {
            #[trigger] s[i] == '-'
        } else {
            '0' <= s[i] <= '9' || 'a' <= s[i] <= 'f'
        }
    &&& s[14] == '4'
    &&& s[19] == '8' || s[19] == '9' || s[19] == 'a' || s[19] == 'b'
}

/// Sixteen bytes with the version and the variant of a random uuid set in them.
pub open spec fn uuid_bytes(bytes: Seq<u8>) -> Seq<u8> {
    bytes.update(6, (64 + bytes[6] % 16) as u8).update(8, (128 + bytes[8] % 64) as u8)
}

/// The random uuid of sixteen bytes as it is written.
pub open spec fn uuid_text(bytes: Seq<u8>) -> Seq<char> {
    let h = hex_text(uuid_bytes(bytes));
    h.subrange(0, 8).push('-') + h.subrange(8, 12).push('-') + h.subrange(12, 16).push('-') + h.subrange(16, 20).push(
        '-',
    ) + h.subrange(20, 32)
}

/// `uuid::Builder::from_random_bytes`, written by the `Display` of the uuid.
#[verifier::external_body]
pub(crate) fn uuid_of_bytes(bytes: &[u8]) -> (r: String)
    requires
        bytes@.len() == 16,
    ensures
        r@ == uuid_text(bytes@),
{
    uuid::Builder::from_random_bytes(bytes.try_into().unwrap()).into_uuid().to_string()
}

/// `OsRng::try_fill_bytes`: random bytes of the operating system, or nothing
/// where it has none to give.
#[verifier::external_body]
pub(crate) fn random_bytes(n: usize) -> (r: Option<Vec<u8>>)
    requires
        n <= isize::MAX,
    ensures
        r is Some ==> r->0@.len() == n,
{
    let mut bytes = vec![0u8; n];
    chacha20poly1305::aead::OsRng.try_fill_bytes(&mut bytes).ok().map(|_| bytes)
}

/// The written uuid of sixteen bytes has the form of a random uuid.
pub proof fn uuid_text_is_shaped(bytes: Seq<u8>)
    requires
        bytes.len() == 16,
    ensures
        uuid_shaped(uuid_text(bytes)),
{
    let u = uuid_bytes(bytes);
    let h = hex_text(u);
    assert forall|i: int| 0 <= i < 32 implies '0' <= #[trigger] h[i] <= '9' || 'a' <= h[i] <= 'f' by {
        let b = u[i / 2] as int;
        assert(0 <= b / 16 < 16 && 0 <= b % 16 < 16);
    }
    let t = uuid_text(bytes);
    assert(t[14] == h[12] && t[19] == h[16]);
    assert(u[6] as int / 16 == 4);
    assert(8 <= u[8] as int / 16 < 12);
    assert forall|i: int| 0 <= i < 36 implies if i == 8 || i == 13 || i == 18 || i == 23 {
        #[trigger] t[i] == '-'
    } else {
        '0' <= t[i] <= '9' || 'a' <= t[i] <= 'f'
    } by {
        if i < 8 {
            assert(t[i] == h[i]);
        } else if 8 < i < 13 {
            assert(t[i] == h[i - 1]);
        } else if 13 < i < 18 {
            assert(t[i] == h[i - 2]);
        } else if 18 < i < 23 {
            assert(t[i] == h[i - 3]);
        } else if 23 < i {
            assert(t[i] == h[i - 4]);
        }
    }
}

/// The random uuid of sixteen bytes.
pub fn uuid_from(bytes: &[u8]) -> (r: String)
    requires
        bytes@.len() == 16,
    ensures
        r@ == uuid_text(bytes@),
        uuid_shaped(r@),
{
    proof {
        uuid_text_is_shaped(bytes@);
    }
    uuid_of_bytes(bytes)
}

/// A fresh random uuid, or nothing where the machine gives no random bytes.
pub fn fresh_uuid() -> (r: Option<String>)
    ensures
        r matches Some(u) ==> uuid_shaped(u@),
{
    match random_bytes(16) {
        Some(bytes) => Some(uuid_from(bytes.as_slice())),
        None => None,
    }
}

/// The SHA-256 digest of some bytes.
pub uninterp spec fn sha256_digest(data: Seq<u8>) -> Seq<u8>;

/// `Sha256::digest`: a digest of 32 bytes, which depends on the data alone.
#[verifier::external_body]
pub(crate) fn sha256(data: &[u8]) -> (r: Vec<u8>)
    ensures
        r@ == sha256_digest(data@),
        r@.len() == 32,
{
    sha2::Sha256::digest(data).to_vec()
}

// ---------------------------------------------------------------------------
// Hexadecimal
// ---------------------------------------------------------------------------

/// The lower-case hexadecimal digit of a number below sixteen.
pub open spec fn hex_digit(n: int) -> char {
    if n < 10 {
        ('0' as int + n) as char
    } else {
        ('a' as int + (n - 10)) as char
    }
}

/// Bytes in hexadecimal, two digits each.
pub open spec fn hex_text(bytes: Seq<u8>) -> Seq<char> {
    Seq::new(
        2 * bytes.len(),
        |i: int|
            if i % 2 == 0 {
                hex_digit(bytes[i / 2] as int / 16)
            } else {
                hex_digit(bytes[i / 2] as int % 16)
            },
    )
}

/// The value of a hexadecimal digit, in either case.
pub open spec fn hex_value(c: u8) -> Option<int> {
    if 48 <= c <= 57 {
        Some(c - 48)
    } else if 97 <= c <= 102 {
        Some(c - 97 + 10)
    } else if 65 <= c <= 70 {
        Some(c - 65 + 10)
    } else {
        None
    }
}

/// Whether all of these are hexadecimal digits.
pub open spec fn all_hex(text: Seq<u8>) -> bool {
    forall|i: int| 0 <= i < text.len() ==> hex_value(#[trigger] text[i]) is Some
}

/// The bytes that pairs of hexadecimal digits stand for.
pub open spec fn hex_bytes(text: Seq<u8>) -> Seq<u8> {
    Seq::new(
        text.len() / 2,
        |i: int| (16 * hex_value(text[2 * i])->0 + hex_value(text[2 * i + 1])->0) as u8,
    )
}

/// Why a text is not hexadecimal.
#[derive(Debug, Clone, Copy, PartialEq, Eq, Structural)]
pub enum HexError {
    /// The byte at `index` is no hexadecimal digit.
    InvalidHexCharacter { c: char, index: usize },
    /// The number of digits is odd.
    OddLength,
    /// The target has another length; decoding into a vector never has this.
    InvalidStringLength,
}

/// What reading a hexadecimal text comes to: an odd length is refused first,
/// then the first byte that is no digit; otherwise each pair of digits is one
/// byte.
pub open spec fn hex_read(text: Seq<u8>, r: Result<Vec<u8>, HexError>) -> bool {
    match r {
        Ok(v) => text.len() % 2 == 0 && all_hex(text) && v@ == hex_bytes(text),
        Err(HexError::OddLength) => text.len() % 2 != 0,
        Err(HexError::InvalidHexCharacter { c, index }) => {
            &&& text.len() % 2 == 0
            &&& index < text.len()
            &&& hex_value(text[index as int]) is None
            &&& c as int == text[index as int]
            &&& all_hex(text.take(index as int))
        },
        Err(HexError::InvalidStringLength) => false,
    }
}

/// `hex::encode`: the bytes in lower-case hexadecimal.
#[verifier::external_body]
pub(crate) fn hex_encode(bytes: &[u8]) -> (r: String)
    ensures
        r@ == hex_text(bytes@),
{
    hex::encode(bytes)
}

/// `hex::decode`: digits of either case, refused as `hex_read` says.
#[verifier::external_body]
pub(crate) fn hex_decode(text: &[u8]) -> (r: Result<Vec<u8>, HexError>)
    ensures
        hex_read(text@, r),
{
    hex::decode(text).map_err(
        |e| match e {
            hex::FromHexError::InvalidHexCharacter { c, index } => HexError::InvalidHexCharacter { c, index },
            hex::FromHexError::OddLength => HexError::OddLength,
            hex::FromHexError::InvalidStringLength => HexError::InvalidStringLength,
        },
    )
}

/// The words in which `hex::decode` refuses a text.
pub uninterp spec fn hex_error_words(e: HexError) -> Seq<char>;

/// `to_string` of `hex::FromHexError`: the words of the error. How it writes the
/// character that is no digit is only named.
#[verifier::external_body]
pub(crate) fn hex_error_text(e: HexError) -> (r: String)
    ensures
        r@ == hex_error_words(e),
        e == HexError::OddLength ==> r@ == "Odd number of digits"@,
        e == HexError::InvalidStringLength ==> r@ == "Invalid string length"@,
{
    match e {
        HexError::InvalidHexCharacter { c, index } => hex::FromHexError::InvalidHexCharacter { c, index },
        HexError::OddLength => hex::FromHexError::OddLength,
        HexError::InvalidStringLength => hex::FromHexError::InvalidStringLength,
    }.to_string()
}

/// Hexadecimal text is read back to the bytes it was made of. The digits are
/// ASCII, so each is one byte.
pub proof fn hex_reads_back(bytes: Seq<u8>)
    ensures
        ({
            let text = hex_text(bytes).map_values(|c: char| c as u8);
            &&& text.len() == 2 * bytes.len()
            &&& all_hex(text)
            &&& hex_bytes(text) == bytes
        }),
{
    let text = hex_text(bytes).map_values(|c: char| c as u8);
    assert forall|i: int| 0 <= i < bytes.len() implies hex_value(text[2 * i]) == Some(bytes[i] as int / 16)
        && hex_value(text[2 * i + 1]) == Some(bytes[i] as int % 16) by {
        assert((2 * i) / 2 == i && (2 * i) % 2 == 0);
        assert((2 * i + 1) / 2 == i && (2 * i + 1) % 2 == 1);
        assert(text[2 * i] == hex_digit(bytes[i] as int / 16) as u8);
        assert(text[2 * i + 1] == hex_digit(bytes[i] as int % 16) as u8);
    }
    assert forall|i: int| 0 <= i < text.len() implies hex_value(#[trigger] text[i]) is Some by {
        let k = i / 2;
        assert(hex_value(text[2 * k]) is Some && hex_value(text[2 * k + 1]) is Some);
        assert(i == 2 * k || i == 2 * k + 1);
    }
    assert(hex_bytes(text) =~= bytes);
}

/// No hexadecimal text holds a colon.
pub proof fn hex_text_has_no_colon(bytes: Seq<u8>)
    ensures
        !hex_text(bytes).contains(':'),
{
    let t = hex_text(bytes);
    assert forall|i: int| 0 <= i < t.len() implies t[i] != ':' by {
        let b = bytes[i / 2] as int;
        assert(0 <= b / 16 < 16 && 0 <= b % 16 < 16);
    }
}

// ---------------------------------------------------------------------------
// Base64
// ---------------------------------------------------------------------------

/// The base64 character of a number below 64, in the standard alphabet.
pub open spec fn b64_char(n: int) -> char {
    if n < 26 {
        ('A' as int + n) as char
    } else if n < 52 {
        ('a' as int + (n - 26)) as char
    } else if n < 62 {
        ('0' as int + (n - 52)) as char
    } else if n == 62 {
        '+'
    } else {
        '/'
    }
}

/// The byte at a place, zero past the end.
pub open spec fn byte_or_zero(bytes: Seq<u8>, i: int) -> int {
    if i < bytes.len() {
        bytes[i] as int
    } else {
        0
    }
}

/// Bytes in base64: four characters for three bytes, padded with `=`.
pub open spec fn b64_text(bytes: Seq<u8>) -> Seq<char> {
    Seq::new(
        ((bytes.len() + 2) / 3 * 4) as nat,
        |i: int|
            {
                let g = 3 * (i / 4);
                let v = 65536 * byte_or_zero(bytes, g) + 256 * byte_or_zero(bytes, g + 1) + byte_or_zero(bytes, g + 2);
                if i % 4 == 0 {
                    b64_char(v / 262144)
                } else if i % 4 == 1 {
                    b64_char(v / 4096 % 64)
                } else if g + i % 4 - 1 >= bytes.len() {
                    '='
                } else if i % 4 == 2 {
                    b64_char(v / 64 % 64)
                } else {
                    b64_char(v % 64)
                }
            },
    )
}

/// What a base64 text decodes to, or the words in which it is refused.
pub uninterp spec fn b64_decoded(text: Seq<char>) -> Result<Seq<u8>, Seq<char>>;

/// Whether a base64 text decodes to those bytes.
pub open spec fn b64_decodes(text: Seq<char>, bytes: Seq<u8>) -> bool {
    b64_decoded(text) == Ok::<Seq<u8>, Seq<char>>(bytes)
}

/// `STANDARD.encode` of the base64 crate: the standard alphabet with padding.
/// Its decoder gives the bytes back.
#[verifier::external_body]
pub(crate) fn b64_encode(bytes: &[u8]) -> (r: String)
    requires
        bytes@.len() <= usize::MAX / 2,
    ensures
        r@ == b64_text(bytes@),
        b64_decodes(r@, bytes@),
{
    base64::engine::general_purpose::STANDARD.encode(bytes)
}

/// `STANDARD.decode` of the base64 crate, with the words of its error. What it
/// accepts is only named.
#[verifier::external_body]
pub(crate) fn b64_decode(text: &str) -> (r: Result<Vec<u8>, String>)
    ensures
        match r {
            Ok(v) => b64_decoded(text@) matches Ok(w) && w == v@,
            Err(e) => b64_decoded(text@) matches Err(w) && w == e@,
        },
{
    base64::engine::general_purpose::STANDARD.decode(text).map_err(|e| e.to_string())
}

} // verus!
