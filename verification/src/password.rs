//! The master password.
use crate::primitives;
use crate::primitives::{hex_encode, sha256};
use crate::text::chars_of;
use vstd::prelude::*;
use vstd::utf8::*;

verus! {

/// Whether a character is upper case, by `char::is_uppercase`.
pub uninterp spec fn is_upper(c: char) -> bool;

/// Whether a character is lower case, by `char::is_lowercase`.
pub uninterp spec fn is_lower(c: char) -> bool;

/// Whether a character is a number, by `char::is_numeric`.
pub uninterp spec fn is_number(c: char) -> bool;

/// Whether a character is a letter or a number, by `char::is_alphanumeric`.
pub uninterp spec fn is_letter_or_number(c: char) -> bool;

/// `char::is_uppercase`: the Unicode property Uppercase, which in ASCII the
/// letters A to Z have.
pub assume_specification[ char::is_uppercase ](c: char) -> (r: bool)
    ensures
        r == is_upper(c),
        (c as u32) < 128 ==> r == ('A' <= c <= 'Z'),
;

/// `char::is_lowercase`: the Unicode property Lowercase, which in ASCII the
/// letters a to z have.
pub assume_specification[ char::is_lowercase ](c: char) -> (r: bool)
    ensures
        r == is_lower(c),
        (c as u32) < 128 ==> r == ('a' <= c <= 'z'),
;

/// `char::is_numeric`: one of the Unicode categories of numbers, which in ASCII
/// the digits have.
pub assume_specification[ char::is_numeric ](c: char) -> (r: bool)
    ensures
        r == is_number(c),
        (c as u32) < 128 ==> r == ('0' <= c <= '9'),
;

/// `char::is_alphanumeric`: alphabetic or numeric, which in ASCII the letters
/// and the digits are.
pub assume_specification[ char::is_alphanumeric ](c: char) -> (r: bool)
    ensures
        r == is_letter_or_number(c),
        (c as u32) < 128 ==> r == ('A' <= c <= 'Z' || 'a' <= c <= 'z' || '0' <= c <= '9'),
;

/// Why a password is refused.
#[derive(Debug, Clone, Copy, PartialEq, Eq, Structural)]
pub enum PasswordError {
    TooShort,
    NoUppercase,
    NoLowercase,
    NoNumber,
    NoSpecial,
}

impl PasswordError {
    /// The words in which the password is refused.
    pub open spec fn words(self) -> Seq<char> {
        match self {
            PasswordError::TooShort => "Password must be at least 8 characters long."@,
            PasswordError::NoUppercase => "Password must contain at least one uppercase letter."@,
            PasswordError::NoLowercase => "Password must contain at least one lowercase letter."@,
            PasswordError::NoNumber => "Password must contain at least one number."@,
            PasswordError::NoSpecial => "Password must contain at least one special character."@,
        }
    }

    /// The words in which the password is refused.
    pub fn message(&self) -> (r: String)
        ensures
            r@ == self.words(),
    {
        match self {
            PasswordError::TooShort => "Password must be at least 8 characters long.".to_owned(),
            PasswordError::NoUppercase => "Password must contain at least one uppercase letter.".to_owned(),
            PasswordError::NoLowercase => "Password must contain at least one lowercase letter.".to_owned(),
            PasswordError::NoNumber => "Password must contain at least one number.".to_owned(),
            PasswordError::NoSpecial => "Password must contain at least one special character.".to_owned(),
        }
    }
}

/// Whether a text has an upper-case letter.
pub open spec fn has_upper(s: Seq<char>) -> bool {
    exists|i: int| 0 <= i < s.len() && is_upper(#[trigger] s[i])
}

/// Whether a text has a lower-case letter.
pub open spec fn has_lower(s: Seq<char>) -> bool {
    exists|i: int| 0 <= i < s.len() && is_lower(#[trigger] s[i])
}

/// Whether a text has a number.
pub open spec fn has_number(s: Seq<char>) -> bool {
    exists|i: int| 0 <= i < s.len() && is_number(#[trigger] s[i])
}

/// Whether a text has a character that is neither a letter nor a number.
pub open spec fn has_special(s: Seq<char>) -> bool {
    exists|i: int| 0 <= i < s.len() && !is_letter_or_number(#[trigger] s[i])
}

/// What is wrong with a password, given how many characters it has and which:
/// the first of the rules that it breaks.
pub open spec fn fault(length: int, upper: bool, lower: bool, number: bool, special: bool) -> Option<PasswordError> {
    if length < 8 {
        Some(PasswordError::TooShort)
    } else if !upper {
        Some(PasswordError::NoUppercase)
    } else if !lower {
        Some(PasswordError::NoLowercase)
    } else if !number {
        Some(PasswordError::NoNumber)
    } else if !special {
        Some(PasswordError::NoSpecial)
    } else {
        None
    }
}

/// What is wrong with a password.
pub open spec fn password_fault(password: Seq<char>) -> Option<PasswordError> {
    fault(
        password.len() as int,
        has_upper(password),
        has_lower(password),
        has_number(password),
        has_special(password),
    )
}

/// What is wrong with a password, given how many characters it has and which.
pub fn first_fault(length: usize, upper: bool, lower: bool, number: bool, special: bool) -> (r: Option<PasswordError>)
    ensures
        r == fault(length as int, upper, lower, number, special),
{
    if length < 8 {
        Some(PasswordError::TooShort)
    } else if !upper {
        Some(PasswordError::NoUppercase)
    } else if !lower {
        Some(PasswordError::NoLowercase)
    } else if !number {
        Some(PasswordError::NoNumber)
    } else if !special {
        Some(PasswordError::NoSpecial)
    } else {
        None
    }
}

/// What is wrong with a password.
pub fn check_password(password: &str) -> (r: Option<PasswordError>)
    ensures
        r == password_fault(password@),
{
    let chars = chars_of(password);
    let mut upper = false;
    let mut lower = false;
    let mut number = false;
    let mut special = false;
    let mut i: usize = 0;
    while i < chars.len()
        invariant
            i <= chars@.len(),
            chars@ == password@,
            upper == (exists|j: int| 0 <= j < i && is_upper(#[trigger] password@[j])),
            lower == (exists|j: int| 0 <= j < i && is_lower(#[trigger] password@[j])),
            number == (exists|j: int| 0 <= j < i && is_number(#[trigger] password@[j])),
            special == (exists|j: int| 0 <= j < i && !is_letter_or_number(#[trigger] password@[j])),
        decreases chars@.len() - i,
    {
        let c = chars[i];
        assert(password@[i as int] == c);
        if c.is_uppercase() {
            upper = true;
        }
        if c.is_lowercase() {
            lower = true;
        }
        if c.is_numeric() {
            number = true;
        }
        if !c.is_alphanumeric() {
            special = true;
        }
        i += 1;
    }
    first_fault(chars.len(), upper, lower, number, special)
}

/// The digest under which a password is stored.
pub open spec fn password_digest(password: Seq<char>) -> Seq<char> {
    primitives::hex_text(primitives::sha256_digest(encode_utf8(password)))
}

/// The digest under which a password is stored.
pub fn password_hash(password: &str) -> (r: String)
    ensures
        r@ == password_digest(password@),
{
    hex_encode(sha256(password.as_bytes()).as_slice())
}

// ---------------------------------------------------------------------------
// Laws
// ---------------------------------------------------------------------------

/// A password is accepted exactly where it has at least eight characters, among
/// them an upper-case letter, a lower-case letter, a number, and one that is
/// neither a letter nor a number. Whatever one is refused for, it lacks.
pub proof fn strong_passwords_are_accepted(password: &str, r: Option<PasswordError>)
    requires
        call_ensures(check_password, (password,), r),
    ensures
        r is None <==> {
            &&& password@.len() >= 8
            &&& exists|i: int| 0 <= i < password@.len() && is_upper(#[trigger] password@[i])
            &&& exists|i: int| 0 <= i < password@.len() && is_lower(#[trigger] password@[i])
            &&& exists|i: int| 0 <= i < password@.len() && is_number(#[trigger] password@[i])
            &&& exists|i: int| 0 <= i < password@.len() && !is_letter_or_number(#[trigger] password@[i])
        },
        r == Some(PasswordError::TooShort) <==> password@.len() < 8,
        r == Some(PasswordError::NoUppercase) ==> forall|i: int|
            0 <= i < password@.len() ==> !is_upper(#[trigger] password@[i]),
        r == Some(PasswordError::NoLowercase) ==> forall|i: int|
            0 <= i < password@.len() ==> !is_lower(#[trigger] password@[i]),
        r == Some(PasswordError::NoNumber) ==> forall|i: int|
            0 <= i < password@.len() ==> !is_number(#[trigger] password@[i]),
        r == Some(PasswordError::NoSpecial) ==> forall|i: int|
            0 <= i < password@.len() ==> is_letter_or_number(#[trigger] password@[i]),
{
}

/// The rules are held to a password one after the other: one that comes later
/// is named only where those before it are kept.
pub proof fn first_broken_rule_is_named(
    length: usize,
    upper: bool,
    lower: bool,
    number: bool,
    special: bool,
    r: Option<PasswordError>,
)
    requires
        call_ensures(first_fault, (length, upper, lower, number, special), r),
    ensures
        length < 8 <==> r == Some(PasswordError::TooShort),
        length >= 8 && !upper <==> r == Some(PasswordError::NoUppercase),
        length >= 8 && upper && !lower <==> r == Some(PasswordError::NoLowercase),
        length >= 8 && upper && lower && !number <==> r == Some(PasswordError::NoNumber),
        length >= 8 && upper && lower && number && !special <==> r == Some(PasswordError::NoSpecial),
{
}

/// A longer password that starts with an accepted one is accepted.
pub proof fn more_characters_do_not_weaken(password: Seq<char>, more: Seq<char>)
    requires
        password_fault(password) is None,
    ensures
        password_fault(password + more) is None,
{
    let all = password + more;
    let i = choose|i: int| 0 <= i < password.len() && is_upper(#[trigger] password[i]);
    assert(is_upper(all[i]));
    let i = choose|i: int| 0 <= i < password.len() && is_lower(#[trigger] password[i]);
    assert(is_lower(all[i]));
    let i = choose|i: int| 0 <= i < password.len() && is_number(#[trigger] password[i]);
    assert(is_number(all[i]));
    let i = choose|i: int| 0 <= i < password.len() && !is_letter_or_number(#[trigger] password[i]);
    assert(!is_letter_or_number(all[i]));
}

/// The digest of a password is the SHA-256 of its UTF-8 bytes, two digits for
/// each byte.
pub proof fn passwords_are_stored_by_digest(password: &str, r: String, i: int)
    requires
        call_ensures(password_hash, (password,), r),
        0 <= i < primitives::sha256_digest(encode_utf8(password@)).len(),
    ensures
        r@.len() == 2 * primitives::sha256_digest(encode_utf8(password@)).len(),
        primitives::hex_value(r@[2 * i] as u8) == Some(
            primitives::sha256_digest(encode_utf8(password@))[i] as int / 16,
        ),
        primitives::hex_value(r@[2 * i + 1] as u8) == Some(
            primitives::sha256_digest(encode_utf8(password@))[i] as int % 16,
        ),
{
    let b = primitives::sha256_digest(encode_utf8(password@))[i] as int;
    assert(0 <= b / 16 < 16 && 0 <= b % 16 < 16);
    assert((2 * i) / 2 == i && (2 * i + 1) / 2 == i && (2 * i) % 2 == 0 && (2 * i + 1) % 2 == 1);
    assert(r@[2 * i] == primitives::hex_digit(b / 16));
    assert(r@[2 * i + 1] == primitives::hex_digit(b % 16));
}

} // verus!
