//! Field encryption of the history database with Fernet tokens. The key is
//! found by the caller (environment or system keyring) and handed in.
use crate::text::{chars_of, starts_with, starts_with_str};
use vstd::prelude::*;
use vstd::string::StringSliceAdditionalSpecFns;
use vstd::utf8::{decode_utf8, encode_utf8, valid_utf8};

verus! {

pub const DECRYPTION_FAILED_MARKER: &'static str = "[DECRYPTION_FAILED]";

/// Every Fernet token is base64 of a version byte `0x80` and a timestamp,
/// which begins with this text.
pub const FERNET_PREFIX: &'static str = "gAAAAA";

/// The name for whether a text is a Fernet key: URL-safe base64 of 32 bytes
/// (`Fernet::new` gives a value).
pub uninterp spec fn fernet_key_valid(key: Seq<char>) -> bool;

/// The name for the plaintext a Fernet token carries under a key: the token
/// decoded, its HMAC checked with the key's signing half and its ciphertext
/// decrypted with the other half; nothing when the token does not decode or
/// authenticate. The clock check of `decrypt` is not part of it.
pub uninterp spec fn fernet_plain(key: Seq<char>, token: Seq<char>) -> Option<Seq<u8>>;

/// `Fernet::new(key)` then `encrypt`: for a valid key, a fresh token (random
/// IV, current time) that carries `plain` under `key`. A token is base64 of
/// the version byte `0x80` and the big-endian time in seconds, so it begins
/// with `gAAAAA` (for every time below 2^36 seconds). Nothing for an invalid
/// key.
#[verifier::external_body]
fn fernet_encrypt(key: &str, plain: &[u8]) -> (r: Option<String>)
    ensures
        r is Some <==> fernet_key_valid(key@),
        r matches Some(t) ==> starts_with(t@, FERNET_PREFIX@) && fernet_plain(key@, t@) == Some(
            plain@,
        ),
{
    fernet::Fernet::new(key).map(|f| f.encrypt(plain))
}

/// `Fernet::new(key)` then `decrypt`: the plaintext the token carries under
/// the key, when the key is valid, the token authentic and its time not
/// ahead of the clock. Whether the clock check passes is not stated.
#[verifier::external_body]
fn fernet_decrypt(key: &str, token: &str) -> (r: Option<Vec<u8>>)
    ensures
        !fernet_key_valid(key@) ==> r is None,
        fernet_plain(key@, token@) is None ==> r is None,
        r matches Some(p) ==> fernet_plain(key@, token@) == Some(p@),
{
    fernet::Fernet::new(key).and_then(|f| f.decrypt(token).ok())
}

/// The name for the text that `String::from_utf8_lossy` makes of bytes that
/// are not valid UTF-8 (invalid sequences replaced by U+FFFD).
pub uninterp spec fn lossy_text(bytes: Seq<u8>) -> Seq<char>;

/// The text `String::from_utf8_lossy` makes of bytes: their decoding when they
/// are valid UTF-8, where no replacement happens.
pub open spec fn field_text(bytes: Seq<u8>) -> Seq<char> {
    if valid_utf8(bytes) {
        decode_utf8(bytes)
    } else {
        lossy_text(bytes)
    }
}

/// `String::from_utf8_lossy`.
#[verifier::external_body]
fn utf8_lossy(bytes: &[u8]) -> (r: String)
    ensures
        valid_utf8(bytes@) ==> r@ == decode_utf8(bytes@),
        !valid_utf8(bytes@) ==> r@ == lossy_text(bytes@),
{
    String::from_utf8_lossy(bytes).into_owned()
}

fn bytes_of(s: &str) -> (r: Vec<u8>)
    ensures
        r@ == s.spec_bytes(),
{
    let b = s.as_bytes();
    vstd::slice::slice_to_vec(b)
}

/// The stored form of `plain` encrypted under `key`: the UTF-8 bytes of a
/// Fernet token (beginning with `gAAAAA`) that carries the UTF-8 bytes of
/// `plain`.
pub open spec fn sealed(key: Seq<char>, plain: Seq<char>, blob: Seq<u8>) -> bool {
    exists|t: Seq<char>|
        #[trigger] encode_utf8(t) == blob && starts_with(t, FERNET_PREFIX@) && fernet_plain(key, t)
            == Some(encode_utf8(plain))
}

/// Encrypts a history field. Without encryption, for an empty value, or
/// without a valid key the field is stored as its UTF-8 bytes; else as the
/// bytes of a fresh Fernet token that carries the value.
pub fn encrypt_text(value: &str, use_encryption: bool, key: Option<&str>) -> (r: Vec<u8>)
    ensures
        !use_encryption || value@.len() == 0 || key is None || !fernet_key_valid(key.unwrap()@)
            ==> r@ == value.spec_bytes(),
        use_encryption && value@.len() > 0 && key is Some && fernet_key_valid(key.unwrap()@)
            ==> sealed(key.unwrap()@, value@, r@),
{
    if !use_encryption || value.is_empty() {
        return bytes_of(value);
    }
    let k = match key {
        Some(k) => k,
        None => {
            return bytes_of(value);
        },
    };
    let plain = bytes_of(value);
    match fernet_encrypt(k, plain.as_slice()) {
        Some(token) => {
            let r = bytes_of(token.as_str());
            assert(encode_utf8(token@) == r@);
            r
        },
        None => bytes_of(value),
    }
}

/// What reading a history field gives, when it is a Fernet token read with
/// encryption on and a key: `decrypted` is what decryption returned.
pub open spec fn opened(decrypted: Option<Seq<u8>>) -> Seq<char> {
    match decrypted {
        Some(b) => field_text(b),
        None => DECRYPTION_FAILED_MARKER@,
    }
}

/// The text of a decrypted field, or the failure marker when it could not be
/// opened.
pub fn open_field(decrypted: Option<Vec<u8>>) -> (r: String)
    ensures
        r@ == opened(
            match decrypted {
                Some(b) => Some(b@),
                None => None,
            },
        ),
{
    match decrypted {
        Some(bytes) => utf8_lossy(bytes.as_slice()),
        None => String::from_str(DECRYPTION_FAILED_MARKER),
    }
}

/// What reading a stored field `blob` may give: empty stays empty; text that
/// is not a Fernet token is returned as it is (rows from before encryption); a
/// token gives the failure marker when encryption is off or there is no valid
/// key, and when it does not authenticate under the key; else its plaintext,
/// or the marker when the token's time is ahead of the clock.
pub open spec fn field_read(blob: Seq<u8>, use_encryption: bool, key: Option<Seq<char>>, out: Seq<
    char,
>) -> bool {
    let text = field_text(blob);
    if blob.len() == 0 {
        out == Seq::<char>::empty()
    } else if !starts_with(text, FERNET_PREFIX@) {
        out == text
    } else if !use_encryption || key is None || !fernet_key_valid(key.unwrap()) {
        out == DECRYPTION_FAILED_MARKER@
    } else {
        match fernet_plain(key.unwrap(), text) {
            None => out == DECRYPTION_FAILED_MARKER@,
            Some(p) => out == DECRYPTION_FAILED_MARKER@ || out == field_text(p),
        }
    }
}

/// Decrypts a history field (see `field_read`).
pub fn decrypt_text(blob: &[u8], use_encryption: bool, key: Option<&str>) -> (r: String)
    ensures
        field_read(
            blob@,
            use_encryption,
            match key {
                Some(k) => Some(k@),
                None => None,
            },
            r@,
        ),
{
    if blob.len() == 0 {
        return String::new();
    }
    let token = utf8_lossy(blob);
    let tv = chars_of(token.as_str());
    if !starts_with_str(tv.as_slice(), FERNET_PREFIX) {
        return token;
    }
    if !use_encryption {
        return String::from_str(DECRYPTION_FAILED_MARKER);
    }
    let k = match key {
        Some(k) => k,
        None => {
            return String::from_str(DECRYPTION_FAILED_MARKER);
        },
    };
    open_field(fernet_decrypt(k, token.as_str()))
}

/// A field encrypted under a key reads back, under the same key, as the value
/// itself, or as the failure marker when the token's time is ahead of the
/// clock: never as other text.
pub proof fn lemma_field_roundtrip(key: Seq<char>, value: Seq<char>, blob: Seq<u8>, out: Seq<char>)
    requires
        fernet_key_valid(key),
        value.len() > 0,
        sealed(key, value, blob),
        field_read(blob, true, Some(key), out),
    ensures
        out == value || out == DECRYPTION_FAILED_MARKER@,
        starts_with(field_text(blob), FERNET_PREFIX@),
{
    let t = choose|t: Seq<char>|
        #[trigger] encode_utf8(t) == blob && starts_with(t, FERNET_PREFIX@) && fernet_plain(key, t)
            == Some(encode_utf8(value));
    vstd::utf8::encode_utf8_valid_utf8(t);
    vstd::utf8::encode_utf8_decode_utf8(t);
    vstd::utf8::encode_utf8_valid_utf8(value);
    vstd::utf8::encode_utf8_decode_utf8(value);
    assert(field_text(blob) == t);
    reveal_strlit("gAAAAA");
    assert(blob.len() > 0);
}

} // verus!
