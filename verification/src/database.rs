//! Clipboard history entries and the key that encrypts the history database.
use vstd::prelude::*;

use rand::RngCore;

use crate::text::{chars_of, hex_digit, is_hex_digit};

verus! {

/// One entry of the clipboard history.
#[derive(Debug, Clone)]
pub struct ClipboardEntry {
    pub id: i64,
    pub content: String,
    pub content_type: String,
    pub timestamp: String,
    pub is_favorite: bool,
}

/// A key as the database accepts it: 64 hexadecimal digits.
pub open spec fn spec_is_valid_encryption_key(key: Seq<char>) -> bool {
    key.len() == 64 && forall|i: int| 0 <= i < key.len() ==> #[trigger] is_hex_digit(key[i])
}

/// Whether a text is an acceptable database key. Hexadecimal digits are ASCII,
/// so 64 of them are 64 bytes.
pub fn is_valid_encryption_key(key: &str) -> (r: bool)
    ensures
        r == spec_is_valid_encryption_key(key@),
{
    let chars = chars_of(key);
    if chars.len() != 64 {
        return false;
    }
    let mut i: usize = 0;
    while i < chars.len()
        invariant
            i <= chars@.len(),
            chars@ == key@,
            forall|k: int| 0 <= k < i ==> #[trigger] is_hex_digit(chars@[k]),
        decreases chars@.len() - i,
    {
        if !hex_digit(chars[i]) {
            return false;
        }
        i = i + 1;
    }
    true
}

/// The lower-case hexadecimal digit for a value below 16.
pub open spec fn hex_char(d: int) -> char {
    if d < 10 {
        ((d + 48) as u32) as char
    } else {
        ((d + 87) as u32) as char
    }
}

/// Lower-case hexadecimal text of bytes, two digits per byte, high half first.
pub open spec fn spec_hex_lower(bytes: Seq<u8>) -> Seq<char> {
    Seq::new(
        (2 * bytes.len()) as nat,
        |i: int|
            if i % 2 == 0 {
                hex_char((bytes[i / 2] / 16) as int)
            } else {
                hex_char((bytes[i / 2] % 16) as int)
            },
    )
}

/// Hexadecimal text of bytes through `hex::encode`, which writes two
/// lower-case digits per byte, high half first.
#[verifier::external_body]
fn hex_encode(bytes: &[u8]) -> (r: String)
    ensures
        r@ == spec_hex_lower(bytes@),
{
    hex::encode(bytes)
}

/// 32 bytes from the operating system's generator
/// (`OsRng::try_fill_bytes`), or `None` when the system cannot provide them.
/// Nothing is promised of the bytes.
#[verifier::external_body]
fn random_key_bytes() -> (r: Option<[u8; 32]>) {
    let mut bytes = [0u8; 32];
    match rand::rngs::OsRng.try_fill_bytes(&mut bytes) {
        Ok(()) => Some(bytes),
        Err(_) => None,
    }
}

/// The database key made of 32 bytes: their lower-case hexadecimal digits.
pub fn encryption_key_from_bytes(bytes: &[u8; 32]) -> (r: String)
    ensures
        r@ == spec_hex_lower(bytes@),
        spec_is_valid_encryption_key(r@),
{
    let key = hex_encode(bytes);
    assert forall|i: int| 0 <= i < key@.len() implies #[trigger] is_hex_digit(key@[i]) by {
        let b = bytes@[i / 2];
        assert(0 <= b / 16 < 16);
        assert(0 <= b % 16 < 16);
    }
    key
}

/// A new random database key: 32 random bytes as 64 lower-case hexadecimal
/// digits, or `None` when the system cannot provide random bytes.
pub fn generate_encryption_key() -> (r: Option<String>)
    ensures
        r matches Some(k) ==> spec_is_valid_encryption_key(k@) && exists|b: Seq<u8>|
            b.len() == 32 && k@ == #[trigger] spec_hex_lower(b),
{
    match random_key_bytes() {
        Some(bytes) => {
            let key = encryption_key_from_bytes(&bytes);
            assert(bytes@.len() == 32);
            Some(key)
        },
        None => None,
    }
}

} // verus!
