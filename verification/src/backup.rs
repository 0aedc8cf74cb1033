//! Password-encrypted backups: the file frame (`YNKLOGB1`, salt, nonce,
//! ciphertext), the key derivation and encryption around it, and the backup
//! document that the ciphertext holds.
use vstd::prelude::*;

use chacha20poly1305::aead::{Aead, KeyInit};
use chacha20poly1305::{XChaCha20Poly1305, XNonce};
use rand::RngCore;
use vstd::utf8::encode_utf8;

use crate::config::Config;
use crate::database::ClipboardEntry;
use crate::text::chars_of;
use crate::timestamp::{clock_now, utc_timestamp_parses, MAX_UNIX_SECONDS, MIN_UNIX_SECONDS};

verus! {

pub const SALT_LENGTH: usize = 16;

pub const NONCE_LENGTH: usize = 24;

pub const MAGIC_LENGTH: usize = 8;

/// The only document format that backups are written in and read back from.
pub const BACKUP_FORMAT_VERSION: u8 = 1;

/// The bytes `YNKLOGB1` that every backup starts with.
pub open spec fn backup_magic() -> Seq<u8> {
    seq![0x59u8, 0x4e, 0x4b, 0x4c, 0x4f, 0x47, 0x42, 0x31]
}

/// The bytes `YNKLOGB1`.
pub fn backup_magic_bytes() -> (r: Vec<u8>)
    ensures
        r@ == backup_magic(),
{
    let r: Vec<u8> = vec![0x59u8, 0x4e, 0x4b, 0x4c, 0x4f, 0x47, 0x42, 0x31];
    assert(r@ =~= backup_magic());
    r
}

pub open spec fn header_length() -> int {
    (MAGIC_LENGTH + SALT_LENGTH + NONCE_LENGTH) as int
}

// ---------------------------------------------------------------------------
// Outside cryptography
// ---------------------------------------------------------------------------
#[verifier::external_type_specification]
#[verifier::external_body]
pub struct ExArgon2Error(argon2::Error);

#[verifier::external_type_specification]
#[verifier::external_body]
pub struct ExAeadError(chacha20poly1305::Error);

/// The 32-byte key that Argon2id with the crate's default parameters derives
/// from a password (its UTF-8 bytes) and a salt.
pub uninterp spec fn argon2id_key(password: Seq<char>, salt: Seq<u8>) -> Seq<u8>;

/// The ciphertext that XChaCha20-Poly1305 gives for a key, nonce and plaintext.
pub uninterp spec fn xchacha20poly1305_seal(
    key: Seq<u8>,
    nonce: Seq<u8>,
    plaintext: Seq<u8>,
) -> Seq<u8>;

/// What XChaCha20-Poly1305 decryption gives: the plaintext, or `None` when the
/// ciphertext does not authenticate under the key and nonce.
pub uninterp spec fn xchacha20poly1305_open(
    key: Seq<u8>,
    nonce: Seq<u8>,
    ciphertext: Seq<u8>,
) -> Option<Seq<u8>>;

/// The inputs that `Argon2::hash_password_into` accepts for a 32-byte output:
/// a password of at most 2^32 - 1 bytes and a salt of 8 to 2^32 - 1 bytes.
pub open spec fn argon2_accepts(password: Seq<char>, salt: Seq<u8>) -> bool {
    encode_utf8(password).len() <= 0xFFFF_FFFF && 8 <= salt.len() <= 0xFFFF_FFFF
}

/// `Argon2::default().hash_password_into` with a 32-byte output. The source
/// refuses only a too long password or a too short or too long salt; the key
/// itself is named by `argon2id_key`.
#[verifier::external_body]
fn argon2_hash_password_into(password: &str, salt: &[u8], out: &mut [u8; 32]) -> (r: Result<
    (),
    argon2::Error,
>)
    ensures
        r is Ok <==> argon2_accepts(password@, salt@),
        r is Ok ==> final(out)@ == argon2id_key(password@, salt@),
{
    argon2::Argon2::default().hash_password_into(password.as_bytes(), salt, out)
}

/// The longest text that XChaCha20-Poly1305 encrypts or decrypts here: the
/// keystream starts after the block that keys Poly1305, so 2^32 - 2 blocks of
/// 64 bytes remain. (The crate's own length check lets a few bytes more
/// through, and its stream cipher then panics.)
pub open spec fn max_message_length() -> int {
    64 * (0xFFFF_FFFF - 1)
}

/// `max_message_length()` as a machine number.
pub const MAX_MESSAGE_LENGTH: u64 = 274_877_906_816u64;

/// `XChaCha20Poly1305::encrypt` without associated data, for a plaintext of at
/// most `max_message_length()` bytes, which the source always encrypts: the
/// ciphertext is the plaintext's length plus a 16-byte tag, named by
/// `xchacha20poly1305_seal`, and decrypting it under the same key and nonce
/// gives the plaintext back.
#[verifier::external_body]
fn xchacha_encrypt(key: &[u8; 32], nonce: &[u8], plaintext: &[u8]) -> (r: Result<
    Vec<u8>,
    chacha20poly1305::Error,
>)
    requires
        nonce@.len() == 24,
        plaintext@.len() <= max_message_length(),
    ensures
        r is Ok,
        r matches Ok(c) ==> {
            &&& c@ == xchacha20poly1305_seal(key@, nonce@, plaintext@)
            &&& c@.len() == plaintext@.len() + 16
            &&& xchacha20poly1305_open(key@, nonce@, c@) == Some(plaintext@)
        },
{
    XChaCha20Poly1305::new(key.into()).encrypt(XNonce::from_slice(nonce), plaintext)
}

/// `XChaCha20Poly1305::decrypt` without associated data, for a ciphertext of
/// at most `max_message_length()` bytes plus the 16-byte tag; the outcome is
/// named by `xchacha20poly1305_open`.
#[verifier::external_body]
fn xchacha_decrypt(key: &[u8; 32], nonce: &[u8], ciphertext: &[u8]) -> (r: Result<
    Vec<u8>,
    chacha20poly1305::Error,
>)
    requires
        nonce@.len() == 24,
        ciphertext@.len() <= max_message_length() + 16,
    ensures
        match r {
            Ok(p) => xchacha20poly1305_open(key@, nonce@, ciphertext@) == Some(p@),
            Err(_) => xchacha20poly1305_open(key@, nonce@, ciphertext@) is None,
        },
{
    XChaCha20Poly1305::new(key.into()).decrypt(XNonce::from_slice(nonce), ciphertext)
}

/// `len` bytes from the operating system's generator
/// (`OsRng::try_fill_bytes`), or `None` when the system cannot provide them.
/// Only the length is promised.
#[verifier::external_body]
fn os_random_bytes(len: usize) -> (r: Option<Vec<u8>>)
    ensures
        r matches Some(b) ==> b@.len() == len,
{
    let mut bytes = vec![0u8; len];
    match rand::rngs::OsRng.try_fill_bytes(&mut bytes) {
        Ok(()) => Some(bytes),
        Err(_) => None,
    }
}

// ---------------------------------------------------------------------------
// Passwords and keys
// ---------------------------------------------------------------------------
pub open spec fn password_too_short_message() -> Seq<char> {
    "Backup passwords must contain at least 8 characters."@
}

pub open spec fn key_failure_message() -> Seq<char> {
    "Could not derive the backup encryption key."@
}

pub open spec fn encrypt_failure_message() -> Seq<char> {
    "Could not encrypt the backup."@
}

pub open spec fn not_a_backup_message() -> Seq<char> {
    "This is not a supported YankLog backup."@
}

pub open spec fn wrong_password_message() -> Seq<char> {
    "The password is incorrect or the backup is damaged."@
}

pub open spec fn unsupported_version_message() -> Seq<char> {
    "This backup was created by an unsupported YankLog version."@
}

/// Backup passwords have at least 8 characters.
pub fn validate_password(password: &str) -> (r: Result<(), String>)
    ensures
        r is Ok <==> password@.len() >= 8,
        r matches Err(e) ==> e@ == password_too_short_message(),
{
    let chars = chars_of(password);
    if chars.len() < 8 {
        return Err(String::from_str("Backup passwords must contain at least 8 characters."));
    }
    Ok(())
}

/// The backup key for a password and salt.
pub fn derive_key(password: &str, salt: &[u8]) -> (r: Result<[u8; 32], String>)
    ensures
        r is Ok <==> argon2_accepts(password@, salt@),
        r matches Ok(k) ==> k@ == argon2id_key(password@, salt@),
        r matches Err(e) ==> e@ == key_failure_message(),
{
    let mut key = [0u8; 32];
    match argon2_hash_password_into(password, salt, &mut key) {
        Ok(()) => Ok(key),
        Err(_) => Err(String::from_str("Could not derive the backup encryption key.")),
    }
}

// ---------------------------------------------------------------------------
// The frame
// ---------------------------------------------------------------------------
pub open spec fn spec_encode_frame(salt: Seq<u8>, nonce: Seq<u8>, ciphertext: Seq<u8>) -> Seq<u8> {
    backup_magic() + salt + nonce + ciphertext
}

/// The salt, nonce and ciphertext of a backup file, or `None` when the bytes
/// are not longer than the header or do not start with `YNKLOGB1`.
pub open spec fn spec_decode_frame(encoded: Seq<u8>) -> Option<(Seq<u8>, Seq<u8>, Seq<u8>)> {
    if encoded.len() <= header_length() || encoded.take(MAGIC_LENGTH as int) != backup_magic() {
        None
    } else {
        Some(
            (
                encoded.subrange(MAGIC_LENGTH as int, (MAGIC_LENGTH + SALT_LENGTH) as int),
                encoded.subrange((MAGIC_LENGTH + SALT_LENGTH) as int, header_length()),
                encoded.skip(header_length()),
            ),
        )
    }
}

fn copy_range(bytes: &[u8], lo: usize, hi: usize) -> (r: Vec<u8>)
    requires
        lo <= hi <= bytes@.len(),
    ensures
        r@ == bytes@.subrange(lo as int, hi as int),
{
    let mut out: Vec<u8> = Vec::new();
    let mut i = lo;
    while i < hi
        invariant
            lo <= i <= hi <= bytes@.len(),
            out@ == bytes@.subrange(lo as int, i as int),
        decreases hi - i,
    {
        out.push(bytes[i]);
        i = i + 1;
        assert(out@ =~= bytes@.subrange(lo as int, i as int));
    }
    out
}

fn append_bytes(out: &mut Vec<u8>, bytes: &[u8])
    ensures
        final(out)@ == old(out)@ + bytes@,
{
    let mut i: usize = 0;
    let ghost start = out@;
    while i < bytes.len()
        invariant
            i <= bytes@.len(),
            out@ == start + bytes@.take(i as int),
        decreases bytes@.len() - i,
    {
        out.push(bytes[i]);
        i = i + 1;
        assert(out@ =~= start + bytes@.take(i as int));
    }
    assert(bytes@.take(bytes@.len() as int) =~= bytes@);
}

/// The bytes of a backup file: `YNKLOGB1`, the salt, the nonce, the ciphertext.
pub fn encode_backup_frame(salt: &[u8], nonce: &[u8], ciphertext: &[u8]) -> (r: Vec<u8>)
    ensures
        r@ == spec_encode_frame(salt@, nonce@, ciphertext@),
{
    let mut out = backup_magic_bytes();
    append_bytes(&mut out, salt);
    append_bytes(&mut out, nonce);
    append_bytes(&mut out, ciphertext);
    out
}

pub open spec fn frame_view(r: Option<(Vec<u8>, Vec<u8>, Vec<u8>)>) -> Option<
    (Seq<u8>, Seq<u8>, Seq<u8>),
> {
    match r {
        Some((s, n, c)) => Some((s@, n@, c@)),
        None => None,
    }
}

/// Splits the bytes of a backup file into salt, nonce and ciphertext.
pub fn decode_backup_frame(encoded: &[u8]) -> (r: Option<(Vec<u8>, Vec<u8>, Vec<u8>)>)
    ensures
        frame_view(r) == spec_decode_frame(encoded@),
{
    let header = MAGIC_LENGTH + SALT_LENGTH + NONCE_LENGTH;
    if encoded.len() <= header {
        return None;
    }
    let magic = backup_magic_bytes();
    let mut i: usize = 0;
    while i < MAGIC_LENGTH
        invariant
            i <= MAGIC_LENGTH,
            encoded@.len() > header_length(),
            magic@ == backup_magic(),
            forall|k: int| 0 <= k < i ==> encoded@[k] == magic@[k],
        decreases MAGIC_LENGTH - i,
    {
        if encoded[i] != magic[i] {
            assert(encoded@.take(MAGIC_LENGTH as int)[i as int] != backup_magic()[i as int]);
            return None;
        }
        i = i + 1;
    }
    assert(encoded@.take(MAGIC_LENGTH as int) =~= backup_magic());
    let salt = copy_range(encoded, MAGIC_LENGTH, MAGIC_LENGTH + SALT_LENGTH);
    let nonce = copy_range(encoded, MAGIC_LENGTH + SALT_LENGTH, header);
    let ciphertext = copy_range(encoded, header, encoded.len());
    assert(ciphertext@ =~= encoded@.skip(header_length()));
    Some((salt, nonce, ciphertext))
}

/// Only bytes that start with `YNKLOGB1` and hold more than the 48-byte header
/// are read as a backup, and what is read from them makes up the bytes again.
pub proof fn lemma_frame_decode_inverts(encoded: Seq<u8>)
    ensures
        spec_decode_frame(encoded) matches Some((salt, nonce, ciphertext)) ==> {
            &&& encoded.len() > 48
            &&& encoded.take(8) == seq![
                'Y' as u8,
                'N' as u8,
                'K' as u8,
                'L' as u8,
                'O' as u8,
                'G' as u8,
                'B' as u8,
                '1' as u8,
            ]
            &&& salt.len() == 16 && nonce.len() == 24
            &&& spec_encode_frame(salt, nonce, ciphertext) == encoded
        },
{
    if let Some((salt, nonce, ciphertext)) = spec_decode_frame(encoded) {
        assert(seq!['Y' as u8, 'N' as u8, 'K' as u8, 'L' as u8, 'O' as u8, 'G' as u8, 'B' as u8, '1' as u8]
            =~= backup_magic());
        assert(spec_encode_frame(salt, nonce, ciphertext) =~= encoded);
    }
}

/// Reading a frame back gives the salt, nonce and ciphertext written into it,
/// for a 16-byte salt, a 24-byte nonce and a ciphertext that is not empty.
pub proof fn lemma_frame_round_trip(salt: Seq<u8>, nonce: Seq<u8>, ciphertext: Seq<u8>)
    requires
        salt.len() == SALT_LENGTH,
        nonce.len() == NONCE_LENGTH,
        ciphertext.len() > 0,
    ensures
        spec_decode_frame(spec_encode_frame(salt, nonce, ciphertext)) == Some(
            (salt, nonce, ciphertext),
        ),
{
    let e = spec_encode_frame(salt, nonce, ciphertext);
    assert(e.take(MAGIC_LENGTH as int) =~= backup_magic());
    assert(e.subrange(MAGIC_LENGTH as int, (MAGIC_LENGTH + SALT_LENGTH) as int) =~= salt);
    assert(e.subrange((MAGIC_LENGTH + SALT_LENGTH) as int, header_length()) =~= nonce);
    assert(e.skip(header_length()) =~= ciphertext);
}

// ---------------------------------------------------------------------------
// Sealing and opening
// ---------------------------------------------------------------------------
/// What opening a backup gives for a password: the plaintext, or why not.
pub open spec fn spec_open_backup(password: Seq<char>, encoded: Seq<u8>) -> Result<
    Seq<u8>,
    Seq<char>,
> {
    if password.len() < 8 {
        Err(password_too_short_message())
    } else {
        match spec_decode_frame(encoded) {
            None => Err(not_a_backup_message()),
            Some((salt, nonce, ciphertext)) => if !argon2_accepts(password, salt) {
                Err(key_failure_message())
            } else {
                if ciphertext.len() > max_message_length() + 16 {
                    Err(wrong_password_message())
                } else {
                    match xchacha20poly1305_open(argon2id_key(password, salt), nonce, ciphertext) {
                        None => Err(wrong_password_message()),
                        Some(plaintext) => Ok(plaintext),
                    }
                }
            },
        }
    }
}

pub open spec fn bytes_result_view(r: Result<Vec<u8>, String>) -> Result<Seq<u8>, Seq<char>> {
    match r {
        Ok(b) => Ok(b@),
        Err(e) => Err(e@),
    }
}

pub open spec fn random_failure_message() -> Seq<char> {
    "Could not read random bytes for the backup."@
}

/// The bytes of a backup of `plaintext` under `password` with a given salt and
/// nonce, or why there are none.
pub open spec fn spec_seal_backup_with(
    password: Seq<char>,
    plaintext: Seq<u8>,
    salt: Seq<u8>,
    nonce: Seq<u8>,
) -> Result<Seq<u8>, Seq<char>> {
    if password.len() < 8 {
        Err(password_too_short_message())
    } else if !argon2_accepts(password, salt) {
        Err(key_failure_message())
    } else if plaintext.len() > max_message_length() {
        Err(encrypt_failure_message())
    } else {
        Ok(
            spec_encode_frame(
                salt,
                nonce,
                xchacha20poly1305_seal(argon2id_key(password, salt), nonce, plaintext),
            ),
        )
    }
}

/// Encrypts a plaintext under a password with the given salt and nonce into
/// the bytes of a backup file. Opening those bytes with the same password
/// gives the plaintext back.
pub fn seal_backup_with(password: &str, plaintext: &[u8], salt: &[u8], nonce: &[u8]) -> (r: Result<
    Vec<u8>,
    String,
>)
    requires
        salt@.len() == SALT_LENGTH,
        nonce@.len() == NONCE_LENGTH,
    ensures
        bytes_result_view(r) == spec_seal_backup_with(password@, plaintext@, salt@, nonce@),
        r matches Ok(bytes) ==> spec_open_backup(password@, bytes@) == Ok::<Seq<u8>, Seq<char>>(plaintext@),
{
    match validate_password(password) {
        Ok(()) => {},
        Err(e) => return Err(e),
    }
    let key = match derive_key(password, salt) {
        Ok(k) => k,
        Err(e) => return Err(e),
    };
    if plaintext.len() as u64 > MAX_MESSAGE_LENGTH {
        return Err(String::from_str("Could not encrypt the backup."));
    }
    let ciphertext = match xchacha_encrypt(&key, nonce, plaintext) {
        Ok(c) => c,
        Err(_) => return Err(String::from_str("Could not encrypt the backup.")),
    };
    let encoded = encode_backup_frame(salt, nonce, ciphertext.as_slice());
    proof {
        lemma_frame_round_trip(salt@, nonce@, ciphertext@);
    }
    Ok(encoded)
}

/// Encrypts a plaintext under a password, with a fresh random salt and nonce
/// from the operating system, into the bytes of a backup file. Opening those
/// bytes with the same password gives the plaintext back. It fails as
/// `seal_backup_with` does, or when the system gives no random bytes.
pub fn seal_backup(password: &str, plaintext: &[u8]) -> (r: Result<Vec<u8>, String>)
    ensures
        password@.len() < 8 ==> (r matches Err(e) && e@ == password_too_short_message()),
        password@.len() >= 8 && encode_utf8(password@).len() > 0xFFFF_FFFF ==> (r matches Err(e)
            && (e@ == key_failure_message() || e@ == random_failure_message())),
        password@.len() >= 8 && encode_utf8(password@).len() <= 0xFFFF_FFFF && plaintext@.len()
            > max_message_length() ==> (r matches Err(e) && (e@ == encrypt_failure_message() || e@
            == random_failure_message())),
        password@.len() >= 8 && encode_utf8(password@).len() <= 0xFFFF_FFFF && plaintext@.len()
            <= max_message_length() ==> (r is Ok || (r matches Err(e) && e@ == random_failure_message())),
        r matches Ok(bytes) ==> exists|salt: Seq<u8>, nonce: Seq<u8>|
            #![trigger spec_seal_backup_with(password@, plaintext@, salt, nonce)]
            salt.len() == SALT_LENGTH && nonce.len() == NONCE_LENGTH && spec_seal_backup_with(
                password@,
                plaintext@,
                salt,
                nonce,
            ) == Ok::<Seq<u8>, Seq<char>>(bytes@),
        r matches Ok(bytes) ==> spec_open_backup(password@, bytes@) == Ok::<Seq<u8>, Seq<char>>(plaintext@),
{
    match validate_password(password) {
        Ok(()) => {},
        Err(e) => return Err(e),
    }
    let salt = match os_random_bytes(SALT_LENGTH) {
        Some(b) => b,
        None => return Err(String::from_str("Could not read random bytes for the backup.")),
    };
    let nonce = match os_random_bytes(NONCE_LENGTH) {
        Some(b) => b,
        None => return Err(String::from_str("Could not read random bytes for the backup.")),
    };
    let r = seal_backup_with(password, plaintext, salt.as_slice(), nonce.as_slice());
    proof {
        if r is Ok {
            assert(spec_seal_backup_with(password@, plaintext@, salt@, nonce@) == bytes_result_view(r));
        }
    }
    r
}

/// Decrypts the bytes of a backup file with a password.
pub fn open_backup(password: &str, encoded: &[u8]) -> (r: Result<Vec<u8>, String>)
    ensures
        bytes_result_view(r) == spec_open_backup(password@, encoded@),
{
    match validate_password(password) {
        Ok(()) => {},
        Err(e) => return Err(e),
    }
    let (salt, nonce, ciphertext) = match decode_backup_frame(encoded) {
        Some(parts) => parts,
        None => return Err(String::from_str("This is not a supported YankLog backup.")),
    };
    let key = match derive_key(password, salt.as_slice()) {
        Ok(k) => k,
        Err(e) => return Err(e),
    };
    if ciphertext.len() as u64 > MAX_MESSAGE_LENGTH + 16 {
        return Err(String::from_str("The password is incorrect or the backup is damaged."));
    }
    match xchacha_decrypt(&key, nonce.as_slice(), ciphertext.as_slice()) {
        Ok(plaintext) => Ok(plaintext),
        Err(_) => Err(String::from_str("The password is incorrect or the backup is damaged.")),
    }
}

// ---------------------------------------------------------------------------
// The backup document
// ---------------------------------------------------------------------------
/// An entry as a backup holds it: the database id is not kept.
#[derive(Debug, Clone)]
pub struct BackupEntry {
    pub content: String,
    pub content_type: String,
    pub timestamp: String,
    pub is_favorite: bool,
}

/// What a backup's ciphertext holds once decoded.
#[derive(Debug, Clone)]
pub struct BackupDocument {
    pub format_version: u8,
    pub created_at: String,
    pub entries: Vec<BackupEntry>,
    pub config: Option<Config>,
}

/// What reading a backup gives.
pub struct BackupContents {
    pub entries: Vec<ClipboardEntry>,
    pub config: Option<Config>,
}

pub open spec fn backup_entry_of(e: ClipboardEntry) -> BackupEntry {
    BackupEntry {
        content: e.content,
        content_type: e.content_type,
        timestamp: e.timestamp,
        is_favorite: e.is_favorite,
    }
}

/// A restored entry gets id 0; the database gives it its own.
pub open spec fn clipboard_entry_of(e: BackupEntry) -> ClipboardEntry {
    ClipboardEntry {
        id: 0,
        content: e.content,
        content_type: e.content_type,
        timestamp: e.timestamp,
        is_favorite: e.is_favorite,
    }
}

impl From<ClipboardEntry> for BackupEntry {
    fn from(entry: ClipboardEntry) -> (r: Self) {
        Self {
            content: entry.content,
            content_type: entry.content_type,
            timestamp: entry.timestamp,
            is_favorite: entry.is_favorite,
        }
    }
}

impl vstd::std_specs::convert::FromSpecImpl<ClipboardEntry> for BackupEntry {
    open spec fn obeys_from_spec() -> bool {
        true
    }

    open spec fn from_spec(v: ClipboardEntry) -> Self {
        backup_entry_of(v)
    }
}

impl From<BackupEntry> for ClipboardEntry {
    fn from(entry: BackupEntry) -> (r: Self) {
        Self {
            id: 0,
            content: entry.content,
            content_type: entry.content_type,
            timestamp: entry.timestamp,
            is_favorite: entry.is_favorite,
        }
    }
}

impl vstd::std_specs::convert::FromSpecImpl<BackupEntry> for ClipboardEntry {
    open spec fn obeys_from_spec() -> bool {
        true
    }

    open spec fn from_spec(v: BackupEntry) -> Self {
        clipboard_entry_of(v)
    }
}

/// An entry written to a backup and read back keeps its text, type, time and
/// pin, and comes back without an id.
pub proof fn lemma_entry_backup_round_trip(e: ClipboardEntry)
    ensures
        clipboard_entry_of(backup_entry_of(e)) == (ClipboardEntry { id: 0, ..e }),
{
}

/// The text that chrono's `DateTime::<Utc>::to_rfc3339` writes for a moment
/// given as Unix seconds and nanoseconds.
pub uninterp spec fn rfc3339_text(secs: i64, nanos: u32) -> Seq<char>;

/// RFC 3339 text of a moment: `DateTime::from_timestamp` (which has the moment
/// for any seconds in chrono's range and nanoseconds below a billion) and
/// `to_rfc3339`, named by `rfc3339_text`. chrono's relaxed RFC 3339 reading
/// (`str::parse::<DateTime<Utc>>`) accepts what `to_rfc3339` writes.
#[verifier::external_body]
fn rfc3339_at(secs: i64, nanos: u32) -> (r: Option<String>)
    requires
        MIN_UNIX_SECONDS <= secs <= MAX_UNIX_SECONDS,
        nanos < 1_000_000_000,
    ensures
        r is Some,
        r matches Some(s) ==> s@ == rfc3339_text(secs, nanos) && utc_timestamp_parses(s@),
{
    match chrono::DateTime::from_timestamp(secs, nanos) {
        Some(t) => Some(t.to_rfc3339()),
        None => None,
    }
}

pub open spec fn clock_out_of_range_message() -> Seq<char> {
    "The system clock is out of range."@
}

/// `r` is what stamping a backup document of `entries` and `config` at the
/// instant `secs` seconds and `nanos` nanoseconds after the Unix epoch gives:
/// the document with the instant as RFC 3339 text and each entry as a backup
/// entry, in order; refused when chrono cannot write the instant.
pub open spec fn is_document_at(
    secs: i128,
    nanos: u32,
    entries: Seq<ClipboardEntry>,
    config: Option<Config>,
    r: Result<BackupDocument, String>,
) -> bool {
    if secs < MIN_UNIX_SECONDS || secs > MAX_UNIX_SECONDS {
        r matches Err(e) && e@ == clock_out_of_range_message()
    } else {
        &&& r matches Ok(doc)
        &&& r->Ok_0.format_version == BACKUP_FORMAT_VERSION
        &&& r->Ok_0.created_at@ == rfc3339_text(secs as i64, nanos)
        &&& r->Ok_0.entries@.len() == entries.len()
        &&& forall|i: int|
            0 <= i < entries.len() ==> #[trigger] r->Ok_0.entries@[i] == backup_entry_of(entries[i])
        &&& r->Ok_0.config == config
    }
}

/// A new backup document of the given entries and settings, stamped with the
/// current time as RFC 3339 text; refused when the clock lies outside the
/// dates that chrono can write.
pub fn new_backup_document(entries: Vec<ClipboardEntry>, config: Option<Config>) -> (r: Result<
    BackupDocument,
    String,
>)
    ensures
        exists|secs: i128, nanos: u32|
            nanos < 1_000_000_000 && #[trigger] is_document_at(secs, nanos, entries@, config, r),
        r matches Ok(doc) ==> utc_timestamp_parses(doc.created_at@),
{
    let (now_secs, now_nanos) = clock_now();
    let r = backup_document_at(now_secs, now_nanos, entries, config);
    r
}

/// The backup document of the given entries and settings stamped at the
/// instant `secs` seconds and `nanos` nanoseconds after the Unix epoch.
pub fn backup_document_at(
    secs: i128,
    nanos: u32,
    entries: Vec<ClipboardEntry>,
    config: Option<Config>,
) -> (r: Result<BackupDocument, String>)
    requires
        nanos < 1_000_000_000,
    ensures
        is_document_at(secs, nanos, entries@, config, r),
        r matches Ok(doc) ==> utc_timestamp_parses(doc.created_at@),
{
    if secs < MIN_UNIX_SECONDS as i128 || secs > MAX_UNIX_SECONDS as i128 {
        return Err(String::from_str("The system clock is out of range."));
    }
    let created_at = match rfc3339_at(secs as i64, nanos) {
        Some(text) => text,
        None => return Err(String::from_str("The system clock is out of range.")),
    };
    // The entries are moved out from the back, then put back in their order.
    let mut out: Vec<BackupEntry> = Vec::new();
    let mut rest = entries;
    let ghost all = rest@;
    let n = rest.len();
    let mut reversed: Vec<BackupEntry> = Vec::new();
    while rest.len() > 0
        invariant
            rest@ == all.take(rest@.len() as int),
            rest@.len() <= all.len(),
            all.len() == n,
            reversed@.len() == all.len() - rest@.len(),
            forall|k: int|
                0 <= k < reversed@.len() ==> #[trigger] reversed@[k] == backup_entry_of(
                    all[all.len() - 1 - k],
                ),
        decreases rest@.len(),
    {
        let e = rest.pop().unwrap();
        reversed.push(BackupEntry::from(e));
        assert(rest@ =~= all.take(rest@.len() as int));
    }
    while reversed.len() > 0
        invariant
            out@.len() + reversed@.len() == n,
            all.len() == n,
            forall|k: int|
                0 <= k < reversed@.len() ==> #[trigger] reversed@[k] == backup_entry_of(
                    all[all.len() - 1 - k],
                ),
            forall|k: int| 0 <= k < out@.len() ==> #[trigger] out@[k] == backup_entry_of(all[k]),
        decreases reversed@.len(),
    {
        let e = reversed.pop().unwrap();
        out.push(e);
    }
    Ok(BackupDocument { format_version: BACKUP_FORMAT_VERSION, created_at, entries: out, config })
}

/// The entries and settings of a decoded backup document; documents of
/// another format version are refused.
pub fn backup_contents(document: BackupDocument) -> (r: Result<BackupContents, String>)
    ensures
        document.format_version != BACKUP_FORMAT_VERSION ==> (r matches Err(e) && e@
            == unsupported_version_message()),
        document.format_version == BACKUP_FORMAT_VERSION ==> (r matches Ok(c) && c.entries@.len()
            == document.entries@.len() && c.config == document.config && forall|i: int|
            0 <= i < document.entries@.len() ==> #[trigger] c.entries@[i] == clipboard_entry_of(
                document.entries@[i],
            )),
{
    if document.format_version != BACKUP_FORMAT_VERSION {
        return Err(String::from_str("This backup was created by an unsupported YankLog version."));
    }
    // The entries are moved out from the back, then put back in their order.
    let mut rest = document.entries;
    let ghost all = rest@;
    let n = rest.len();
    let mut reversed: Vec<ClipboardEntry> = Vec::new();
    while rest.len() > 0
        invariant
            rest@ == all.take(rest@.len() as int),
            rest@.len() <= all.len(),
            all.len() == n,
            reversed@.len() == all.len() - rest@.len(),
            forall|k: int|
                0 <= k < reversed@.len() ==> #[trigger] reversed@[k] == clipboard_entry_of(
                    all[all.len() - 1 - k],
                ),
        decreases rest@.len(),
    {
        let e = rest.pop().unwrap();
        reversed.push(ClipboardEntry::from(e));
        assert(rest@ =~= all.take(rest@.len() as int));
    }
    let mut out: Vec<ClipboardEntry> = Vec::new();
    while reversed.len() > 0
        invariant
            out@.len() + reversed@.len() == n,
            all.len() == n,
            forall|k: int|
                0 <= k < reversed@.len() ==> #[trigger] reversed@[k] == clipboard_entry_of(
                    all[all.len() - 1 - k],
                ),
            forall|k: int| 0 <= k < out@.len() ==> #[trigger] out@[k] == clipboard_entry_of(all[k]),
        decreases reversed@.len(),
    {
        let e = reversed.pop().unwrap();
        out.push(e);
    }
    Ok(BackupContents { entries: out, config: document.config })
}

} // verus!
