use yanklog_core::backup::{
    backup_contents, backup_document_at, backup_magic_bytes, decode_backup_frame, derive_key, encode_backup_frame,
    new_backup_document, open_backup, seal_backup, seal_backup_with, validate_password, BackupDocument, BackupEntry,
    BACKUP_FORMAT_VERSION,
};
use yanklog_core::{ClipboardEntry, Config};

fn entry(content: &str, favorite: bool) -> ClipboardEntry {
    ClipboardEntry {
        id: 7,
        content: content.to_string(),
        content_type: "text".to_string(),
        timestamp: "2026-01-01T00:00:00Z".to_string(),
        is_favorite: favorite,
    }
}

#[test]
fn passwords_need_eight_characters() {
    assert_eq!(
        validate_password("short").unwrap_err(),
        "Backup passwords must contain at least 8 characters."
    );
    assert!(validate_password("éééééééé").is_ok());
    assert!(validate_password("1234567").is_err());
}

#[test]
fn key_derivation_is_deterministic() {
    let salt = [3u8; 16];
    let a = derive_key("correct horse", &salt).unwrap();
    let b = derive_key("correct horse", &salt).unwrap();
    let c = derive_key("correct horsf", &salt).unwrap();
    assert_eq!(a, b);
    assert_ne!(a, c);
    assert_ne!(a, [0u8; 32]);
    assert_eq!(
        derive_key("correct horse", &[1u8; 7]).unwrap_err(),
        "Could not derive the backup encryption key."
    );
}

#[test]
fn frame_round_trip() {
    let salt = [1u8; 16];
    let nonce = [2u8; 24];
    let ciphertext = [9u8, 8, 7];
    let bytes = encode_backup_frame(&salt, &nonce, &ciphertext);
    assert_eq!(&bytes[..8], b"YNKLOGB1");
    assert_eq!(backup_magic_bytes(), b"YNKLOGB1".to_vec());
    assert_eq!(bytes.len(), 8 + 16 + 24 + 3);
    let (s, n, c) = decode_backup_frame(&bytes).unwrap();
    assert_eq!(s, salt.to_vec());
    assert_eq!(n, nonce.to_vec());
    assert_eq!(c, ciphertext.to_vec());
    assert!(decode_backup_frame(&bytes[..48]).is_none());
    let mut wrong = bytes.clone();
    wrong[0] = b'X';
    assert!(decode_backup_frame(&wrong).is_none());
}

#[test]
fn seal_and_open() {
    let plaintext = b"private text".to_vec();
    let sealed = seal_backup("correct horse", &plaintext).unwrap();
    assert!(!sealed.windows(12).any(|w| w == b"private text"));
    assert_eq!(sealed.len(), 48 + plaintext.len() + 16);
    assert_eq!(open_backup("correct horse", &sealed).unwrap(), plaintext);
    assert_eq!(
        open_backup("wrong password", &sealed).unwrap_err(),
        "The password is incorrect or the backup is damaged."
    );
    assert_eq!(
        open_backup("short", &sealed).unwrap_err(),
        "Backup passwords must contain at least 8 characters."
    );
    assert_eq!(
        open_backup("correct horse", b"not a backup at all").unwrap_err(),
        "This is not a supported YankLog backup."
    );
    assert!(seal_backup("short", &plaintext).is_err());
    let again = seal_backup("correct horse", &plaintext).unwrap();
    assert_ne!(again, sealed);
}

#[test]
fn seal_with_given_salt_and_nonce() {
    let salt = [5u8; 16];
    let nonce = [6u8; 24];
    let a = seal_backup_with("correct horse", b"notes", &salt, &nonce).unwrap();
    let b = seal_backup_with("correct horse", b"notes", &salt, &nonce).unwrap();
    assert_eq!(a, b);
    assert_eq!(&a[8..24], &salt);
    assert_eq!(&a[24..48], &nonce);
    assert_eq!(open_backup("correct horse", &a).unwrap(), b"notes".to_vec());
    assert_eq!(
        seal_backup_with("short", b"notes", &salt, &nonce).unwrap_err(),
        "Backup passwords must contain at least 8 characters."
    );
}

#[test]
fn documents() {
    let doc = new_backup_document(vec![entry("a", true), entry("b", false)], Some(Config::default()))
        .unwrap();
    assert_eq!(doc.format_version, BACKUP_FORMAT_VERSION);
    assert_eq!(doc.entries.len(), 2);
    assert_eq!(doc.entries[0].content, "a");
    assert!(doc.entries[0].is_favorite);
    assert_eq!(doc.entries[1].content, "b");
    assert!(doc.created_at.parse::<chrono::DateTime<chrono::Utc>>().is_ok());
    let contents = backup_contents(doc).unwrap();
    assert_eq!(contents.entries.len(), 2);
    assert_eq!(contents.entries[0].id, 0);
    assert_eq!(contents.entries[0].content, "a");
    assert_eq!(contents.entries[0].timestamp, "2026-01-01T00:00:00Z");
    assert!(contents.config.is_some());
    let old = BackupDocument {
        format_version: 2,
        created_at: String::new(),
        entries: Vec::new(),
        config: None,
    };
    assert_eq!(
        backup_contents(old).err().unwrap(),
        "This backup was created by an unsupported YankLog version."
    );
}

#[test]
fn entry_conversions() {
    let e = entry("x", true);
    let b = BackupEntry::from(e.clone());
    assert_eq!(b.content, "x");
    let back = ClipboardEntry::from(b);
    assert_eq!(back.id, 0);
    assert_eq!(back.content, e.content);
    assert_eq!(back.content_type, e.content_type);
    assert_eq!(back.timestamp, e.timestamp);
    assert_eq!(back.is_favorite, e.is_favorite);
}

#[test]
fn documents_stamped_at_an_instant() {
    let doc = backup_document_at(0, 0, vec![entry("a", false)], None).unwrap();
    assert_eq!(doc.created_at, "1970-01-01T00:00:00+00:00");
    assert_eq!(doc.entries.len(), 1);
    assert!(doc.config.is_none());
    let doc = backup_document_at(1_767_225_600, 500_000_000, Vec::new(), None).unwrap();
    assert_eq!(doc.created_at, "2026-01-01T00:00:00.500+00:00");
    let before = backup_document_at(-86_400, 0, Vec::new(), None).unwrap();
    assert_eq!(before.created_at, "1969-12-31T00:00:00+00:00");
    assert_eq!(
        backup_document_at(i128::from(i64::MAX), 0, Vec::new(), None).err().unwrap(),
        "The system clock is out of range."
    );
}
