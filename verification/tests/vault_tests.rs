use std::path::PathBuf;

use secpass::vault::{
    validate_file_size, validate_master_password, Entry, Timestamp, Vault, VaultData, VaultError,
    MIN_MASTER_PASSWORD_CHARS,
};

const PASSWORD: &str = "correct horse battery staple";

fn entry(id: &str, title: &str) -> Entry {
    let mut e = Entry::new().unwrap();
    e.id = id.to_string();
    e.title = title.to_string();
    e
}

fn ids(v: &Vault) -> Vec<String> {
    v.data.entries.iter().map(|e| e.id.clone()).collect()
}

#[test]
fn weak_master_password_is_rejected() {
    assert!(matches!(
        validate_master_password("short"),
        Err(VaultError::WeakPassword(_))
    ));
}

#[test]
fn master_password_length_boundary_counts_characters() {
    assert_eq!(MIN_MASTER_PASSWORD_CHARS, 14);
    assert!(validate_master_password("1234567890123").is_err());
    assert!(validate_master_password("12345678901234").is_ok());
    // 14 characters, more than 14 bytes.
    assert!(validate_master_password("ééééééééééééé").is_err());
    assert!(validate_master_password("éééééééééééééé").is_ok());
    match validate_master_password("short") {
        Err(e) => assert_eq!(
            e.message(),
            "Master password must be at least 14 characters. Prefer a 4–6 word passphrase."
        ),
        Ok(()) => panic!("accepted a weak password"),
    }
}

#[test]
fn file_size_cap() {
    assert!(validate_file_size(96 * 1024 * 1024).is_ok());
    assert!(matches!(validate_file_size(96 * 1024 * 1024 + 1), Err(VaultError::InvalidFormat)));
}

#[test]
fn new_entry_is_empty_with_fresh_id() {
    let a = Entry::new().unwrap();
    let b = Entry::new().unwrap();
    assert_eq!(a.id.len(), 36);
    assert_ne!(a.id, b.id);
    assert!(a.title.is_empty() && a.password.is_empty() && a.notes.is_empty());
    assert!(a.totp_secret.is_none());
    assert_eq!(a.created_at, a.updated_at);
    assert!(a.created_at.secs > 0 && a.created_at.nanos < 1_000_000_000);
}

#[test]
fn entry_id_is_a_hyphenated_v4_uuid() {
    let e = Entry::new().unwrap();
    let cs: Vec<char> = e.id.chars().collect();
    assert_eq!(cs.len(), 36);
    for (i, c) in cs.iter().enumerate() {
        if i == 8 || i == 13 || i == 18 || i == 23 {
            assert_eq!(*c, '-');
        } else {
            assert!(c.is_ascii_digit() || ('a'..='f').contains(c));
        }
    }
    assert_eq!(cs[14], '4');
    assert!(matches!(cs[19], '8' | '9' | 'a' | 'b'));
}

#[test]
fn new_at_and_touch_at_use_the_given_time() {
    let t = Timestamp { secs: 1_700_000_000, nanos: 5 };
    let mut e = Entry::new_at("id-1".to_string(), t);
    assert_eq!(e.id, "id-1");
    assert_eq!(e.created_at, t);
    assert_eq!(e.updated_at, t);
    assert!(e.title.is_empty() && e.totp_secret.is_none());
    let later = Timestamp { secs: 1_700_000_100, nanos: 0 };
    e.touch_at(later);
    assert_eq!(e.updated_at, later);
    assert_eq!(e.created_at, t);
    assert_eq!(e.id, "id-1");
}

#[test]
fn touch_moves_only_the_update_time() {
    let mut e = entry("x", "Mail");
    e.updated_at = Timestamp { secs: 0, nanos: 0 };
    let created = e.created_at;
    e.touch();
    assert_eq!(e.title, "Mail");
    assert_eq!(e.created_at, created);
    assert!(e.updated_at.secs > 0);
}

#[test]
fn matching_is_case_insensitive_over_visible_fields() {
    let mut e = entry("1", "GitHub");
    e.username = "Alice".to_string();
    e.url = "https://EXAMPLE.org".to_string();
    e.notes = "Recovery codes in SAFE".to_string();
    e.password = "hunter2".to_string();
    assert!(e.matches(""));
    assert!(e.matches("github"));
    assert!(e.matches("ALICE"));
    assert!(e.matches("example.org"));
    assert!(e.matches("safe"));
    assert!(!e.matches("hunter2"));
    assert!(!e.matches("gitlab"));
}

#[test]
fn wiping_an_entry_keeps_only_its_public_fields() {
    let mut e = entry("w", "Bank");
    e.username = "alice".to_string();
    e.password = "hunter2".to_string();
    e.notes = "pin 1234".to_string();
    e.totp_secret = Some("JBSWY3DPEHPK3PXP".to_string());
    let created = e.created_at;
    e.wipe_secrets();
    assert!(e.password.is_empty() && e.notes.is_empty() && e.totp_secret.is_none());
    assert_eq!((e.id.as_str(), e.title.as_str(), e.username.as_str()), ("w", "Bank", "alice"));
    assert_eq!(e.created_at, created);
}

#[test]
fn locking_wipes_every_entry() {
    let mut v = Vault::new(PathBuf::from("/tmp/unused.secpass"), PASSWORD.to_string()).unwrap();
    let mut a = entry("a", "Alpha");
    a.password = "secret-a".to_string();
    a.totp_secret = Some("JBSWY3DPEHPK3PXP".to_string());
    let mut b = entry("b", "Beta");
    b.notes = "secret note".to_string();
    v.add_entry(a);
    v.add_entry(b);
    v.lock();
    assert_eq!(ids(&v), vec!["a", "b"]);
    assert_eq!(v.data.entries[0].title, "Alpha");
    for e in &v.data.entries {
        assert!(e.password.is_empty() && e.notes.is_empty() && e.totp_secret.is_none());
    }
}

#[test]
fn entry_operations() {
    let mut v = Vault::new(PathBuf::from("/tmp/unused.secpass"), PASSWORD.to_string()).unwrap();
    assert!(!v.is_modified);
    v.add_entry(entry("a", "Alpha"));
    v.add_entry(entry("b", "Beta"));
    v.add_entry(entry("a", "Alpha twin"));
    assert!(v.is_modified);
    assert_eq!(ids(&v), vec!["a", "b", "a"]);

    // Update replaces the first entry with that id only.
    v.mark_saved();
    v.update_entry(entry("a", "Alpha 2"));
    assert!(v.is_modified);
    assert_eq!(v.data.entries[0].title, "Alpha 2");
    assert_eq!(v.data.entries[2].title, "Alpha twin");

    // Updating an unknown id changes nothing.
    v.mark_saved();
    v.update_entry(entry("zzz", "Ghost"));
    assert!(!v.is_modified);
    assert_eq!(ids(&v), vec!["a", "b", "a"]);

    // Search keeps vault order.
    let found: Vec<&str> = v.search("ALPHA").iter().map(|e| e.title.as_str()).collect();
    assert_eq!(found, vec!["Alpha 2", "Alpha twin"]);
    assert_eq!(v.search("").len(), 3);

    // Delete removes every entry with the id; deleting again changes nothing.
    v.delete_entry("a");
    assert_eq!(ids(&v), vec!["b"]);
    v.delete_entry("a");
    assert_eq!(ids(&v), vec!["b"]);
    assert!(v.is_modified);
}

#[test]
fn sealed_content_reads_back() {
    let mut v = Vault::new(PathBuf::from("/tmp/unused.secpass"), PASSWORD.to_string()).unwrap();
    v.prepare_save();
    let data = br#"{"version":2,"entries":[]}"#;
    let content = v.sealed_content(data).unwrap();
    assert!(content.starts_with("SECPASS2\n"));
    assert!(content.ends_with('\n'));
    assert_eq!(Vault::unseal(&content, PASSWORD).unwrap(), data.to_vec());
    assert!(matches!(Vault::unseal(&content, "another long password"), Err(VaultError::WrongPassword)));
}

#[test]
fn sealed_content_with_given_salt_and_nonce_is_deterministic() {
    let v = Vault::new(PathBuf::from("/tmp/unused.secpass"), PASSWORD.to_string()).unwrap();
    let a = v.sealed_content_with(b"[]", &[1u8; 32], &[2u8; 12]).unwrap();
    let b = v.sealed_content_with(b"[]", &[1u8; 32], &[2u8; 12]).unwrap();
    assert_eq!(a, b);
    assert!(a.starts_with("SECPASS2\n") && a.ends_with('\n'));
    assert_eq!(Vault::unseal(&a, PASSWORD).unwrap(), b"[]".to_vec());
    assert!(matches!(
        v.sealed_content_with(b"[]", &[1u8; 31], &[2u8; 12]),
        Err(VaultError::Crypto(_))
    ));
}

#[test]
fn first_format_magic_is_still_read() {
    let v = Vault::new(PathBuf::from("/tmp/unused.secpass"), PASSWORD.to_string()).unwrap();
    let content = v.sealed_content(b"[]").unwrap();
    let old = content.replacen("SECPASS2", " SECPASS1 ", 1);
    assert_eq!(Vault::unseal(&old, PASSWORD).unwrap(), b"[]".to_vec());
}

#[test]
fn malformed_files_are_invalid_format() {
    assert!(matches!(Vault::unseal("", PASSWORD), Err(VaultError::InvalidFormat)));
    assert!(matches!(Vault::unseal("SECPASS2", PASSWORD), Err(VaultError::InvalidFormat)));
    assert!(matches!(Vault::unseal("NOTAVAULT\nAAAA\n", PASSWORD), Err(VaultError::InvalidFormat)));
    assert!(matches!(Vault::unseal("SECPASS2\n!!!\n", PASSWORD), Err(VaultError::InvalidFormat)));
}

#[test]
fn weak_password_cannot_create_or_replace() {
    assert!(matches!(
        Vault::new(PathBuf::from("/tmp/x"), "short".to_string()),
        Err(VaultError::WeakPassword(_))
    ));
    let mut v = Vault::new(PathBuf::from("/tmp/x"), PASSWORD.to_string()).unwrap();
    assert!(v.set_password("tiny".to_string()).is_err());
    let content = v.sealed_content(b"data").unwrap();
    assert_eq!(Vault::unseal(&content, PASSWORD).unwrap(), b"data".to_vec());
    v.set_password("a brand new passphrase".to_string()).unwrap();
    let content = v.sealed_content(b"data").unwrap();
    assert_eq!(Vault::unseal(&content, "a brand new passphrase").unwrap(), b"data".to_vec());
}

#[test]
fn older_data_is_upgraded_on_unlock() {
    for (before, after) in [(0u32, 2u32), (1, 2), (2, 2), (5, 5)] {
        let data = VaultData { version: before, entries: vec![entry("a", "A")] };
        let v = Vault::unlocked(PathBuf::from("/tmp/x"), PASSWORD.to_string(), data);
        assert_eq!(v.data.version, after);
        assert_eq!(v.data.entries.len(), 1);
        assert!(!v.is_modified);
    }
    assert_eq!(VaultData::new().version, 2);
    assert_eq!(VaultData::default().version, 0);
}

#[test]
fn vault_error_messages() {
    assert_eq!(VaultError::Io("disk".into()).message(), "File error: disk");
    assert_eq!(VaultError::Crypto("x".into()).message(), "Crypto error: x");
    assert_eq!(VaultError::WrongPassword.message(), "Wrong master password");
    assert_eq!(VaultError::WeakPassword("w".into()).message(), "w");
    assert_eq!(VaultError::InvalidFormat.message(), "Not a valid SecPass vault file");
    assert_eq!(VaultError::Corrupt("c".into()).message(), "Vault data is corrupted: c");
}

#[test]
fn vault_path_is_kept() {
    let v = Vault::new(PathBuf::from("/tmp/my.secpass"), PASSWORD.to_string()).unwrap();
    assert_eq!(v.vault_path(), &PathBuf::from("/tmp/my.secpass"));
}
