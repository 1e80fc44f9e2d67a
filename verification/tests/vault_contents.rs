use tar_vault_sync::domain::{SecretPayload, SecretType, SourceVersion};
use tar_vault_sync::vault::{
    check_frame, expire, frame_vault, hex_version, lock, manifest_aad, payload_aad, unlock_manifest, Envelope,
    VaultContents, VaultError,
};

#[test]
fn put_get_rotation_and_removal() {
    let mut vault = VaultContents::create("test-only-passphrase").unwrap();
    let payload = SecretPayload::new(vec![0, 1, 2, 255], SecretType::Binary);
    let first = vault.put("sample", &payload).unwrap();
    assert_eq!(first.0.len(), 32);
    let read = vault.get_value("sample", &first).unwrap();
    assert_eq!(read.as_bytes(), payload.as_bytes());
    assert_eq!(read.secret_type(), SecretType::Binary);
    assert_eq!(vault.get_version("sample").unwrap(), first);
    let next = vault.put("sample", &payload).unwrap();
    assert_ne!(first, next);
    assert!(matches!(
        vault.get_value("sample", &first),
        Err(VaultError::VersionConflict)
    ));
    assert_eq!(vault.get_value("sample", &next).unwrap().as_bytes(), payload.as_bytes());
    assert_eq!(vault.sealed().len(), 1);
    assert!(vault.verify_all().is_ok());
    let other = vault
        .put("other", &SecretPayload::new(b"text".to_vec(), SecretType::Text))
        .unwrap();
    let listed = vault.entries();
    assert_eq!(listed.len(), 2);
    assert!(listed.iter().any(|e| e.id == "sample" && e.version == next.0));
    assert!(listed.iter().any(|e| e.id == "other" && e.kind == SecretType::Text));
    vault.remove("sample").unwrap();
    assert!(matches!(vault.get_version("sample"), Err(VaultError::MissingEntry)));
    assert!(matches!(
        vault.get_value("sample", &next),
        Err(VaultError::MissingEntry)
    ));
    assert!(matches!(vault.remove("sample"), Err(VaultError::MissingEntry)));
    assert_eq!(vault.get_value("other", &other).unwrap().as_bytes(), b"text");
    assert_eq!(vault.sealed().len(), 1);
}

#[test]
fn invalid_entries_are_refused_without_change() {
    let mut vault = VaultContents::create("test-only-passphrase").unwrap();
    assert_eq!(
        vault
            .put("bad/id", &SecretPayload::new(vec![7], SecretType::Text))
            .unwrap_err(),
        VaultError::InvalidInput
    );
    let big = SecretPayload::new(vec![0; 8 * 1024 * 1024 + 1], SecretType::Binary);
    assert_eq!(vault.put("big", &big).unwrap_err(), VaultError::InvalidInput);
    assert!(vault.entries().is_empty());
    assert!(vault.sealed().is_empty());
    assert!(matches!(
        vault.get_value("missing", &SourceVersion("v".into())),
        Err(VaultError::MissingEntry)
    ));
}

#[test]
fn short_and_long_passphrases_are_refused() {
    assert!(matches!(
        VaultContents::create("short"),
        Err(VaultError::InvalidInput)
    ));
    let long = "x".repeat(4097);
    assert!(matches!(
        VaultContents::create(&long),
        Err(VaultError::InvalidInput)
    ));
}

#[test]
fn stored_manifest_opens_only_with_its_passphrase_and_untouched_ciphertext() {
    let vault = VaultContents::create("test-only-passphrase").unwrap();
    let (nonce, ciphertext) = vault.seal_manifest(b"{\"version\":2}").unwrap();
    assert_eq!(ciphertext.len(), 13 + 16);
    let envelope = Envelope {
        version: 2,
        salt: vault.salt(),
        manifest_nonce: nonce,
        manifest_ciphertext: ciphertext.clone(),
        sealed: Vec::new(),
    };
    let (_, plaintext) = unlock_manifest(&envelope, "test-only-passphrase").unwrap();
    assert_eq!(plaintext, b"{\"version\":2}");
    assert!(matches!(
        unlock_manifest(&envelope, "wrong-passphrase"),
        Err(VaultError::AuthenticationOrCorrupt)
    ));
    let mut damaged = ciphertext;
    damaged[0] ^= 1;
    let tampered = Envelope {
        version: 2,
        salt: vault.salt(),
        manifest_nonce: nonce,
        manifest_ciphertext: damaged,
        sealed: Vec::new(),
    };
    assert_eq!(vault.reopen_manifest(&tampered).unwrap_err(), VaultError::AuthenticationOrCorrupt);
    let future = Envelope {
        version: 3,
        salt: vault.salt(),
        manifest_nonce: nonce,
        manifest_ciphertext: vec![0; 16],
        sealed: Vec::new(),
    };
    assert!(matches!(unlock_manifest(&future, "test-only-passphrase"), Err(VaultError::Corrupt)));
}

#[test]
fn framing_and_associated_data_are_exact() {
    assert_eq!(hex_version(&[0x00, 0x7f, 0xab, 0xff]), "007fabff");
    assert_eq!(hex_version(&[]), "");
    let salt = [7u8; 16];
    let aad = manifest_aad(&salt);
    assert_eq!(&aad[..8], b"TVAULT02");
    assert_eq!(&aad[8..], &salt);
    assert_eq!(payload_aad("entry", "v1"), b"TVAULT02entry\0v1".to_vec());
    let framed = frame_vault(b"{}").unwrap();
    assert_eq!(framed, b"TVAULT02{}".to_vec());
    assert!(check_frame(&framed).is_ok());
    assert!(matches!(check_frame(b"TVAULT02"), Err(VaultError::Corrupt)));
    assert!(matches!(check_frame(b"TVAULT01{}"), Err(VaultError::Corrupt)));
    let oversized = vec![b'x'; 16 * 1024 * 1024 - 7];
    assert!(matches!(frame_vault(&oversized), Err(VaultError::InvalidInput)));
    assert!(frame_vault(&oversized[1..]).is_ok());
}

#[test]
fn error_messages_never_name_secrets() {
    assert_eq!(VaultError::VersionConflict.message(), "vault entry version changed");
    assert_eq!(VaultError::AuthenticationOrCorrupt.message(), "vault unlock failed or payload corrupt");
    assert_eq!(VaultError::Locked.message(), "vault locked");
}

#[test]
fn metadata_check_observes_external_rotation() {
    let mut first = VaultContents::create("test-only-passphrase").unwrap();
    let payload = SecretPayload::new(vec![1, 2, 3], SecretType::Binary);
    let original = first.put("sample", &payload).unwrap();
    // A second writer opens the same file and rotates the entry.
    let salt = first.salt();
    let key = tar_vault_sync::vault::derive_key("test-only-passphrase", &salt).unwrap();
    let mut second =
        VaultContents::assemble(salt, key, first.manifest().clone(), first.sealed().clone()).unwrap();
    let rotated = second.put("sample", &payload).unwrap();
    // The first handle re-reads the file before answering.
    first.replace(second.manifest().clone(), second.sealed().clone()).unwrap();
    assert_eq!(first.get_version("sample").unwrap(), rotated);
    assert!(matches!(
        first.get_value("sample", &original),
        Err(VaultError::VersionConflict)
    ));
}

#[test]
fn idle_vault_locks_and_stays_locked() {
    let mut vault = VaultContents::create("test-only-passphrase").unwrap();
    let p = SecretPayload::new(vec![1, 2, 3], SecretType::Binary);
    vault.put("entry", &p).unwrap();
    let mut open = Some(vault);
    assert_eq!(expire(&mut open, 899), Ok(()));
    assert!(open.is_some());
    assert_eq!(expire(&mut open, 900), Err(VaultError::Locked));
    assert!(open.is_none());
    assert_eq!(expire(&mut open, 0), Err(VaultError::Locked));
    let mut other = Some(VaultContents::create("test-only-passphrase").unwrap());
    lock(&mut other);
    assert!(other.is_none());
    let mut wiped = VaultContents::create("test-only-passphrase").unwrap();
    wiped.put("entry", &p).unwrap();
    wiped.wipe();
    assert!(wiped.entries().is_empty());
}

#[test]
fn first_write_to_an_empty_vault_succeeds() {
    let mut vault = VaultContents::create("test-only-passphrase").unwrap();
    let p = SecretPayload::new(vec![0, 1, 2, 255], SecretType::Binary);
    let first = vault.put("sample", &p).unwrap();
    let next = vault.put("sample", &p).unwrap();
    assert_ne!(first, next);
    assert_eq!(vault.get_value("sample", &next).unwrap().as_bytes(), &[0, 1, 2, 255]);
    assert!(matches!(vault.get_value("sample", &first), Err(VaultError::VersionConflict)));
}
