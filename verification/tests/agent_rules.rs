use tar_vault_sync::catalogue::{
    check_catalogue_size, check_catalogue_unchanged, Catalogue, Connection, Location, MAX_CATALOGUE_BYTES,
};
use tar_vault_sync::cloud::{Provider, RemoteRef};
use tar_vault_sync::domain::{
    ErrorCategory, SecretPayload, SecretType, SourceRef, SourceVersion, StoreKind, TargetSpec,
};
use tar_vault_sync::fakes::{FakeStore, FakeTarget, LocalTarget, SourceConnection};
use tar_vault_sync::ipc::{decide, event_log_full, events_window, Action, Request, EVENT_LOG_LIMIT};
use tar_vault_sync::vault::{VaultContents, VaultError};

#[test]
fn requests_need_the_agent_token() {
    let status = Request::Status { token: "t0k".into() };
    assert_eq!(decide(&status, "t0k"), Action::ReportStatus);
    assert_eq!(decide(&status, "other"), Action::Refuse);
    let events = Request::Events { token: "t0k".into() };
    assert_eq!(decide(&events, "t0k"), Action::ReportEvents);
    let trigger = Request::Trigger { token: "t0k".into(), binding_id: "b1".into() };
    assert_eq!(decide(&trigger, "t0k"), Action::Sync("b1".into()));
    assert_eq!(decide(&trigger, ""), Action::Refuse);
}

#[test]
fn event_windows_and_rotation() {
    assert_eq!(events_window(0), 0);
    assert_eq!(events_window(100), 0);
    assert_eq!(events_window(250), 150);
    assert!(!event_log_full(0, 10));
    assert!(!event_log_full(EVENT_LOG_LIMIT - 11, 10));
    assert!(event_log_full(EVENT_LOG_LIMIT - 10, 10));
    assert!(event_log_full(EVENT_LOG_LIMIT + 5, 0));
}

fn file(id: &str, path: &str) -> Connection {
    Connection { id: id.into(), location: Location::FileSystem { path: path.into() } }
}

#[test]
fn catalogue_routes_connections_and_refuses_aliases() {
    let mut cat = Catalogue::new();
    cat.add(file("first", "/data/first.bin"), true).unwrap();
    cat.add(file("second", "/data/second.bin"), true).unwrap();
    assert_eq!(cat.add(file("first", "/data/again.bin"), true), Err(ErrorCategory::InvalidConfig));
    assert_eq!(cat.add(file("local", "/data/local.bin"), true), Err(ErrorCategory::InvalidConfig));
    assert_eq!(cat.add(file("relative", "vault.bin"), true), Err(ErrorCategory::InvalidConfig));
    assert_eq!(cat.add(file("missing", "/data/missing.bin"), false), Err(ErrorCategory::InvalidConfig));
    let alias = Connection {
        id: "alias".into(),
        location: Location::AzureKeyVault { vault_name: "different-vault".into() },
    };
    assert_eq!(cat.add(alias, true), Err(ErrorCategory::InvalidConfig));
    let azure = Connection {
        id: "team-vault".into(),
        location: Location::AzureKeyVault { vault_name: "team-vault".into() },
    };
    cat.add(azure, true).unwrap();
    let reference = SourceRef { store: StoreKind::LocalVault, connection: "first".into(), entry: "entry".into() };
    let routed = cat.routed(&reference).unwrap();
    assert_eq!(routed, reference);
    let mut wrong = reference.clone();
    wrong.store = StoreKind::Azure;
    assert_eq!(cat.routed(&wrong), Err(ErrorCategory::InvalidConfig));
    let to_azure = SourceRef { store: StoreKind::Azure, connection: "team-vault".into(), entry: "s".into() };
    assert_eq!(cat.routed(&to_azure).unwrap().connection, "team-vault");
    cat.remove("first").unwrap();
    assert_eq!(cat.remove("first"), Err(ErrorCategory::InvalidConfig));
    let drive = Connection {
        id: "shared".into(),
        location: Location::Drive {
            remote: RemoteRef { provider: Provider::OneDrive, credential_id: "cred".into(), file_id: "file".into() },
        },
    };
    cat.add(drive, true).unwrap();
    let on_drive = SourceRef { store: StoreKind::OneDrive, connection: "shared".into(), entry: "e".into() };
    assert_eq!(cat.routed(&on_drive).unwrap().store, StoreKind::LocalVault);
    let renewed = Connection {
        id: "shared".into(),
        location: Location::Drive {
            remote: RemoteRef { provider: Provider::OneDrive, credential_id: "cred2".into(), file_id: "file".into() },
        },
    };
    assert!(cat.reconnect(renewed, true).is_ok());
    let moved = Connection {
        id: "shared".into(),
        location: Location::Drive {
            remote: RemoteRef { provider: Provider::OneDrive, credential_id: "cred2".into(), file_id: "other".into() },
        },
    };
    assert_eq!(cat.reconnect(moved, true), Err(ErrorCategory::InvalidConfig));
}

#[test]
fn catalogue_files_are_checked_when_opened() {
    let ok = Catalogue::open(1, vec![file("a", "/d/a.bin")], &vec![true]);
    assert!(ok.is_ok());
    assert!(Catalogue::open(2, vec![], &vec![]).is_err());
    assert!(Catalogue::open(1, vec![file("a", "/d/a.bin"), file("a", "/d/b.bin")], &vec![true, true]).is_err());
}

#[test]
fn batch_imports_are_all_or_nothing() {
    let mut vault = VaultContents::create("test-only-passphrase").unwrap();
    vault.put("existing", &SecretPayload::new(b"x".to_vec(), SecretType::Text)).unwrap();
    let batch = vec![
        ("fresh".to_string(), SecretPayload::new(b"a".to_vec(), SecretType::Text)),
        ("existing".to_string(), SecretPayload::new(b"b".to_vec(), SecretType::Text)),
    ];
    assert!(matches!(vault.import_new(&batch), Err(VaultError::AlreadyExists)));
    assert!(matches!(vault.get_version("fresh"), Err(VaultError::MissingEntry)));
    let twice = vec![
        ("dup".to_string(), SecretPayload::new(b"a".to_vec(), SecretType::Text)),
        ("dup".to_string(), SecretPayload::new(b"b".to_vec(), SecretType::Text)),
    ];
    assert!(matches!(vault.import_new(&twice), Err(VaultError::AlreadyExists)));
    let bad = vec![("bad/id".to_string(), SecretPayload::new(b"a".to_vec(), SecretType::Text))];
    assert!(matches!(vault.import_new(&bad), Err(VaultError::InvalidInput)));
    let good = vec![
        ("one".to_string(), SecretPayload::new(b"1".to_vec(), SecretType::Text)),
        ("two".to_string(), SecretPayload::new(b"2".to_vec(), SecretType::Text)),
    ];
    let versions = vault.import_new(&good).unwrap();
    assert_eq!(versions.len(), 2);
    assert_eq!(vault.get_value("two", &versions[1]).unwrap().as_bytes(), b"2");
    assert_eq!(vault.entries().len(), 3);
}

#[test]
fn fake_store_and_target_count_what_they_serve() {
    let mut store = FakeStore { version: SourceVersion("v1".into()), reads: (0, 0) };
    let source = SourceRef { store: StoreKind::Fake, connection: "c".into(), entry: "e".into() };
    let v = store.get_version(&source).unwrap();
    assert_eq!(v, SourceVersion("v1".into()));
    assert_eq!(store.get_value(&source, &v).unwrap().as_bytes(), b"FAKE_PAYLOAD_PROBE");
    assert_eq!(
        store.get_value(&source, &SourceVersion("v0".into())).err(),
        Some(ErrorCategory::VersionConflict)
    );
    assert_eq!(store.reads, (1, 1));
    let mut target = FakeTarget { applies: 0, fail: false };
    let slot = TargetSpec::Fake { slot: "one".into() };
    assert!(target.validate(&slot, &SecretType::Text).is_ok());
    assert_eq!(
        target.validate(&TargetSpec::WholeFile { path: "/x".into() }, &SecretType::Text),
        Err(ErrorCategory::InvalidConfig)
    );
    assert!(!target.is_missing(&slot));
    let payload = SecretPayload::new(b"x".to_vec(), SecretType::Text);
    target.apply(&slot, &payload).unwrap();
    target.fail = true;
    assert_eq!(target.apply(&slot, &payload), Err(ErrorCategory::Target));
    assert_eq!(target.applies, 1);
}

#[test]
fn catalogue_checks_binding_sources_after_routing() {
    let mut cat = Catalogue::new();
    cat.add(file("first", "/data/first.bin"), true).unwrap();
    let azure = Connection {
        id: "team-vault".into(),
        location: Location::AzureKeyVault { vault_name: "team-vault".into() },
    };
    cat.add(azure, true).unwrap();
    let drive = Connection {
        id: "shared".into(),
        location: Location::Drive {
            remote: RemoteRef { provider: Provider::GoogleDrive, credential_id: "cred".into(), file_id: "file".into() },
        },
    };
    cat.add(drive, true).unwrap();
    assert_eq!(cat.len(), 3);
    assert_eq!(cat.get(1).id, "team-vault");
    assert!(cat.has_file("local"));
    assert!(cat.has_file("first"));
    assert!(cat.has_file("shared"));
    assert!(!cat.has_file("team-vault"));
    assert!(!cat.has_file("unknown"));
    let source = |store: StoreKind, connection: &str, entry: &str| SourceRef {
        store,
        connection: connection.into(),
        entry: entry.into(),
    };
    assert_eq!(cat.validate_ref(&source(StoreKind::LocalVault, "local", "e")), Ok(()));
    assert_eq!(cat.validate_ref(&source(StoreKind::LocalVault, "first", "e")), Ok(()));
    assert_eq!(cat.validate_ref(&source(StoreKind::GoogleDrive, "shared", "e")), Ok(()));
    assert_eq!(cat.validate_ref(&source(StoreKind::Azure, "team-vault", "db-password")), Ok(()));
    assert_eq!(cat.validate_ref(&source(StoreKind::Azure, "other-vault", "db-password")), Ok(()));
    assert_eq!(
        cat.validate_ref(&source(StoreKind::Azure, "team-vault", "bad_name")),
        Err(ErrorCategory::InvalidConfig)
    );
    assert_eq!(
        cat.validate_ref(&source(StoreKind::LocalVault, "unknown", "e")),
        Err(ErrorCategory::InvalidConfig)
    );
    assert_eq!(
        cat.validate_ref(&source(StoreKind::OneDrive, "shared", "e")),
        Err(ErrorCategory::InvalidConfig)
    );
    assert_eq!(cat.validate_ref(&source(StoreKind::Fake, "fake", "e")), Err(ErrorCategory::InvalidConfig));
}

#[test]
fn stale_catalogue_is_not_overwritten_and_size_is_bounded() {
    assert_eq!(check_catalogue_unchanged(None, None), Ok(()));
    assert_eq!(check_catalogue_unchanged(Some(b"a"), Some(b"a")), Ok(()));
    assert_eq!(check_catalogue_unchanged(Some(b"b"), Some(b"a")), Err(ErrorCategory::VersionConflict));
    assert_eq!(check_catalogue_unchanged(Some(b"a"), None), Err(ErrorCategory::VersionConflict));
    assert_eq!(check_catalogue_size(MAX_CATALOGUE_BYTES), Ok(()));
    assert_eq!(check_catalogue_size(MAX_CATALOGUE_BYTES + 1), Err(ErrorCategory::InvalidConfig));
}
