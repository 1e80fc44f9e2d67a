use tar_vault_sync::config::validate_config;
use tar_vault_sync::desktop::{
    changed_bindings, check_no_pending_sync, check_unchanged_on_disk, desktop_bindings_allowed,
    same_binding_fields, SaveRefusal,
};
use tar_vault_sync::domain::{
    Binding, Config, MissingTargetPolicy, Schedule, SecretType, SourceRef, StoreKind, TargetSpec,
};
use tar_vault_sync::form::BindingForm;

/// The checks the window applies before it saves: the configuration rules
/// and the sources it may bind.
fn saveable(config: &Config, root: &str, confirmed: &Vec<String>) -> bool {
    validate_config(config.clone(), root, confirmed).is_ok() && desktop_bindings_allowed(config)
}

#[test]
fn azure_binding_can_be_saved_and_edited_without_a_local_vault() {
    let root = "/work";
    let confirmed = vec!["/work/authorized.txt".to_string()];
    let form = BindingForm {
        id: "azure-binding".into(),
        source_kind: StoreKind::Azure,
        connection: "test-vault".into(),
        entry: "test-secret".into(),
        path: "/work/authorized.txt".into(),
        interval: "86400".into(),
        ..BindingForm::default()
    };
    let binding = form.binding().unwrap();
    let config = Config { version: 1, bindings: vec![binding] };
    assert!(saveable(&config, root, &confirmed));
    let binding = &config.bindings[0];
    assert_eq!(binding.source.store, StoreKind::Azure);
    assert_eq!(binding.source.connection, "test-vault");
    let edited = BindingForm::from_binding(binding).binding().unwrap();
    assert_eq!(&edited, binding);
    let mut invalid = config.clone();
    invalid.bindings[0].secret_type = SecretType::Binary;
    assert!(!saveable(&invalid, root, &confirmed));
    let mut invalid = config.clone();
    invalid.bindings[0].source.connection = "test.vault".into();
    assert!(!saveable(&invalid, root, &confirmed));
}

fn local(id: &str, slot: &str) -> Binding {
    Binding {
        id: id.into(),
        source: SourceRef {
            store: StoreKind::LocalVault,
            connection: "local".into(),
            entry: "entry".into(),
        },
        secret_type: SecretType::Text,
        target: TargetSpec::WholeFile { path: slot.into() },
        missing_target: MissingTargetPolicy::Alert,
        schedule: Schedule { interval_seconds: 60 },
    }
}

#[test]
fn local_bindings_need_the_local_connection() {
    let ok = Config { version: 1, bindings: vec![local("a", "/w/a")] };
    assert!(desktop_bindings_allowed(&ok));
    let mut other = ok.clone();
    other.bindings[0].source.connection = "team".into();
    assert!(!desktop_bindings_allowed(&other));
    let mut fake = ok.clone();
    fake.bindings[0].source.store = StoreKind::Fake;
    assert!(!desktop_bindings_allowed(&fake));
}

#[test]
fn changed_bindings_lists_added_removed_and_altered_ids_once() {
    let before = Config { version: 1, bindings: vec![local("a", "/w/a"), local("b", "/w/b"), local("c", "/w/c")] };
    let mut altered = local("b", "/w/b");
    altered.schedule.interval_seconds = 120;
    let after = Config { version: 1, bindings: vec![local("a", "/w/a"), altered, local("d", "/w/d")] };
    let mut changed = changed_bindings(&before, &after);
    changed.sort();
    assert_eq!(changed, vec!["b".to_string(), "c".to_string(), "d".to_string()]);
    assert!(changed_bindings(&before, &before).is_empty());
    assert!(same_binding_fields(&before.bindings[0], &after.bindings[0]));
    assert!(!same_binding_fields(&before.bindings[1], &after.bindings[1]));
}

#[test]
fn saves_wait_for_syncs_and_refuse_files_changed_elsewhere() {
    assert_eq!(check_no_pending_sync(false), Ok(()));
    assert_eq!(check_no_pending_sync(true), Err(SaveRefusal::SyncPending));
    assert_eq!(
        SaveRefusal::SyncPending.message(),
        "Wait for the current sync to finish before changing bindings."
    );
    assert_eq!(check_unchanged_on_disk(None, None), Ok(()));
    assert_eq!(check_unchanged_on_disk(Some(b"{}"), Some(b"{}")), Ok(()));
    assert_eq!(check_unchanged_on_disk(Some(b"{}"), None), Err(SaveRefusal::ChangedElsewhere));
    assert_eq!(check_unchanged_on_disk(Some(b"{ }"), Some(b"{}")), Err(SaveRefusal::ChangedElsewhere));
    assert_eq!(
        SaveRefusal::ChangedElsewhere.message(),
        "Configuration changed in another process. Reopen this window before saving."
    );
}
