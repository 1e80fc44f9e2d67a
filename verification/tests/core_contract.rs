use std::sync::Arc;
use tar_vault_sync::domain::{
    retry_delay, ErrorCategory, ModuleKind, ModuleSetting, SecretType, SyncOutcome,
};
use tar_vault_sync::registry::{FakeStoreScreen, FakeTargetScreen, ModuleRegistry, SettingsScreen};
use tar_vault_sync::scheduler::{interval_delay, next_retry};
use tar_vault_sync::vault::VaultStoreScreen;

struct DuplicateStoreScreen;

impl SettingsScreen for DuplicateStoreScreen {
    fn module_id(&self) -> &'static str {
        "fake_store"
    }
    fn kind(&self) -> ModuleKind {
        ModuleKind::Store
    }
    fn supported_types(&self) -> &'static [SecretType] {
        &[SecretType::Text]
    }
    fn render(&self) -> &'static str {
        "replacement"
    }
    fn configure(&self, _: &str) -> Result<ModuleSetting, ErrorCategory> {
        Err(ErrorCategory::InvalidConfig)
    }
}

#[test]
fn retry_and_screen_contract() {
    assert_eq!(retry_delay(1, 0).as_millis(), 2000);
    assert_eq!(retry_delay(1, 500).as_millis(), 2500);
    let mut r = ModuleRegistry::new();
    r.register(Arc::new(FakeStoreScreen)).unwrap();
    r.register(Arc::new(FakeTargetScreen)).unwrap();
    assert_eq!(
        r.mount("fake_store"),
        Some("Fake store settings: connection,entry")
    );
    assert_eq!(r.mount("fake_target"), Some("Fake target settings: slot"));
    assert!(matches!(
        r.configure("fake_store", "c,e"),
        Ok(ModuleSetting::Source(_))
    ));
    assert!(matches!(
        r.configure("fake_target", "slot"),
        Ok(ModuleSetting::Target(_))
    ));
    assert_eq!(r.capability("fake_store").unwrap().0, ModuleKind::Store);
    assert_eq!(r.capability("fake_target").unwrap().0, ModuleKind::Target);
    assert!(matches!(
        r.register(Arc::new(DuplicateStoreScreen)),
        Err(ErrorCategory::InvalidConfig)
    ));
    assert_eq!(
        r.mount("fake_store"),
        Some("Fake store settings: connection,entry")
    );
}

#[test]
fn retry_backoff_is_capped_with_bounded_jitter() {
    assert_eq!(retry_delay(0, 0).as_millis(), 1000);
    assert_eq!(retry_delay(3, 0).as_secs(), 8);
    assert_eq!(retry_delay(8, 0).as_secs(), 256);
    assert_eq!(retry_delay(9, 0).as_secs(), 256);
    assert_eq!(retry_delay(40, 1001).as_millis(), 256_000 + 1001 % 501);
    assert_eq!(retry_delay(2, 502).as_millis(), 4001);
}

#[test]
fn unknown_modules_have_no_screen() {
    let mut r = ModuleRegistry::new();
    r.register(Arc::new(FakeStoreScreen)).unwrap();
    assert_eq!(r.mount("missing"), None);
    assert!(r.capability("missing").is_none());
    assert!(matches!(
        r.configure("missing", "c,e"),
        Err(ErrorCategory::InvalidConfig)
    ));
    assert!(matches!(
        r.configure("fake_store", "no-comma"),
        Err(ErrorCategory::InvalidConfig)
    ));
    assert!(matches!(
        r.configure("fake_store", "bad/connection,e"),
        Err(ErrorCategory::InvalidConfig)
    ));
}

#[test]
fn vault_screen_configures_local_references() {
    let mut r = ModuleRegistry::new();
    r.register(Arc::new(VaultStoreScreen)).unwrap();
    assert_eq!(
        r.mount("local_vault"),
        Some("Local vault: create, unlock, lock, edit, backup, recover; configure connection,entry")
    );
    let (kind, types) = r.capability("local_vault").unwrap();
    assert_eq!(kind, ModuleKind::Store);
    assert_eq!(types.len(), 5);
    match r.configure("local_vault", "local,entry").unwrap() {
        ModuleSetting::Source(s) => {
            assert_eq!(s.connection, "local");
            assert_eq!(s.entry, "entry");
        }
        _ => panic!("expected a source"),
    }
    assert!(r.configure("local_vault", "local,bad entry").is_err());
}

#[test]
fn scheduled_waits_add_jitter_and_saturate() {
    assert_eq!(interval_delay(60, 7).as_secs(), 61);
    assert_eq!(interval_delay(60, 9).as_secs(), 60);
    assert_eq!(interval_delay(u64::MAX, 2).as_secs(), u64::MAX);
}

#[test]
fn only_transient_failures_are_retried_three_times() {
    let failed = SyncOutcome::Failed(ErrorCategory::Source);
    let (next, wait) = next_retry(failed, 0, 0).unwrap();
    assert_eq!(next, 1);
    assert_eq!(wait.as_millis(), 2000);
    assert!(next_retry(failed, 3, 0).is_none());
    assert!(next_retry(SyncOutcome::Failed(ErrorCategory::VersionConflict), 2, 0).is_some());
    assert!(next_retry(SyncOutcome::Failed(ErrorCategory::Target), 1, 0).is_some());
    assert!(next_retry(SyncOutcome::Failed(ErrorCategory::Unauthorized), 0, 0).is_none());
    assert!(next_retry(SyncOutcome::Failed(ErrorCategory::InvalidConfig), 0, 0).is_none());
    assert!(next_retry(SyncOutcome::Applied, 0, 0).is_none());
    let mut attempt = 0;
    let mut rounds = 0;
    while let Some((next, _)) = next_retry(failed, attempt, 0) {
        attempt = next;
        rounds += 1;
    }
    assert_eq!(rounds, 3);
}
