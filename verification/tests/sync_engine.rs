use tar_vault_sync::domain::{
    Binding, DockerInputKind, ErrorCategory, MissingTargetPolicy, Schedule, SecretPayload,
    SecretType, SourceRef, SourceVersion, StoreKind, SyncOutcome, TargetSpec,
};
use tar_vault_sync::engine::{
    acknowledge_restart, check_loaded_state, commit_version, enable_binding, invalidate_bindings,
    is_disabled, record_outcome, run_gate, run_result, sync_advance, sync_start, State, SyncEvent, SyncStep,
};
use tar_vault_sync::fakes::{FakeStore, FakeTarget, LocalTarget, SourceConnection};

fn binding() -> Binding {
    Binding {
        id: "b1".into(),
        source: SourceRef { store: StoreKind::Fake, connection: "fake".into(), entry: "item".into() },
        secret_type: SecretType::Text,
        target: TargetSpec::Fake { slot: "one".into() },
        missing_target: MissingTargetPolicy::Alert,
        schedule: Schedule { interval_seconds: 1 },
    }
}

/// One sync run: each step the state machine asks for is performed on the
/// store and target, and the outcome is recorded as the agent records it.
fn sync<S: SourceConnection, T: LocalTarget>(b: &Binding, state: &mut State, store: &mut S, target: &mut T) -> SyncOutcome {
    if is_disabled(state, &b.id) {
        return SyncOutcome::Disabled;
    }
    let mut step = sync_start();
    let mut payload: Option<SecretPayload> = None;
    loop {
        let event = match &step {
            SyncStep::Finish(outcome) => {
                let outcome = *outcome;
                *state = record_outcome(state, &b.id, outcome, 1);
                return outcome;
            }
            SyncStep::ValidateTarget => SyncEvent::Validated(target.validate(&b.target, &b.secret_type)),
            SyncStep::CheckTarget => SyncEvent::Presence { missing: target.is_missing(&b.target) },
            SyncStep::ReadVersion { .. } => SyncEvent::Version(store.get_version(&b.source)),
            SyncStep::ReadValue { version, .. } => match store.get_value(&b.source, version) {
                Ok(p) => {
                    let kind = p.secret_type();
                    payload = Some(p);
                    SyncEvent::Value(Ok(kind))
                }
                Err(e) => SyncEvent::Value(Err(e)),
            },
            SyncStep::Apply { .. } => {
                SyncEvent::Applied(target.apply_with_policy(&b.target, payload.as_ref().unwrap(), &b.missing_target))
            }
            SyncStep::Commit { version } => {
                *state = commit_version(state, &b.id, version);
                SyncEvent::Committed { persisted: true }
            }
        };
        step = sync_advance(b, state, step, event);
    }
}

fn applied(state: &State, id: &str) -> Option<String> {
    state.applied.iter().find(|(k, _)| k == id).map(|(_, v)| v.0.clone())
}

fn status(state: &State, id: &str) -> Option<SyncOutcome> {
    state.status.iter().find(|(k, _)| k == id).map(|(_, s)| s.outcome)
}

/// A file target whose presence the test controls.
struct FileStandIn {
    present: bool,
    writes: u32,
}

impl LocalTarget for FileStandIn {
    fn validate(&self, _: &TargetSpec, _: &SecretType) -> Result<(), ErrorCategory> {
        Ok(())
    }
    fn is_missing(&self, _: &TargetSpec) -> bool {
        !self.present
    }
    fn apply(&mut self, _: &TargetSpec, _: &SecretPayload) -> Result<(), ErrorCategory> {
        self.present = true;
        self.writes += 1;
        Ok(())
    }
    fn apply_with_policy(&mut self, s: &TargetSpec, p: &SecretPayload, _: &MissingTargetPolicy) -> Result<(), ErrorCategory> {
        self.apply(s, p)
    }
}

#[test]
fn metadata_first_and_failed_apply_retry() {
    let b = binding();
    let mut state = State::empty();
    let mut store = FakeStore { version: SourceVersion("v1".into()), reads: (0, 0) };
    let mut target = FakeTarget { applies: 0, fail: false };
    assert_eq!(sync(&b, &mut state, &mut store, &mut target), SyncOutcome::Applied);
    assert_eq!(sync(&b, &mut state, &mut store, &mut target), SyncOutcome::Unchanged);
    assert_eq!(store.reads, (2, 1));
    store.version = SourceVersion("v2".into());
    target.fail = true;
    assert_eq!(sync(&b, &mut state, &mut store, &mut target), SyncOutcome::Failed(ErrorCategory::Target));
    assert_eq!(applied(&state, "b1").as_deref(), Some("v1"));
    assert_eq!(status(&state, "b1"), Some(SyncOutcome::Failed(ErrorCategory::Target)));
    target.fail = false;
    assert_eq!(sync(&b, &mut state, &mut store, &mut target), SyncOutcome::Applied);
    assert_eq!(applied(&state, "b1").as_deref(), Some("v2"));
    assert_eq!(status(&state, "b1"), Some(SyncOutcome::Applied));
    assert!(check_loaded_state(&state).is_ok());
}

#[test]
fn docker_restart_notice_and_recreate_are_explicit() {
    let b = Binding {
        target: TargetSpec::DockerInput {
            path: "/w/app.env".into(),
            key: "TOKEN".into(),
            input: DockerInputKind::EnvFile { compose_path: "/w/compose.yaml".into(), service: "web".into() },
        },
        missing_target: MissingTargetPolicy::Recreate,
        ..binding()
    };
    let mut state = State::empty();
    let mut store = FakeStore { version: SourceVersion("v1".into()), reads: (0, 0) };
    let mut target = FileStandIn { present: false, writes: 0 };
    assert_eq!(sync(&b, &mut state, &mut store, &mut target), SyncOutcome::RestartRequired);
    assert!(target.present);
    assert_eq!(sync(&b, &mut state, &mut store, &mut target), SyncOutcome::RestartRequired);
    assert_eq!(store.reads, (2, 1));
    state = acknowledge_restart(&b, &state, 2).unwrap();
    assert_eq!(sync(&b, &mut state, &mut store, &mut target), SyncOutcome::Unchanged);
    target.present = false;
    assert_eq!(sync(&b, &mut state, &mut store, &mut target), SyncOutcome::RestartRequired);
    assert_eq!(store.reads, (4, 2));
    assert_eq!(target.writes, 2);
    assert_eq!(acknowledge_restart(&binding(), &state, 3).err(), Some(ErrorCategory::InvalidConfig));
}

#[test]
fn missing_target_disable_requires_explicit_enable() {
    let b = Binding {
        target: TargetSpec::WholeFile { path: "/w/target.txt".into() },
        missing_target: MissingTargetPolicy::Disable,
        ..binding()
    };
    let mut state = State::empty();
    let mut store = FakeStore { version: SourceVersion("v1".into()), reads: (0, 0) };
    let mut target = FileStandIn { present: false, writes: 0 };
    assert_eq!(sync(&b, &mut state, &mut store, &mut target), SyncOutcome::Disabled);
    assert!(state.disabled.iter().any(|d| d == "b1"));
    target.present = true;
    assert_eq!(sync(&b, &mut state, &mut store, &mut target), SyncOutcome::Disabled);
    assert_eq!(store.reads, (0, 0));
    state = enable_binding(&state, "b1").unwrap();
    assert_eq!(sync(&b, &mut state, &mut store, &mut target), SyncOutcome::Applied);
    assert_eq!(enable_binding(&state, "b1").err(), Some(ErrorCategory::InvalidConfig));
}

#[test]
fn missing_target_alert_fails_without_reading_the_source() {
    let b = Binding {
        target: TargetSpec::WholeFile { path: "/w/target.txt".into() },
        ..binding()
    };
    let mut state = State::empty();
    let mut store = FakeStore { version: SourceVersion("v1".into()), reads: (0, 0) };
    let mut target = FileStandIn { present: false, writes: 0 };
    assert_eq!(sync(&b, &mut state, &mut store, &mut target), SyncOutcome::Failed(ErrorCategory::Target));
    assert_eq!(store.reads, (0, 0));
}

#[test]
fn wrong_types_and_unsafe_versions_are_conflicts() {
    let mut state = State::empty();
    let mut b = binding();
    b.secret_type = SecretType::Json;
    let mut store = FakeStore { version: SourceVersion("v1".into()), reads: (0, 0) };
    let mut target = FakeTarget { applies: 0, fail: false };
    assert_eq!(sync(&b, &mut state, &mut store, &mut target), SyncOutcome::Failed(ErrorCategory::VersionConflict));
    assert_eq!(target.applies, 0);
    let b = binding();
    store.version = SourceVersion("bad version".into());
    assert_eq!(sync(&b, &mut state, &mut store, &mut target), SyncOutcome::Failed(ErrorCategory::VersionConflict));
    assert_eq!(store.reads, (2, 1));
}

#[test]
fn changed_bindings_lose_their_recorded_state() {
    let b = binding();
    let mut state = State::empty();
    let mut store = FakeStore { version: SourceVersion("v1".into()), reads: (0, 0) };
    let mut target = FakeTarget { applies: 0, fail: false };
    assert_eq!(sync(&b, &mut state, &mut store, &mut target), SyncOutcome::Applied);
    let state = invalidate_bindings(&state, &vec!["b1".to_string()]);
    assert_eq!(applied(&state, "b1"), None);
    assert_eq!(status(&state, "b1"), None);
    let mut bad = State::empty();
    bad.version = 2;
    assert_eq!(check_loaded_state(&bad), Err(ErrorCategory::State));
    let mut bad = State::empty();
    bad.disabled = vec!["a".into(), "a".into()];
    assert_eq!(check_loaded_state(&bad), Err(ErrorCategory::State));
}

#[test]
fn disabled_runs_stop_and_finished_runs_report_recording_failures() {
    let mut state = State::empty();
    assert_eq!(run_gate(&state, "b1"), None);
    state.disabled.push("b1".to_string());
    assert_eq!(run_gate(&state, "b1"), Some(SyncOutcome::Disabled));
    assert_eq!(run_gate(&state, "b2"), None);
    assert_eq!(run_result(SyncOutcome::Applied, true, true), SyncOutcome::Applied);
    assert_eq!(run_result(SyncOutcome::Applied, false, true), SyncOutcome::Failed(ErrorCategory::State));
    assert_eq!(run_result(SyncOutcome::Unchanged, true, false), SyncOutcome::Failed(ErrorCategory::State));
}
