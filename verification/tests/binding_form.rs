use tar_vault_sync::domain::{
    Binding, Config, DockerInputKind, ErrorCategory, MissingTargetPolicy, Schedule, SecretType,
    SourceRef, StoreKind, StructuredFormat, SyncOutcome, TargetSpec,
};
use tar_vault_sync::form::{
    append_vault_binding, format_u64, outcome_label, parse_policy, parse_secret_type,
    parse_target_choice, parse_u64, policy_label, secret_type_label, target_label, BindingForm,
    TargetChoice,
};

#[test]
fn binding_form_emits_typed_targets_without_secret_values() {
    let mut form = BindingForm {
        id: "binding".into(),
        entry: "entry".into(),
        target_kind: TargetChoice::GitCredential,
        host: "example.invalid".into(),
        username: "user".into(),
        ..BindingForm::default()
    };
    let binding = form.binding().unwrap();
    assert!(matches!(binding.target, TargetSpec::GitCredential { .. }));
    let data = format!("{binding:?}");
    assert!(!data.contains("password"));
    form.target_kind = TargetChoice::DockerEnvFile;
    form.path = "/tmp/work/web.env".into();
    form.compose_path = "/tmp/work/compose.yaml".into();
    form.service = "web".into();
    form.key = "TOKEN".into();
    assert!(matches!(
        form.binding().unwrap().target,
        TargetSpec::DockerInput {
            input: DockerInputKind::EnvFile { .. },
            ..
        }
    ));
}

#[test]
fn azure_binding_form_round_trips() {
    let form = BindingForm {
        id: "azure-binding".into(),
        source_kind: StoreKind::Azure,
        connection: "test-vault".into(),
        entry: "test-secret".into(),
        path: "/work/authorized.txt".into(),
        interval: "86400".into(),
        ..BindingForm::default()
    };
    let binding = form.binding().unwrap();
    assert_eq!(binding.source.store, StoreKind::Azure);
    assert_eq!(binding.source.connection, "test-vault");
    assert_eq!(binding.schedule.interval_seconds, 86400);
    let edited = BindingForm::from_binding(&binding).binding().unwrap();
    assert_eq!(edited, binding);
}

#[test]
fn local_vault_forms_use_the_local_connection() {
    let form = BindingForm {
        id: "b".into(),
        connection: "ignored".into(),
        entry: "e".into(),
        target_kind: TargetChoice::Yaml,
        path: "/w/settings.yaml".into(),
        key: "/settings/token".into(),
        ..BindingForm::default()
    };
    let b = form.binding().unwrap();
    assert_eq!(b.source.connection, "local");
    assert_eq!(b.schedule.interval_seconds, 60);
    assert!(matches!(b.target, TargetSpec::StructuredField { format: StructuredFormat::Yaml, .. }));
    let back = BindingForm::from_binding(&b);
    assert_eq!(back.previous_id.as_deref(), Some("b"));
    assert_eq!(back.target_kind, TargetChoice::Yaml);
    assert_eq!(back.interval, "60");
    let bad = BindingForm { interval: "soon".into(), ..BindingForm::default() };
    assert_eq!(bad.binding().unwrap_err(), "Enter a valid check interval.");
}

#[test]
fn interval_text_follows_the_integer_rules() {
    assert_eq!(parse_u64("60"), Some(60));
    assert_eq!(parse_u64("+7"), Some(7));
    assert_eq!(parse_u64("007"), Some(7));
    assert_eq!(parse_u64("18446744073709551615"), Some(u64::MAX));
    assert_eq!(parse_u64("18446744073709551616"), None);
    assert_eq!(parse_u64(""), None);
    assert_eq!(parse_u64("+"), None);
    assert_eq!(parse_u64("-1"), None);
    assert_eq!(parse_u64(" 1"), None);
    assert_eq!(format_u64(0), "0");
    assert_eq!(format_u64(86400), "86400");
    assert_eq!(format_u64(u64::MAX), u64::MAX.to_string());
    for n in [0u64, 9, 10, 12345, u64::MAX] {
        assert_eq!(parse_u64(&format_u64(n)), Some(n));
    }
}

#[test]
fn labels_and_command_line_answers() {
    assert_eq!(TargetChoice::DotEnv.label(), ".env variable");
    assert_eq!(TargetChoice::all().len(), 8);
    assert_eq!(secret_type_label(&SecretType::PrivateKey), "Private key");
    assert_eq!(outcome_label(&SyncOutcome::Failed(ErrorCategory::Unauthorized)), "Access denied");
    assert_eq!(outcome_label(&SyncOutcome::Unchanged), "Up to date");
    assert_eq!(policy_label(&MissingTargetPolicy::Disable), "Disable binding");
    assert_eq!(target_label(&TargetSpec::Fake { slot: "s".into() }), "Fake");
    assert_eq!(parse_secret_type("private_key"), Some(SecretType::PrivateKey));
    assert_eq!(parse_secret_type("Text"), None);
    assert_eq!(parse_policy("recreate"), Some(MissingTargetPolicy::Recreate));
    assert_eq!(parse_policy("ignore"), None);
    assert_eq!(parse_target_choice("docker_env_file"), Some(TargetChoice::DockerEnvFile));
    assert_eq!(parse_target_choice("ftp"), None);
}

#[test]
fn command_line_bindings_join_local_vault_configurations_only() {
    let binding = Binding {
        id: "b".into(),
        source: SourceRef { store: StoreKind::LocalVault, connection: "local".into(), entry: "e".into() },
        secret_type: SecretType::Text,
        target: TargetSpec::WholeFile { path: "/w/f".into() },
        missing_target: MissingTargetPolicy::Alert,
        schedule: Schedule { interval_seconds: 60 },
    };
    let config = Config { version: 1, bindings: Vec::new() };
    let config = append_vault_binding(config, binding.clone()).unwrap();
    assert_eq!(config.bindings.len(), 1);
    let mut fake = binding.clone();
    fake.source.store = StoreKind::Fake;
    let mixed = Config { version: 1, bindings: vec![fake] };
    assert_eq!(append_vault_binding(mixed, binding).unwrap_err(), "existing config uses a different store");
}
