use tar_vault_sync::config::{
    lexically_scoped, paths_to_confirm, safe_git_path, safe_git_username, safe_host,
    valid_docker_key, valid_field_key, valid_scoped_path, validate_config,
};
use tar_vault_sync::domain::{
    safe_label, safe_version, Binding, Config, DockerInputKind, ErrorCategory,
    MissingTargetPolicy, Schedule, SecretType, SourceRef, StoreKind, StructuredFormat, TargetSpec,
};

fn fake_binding() -> Binding {
    Binding {
        id: "b1".into(),
        source: SourceRef {
            store: StoreKind::Fake,
            connection: "fake".into(),
            entry: "item".into(),
        },
        secret_type: SecretType::Text,
        target: TargetSpec::Fake { slot: "one".into() },
        missing_target: MissingTargetPolicy::Alert,
        schedule: Schedule { interval_seconds: 1 },
    }
}

fn file_binding(id: &str, path: &str) -> Binding {
    Binding {
        id: id.into(),
        source: SourceRef {
            store: StoreKind::LocalVault,
            connection: "local".into(),
            entry: "entry".into(),
        },
        secret_type: SecretType::Text,
        target: TargetSpec::WholeFile { path: path.into() },
        missing_target: MissingTargetPolicy::Alert,
        schedule: Schedule { interval_seconds: 60 },
    }
}

#[test]
fn rejects_secret_fields_and_bad_versions() {
    // An unknown field such as `credential` is refused when the JSON is
    // decoded into a `Config`, before these rules run.
    let root = "/";
    let none: Vec<String> = Vec::new();
    let valid = Config { version: 1, bindings: vec![fake_binding()] };
    assert!(validate_config(valid.clone(), root, &none).is_ok());
    let mut bad_id = valid.clone();
    bad_id.bindings[0].id = "credential\nvalue".into();
    assert!(validate_config(bad_id, root, &none).is_err());
    let mut future = valid;
    future.version = 2;
    assert!(validate_config(future, root, &none).is_err());
}

#[test]
fn valid_config_passes_and_bad_fields_fail() {
    let none: Vec<String> = Vec::new();
    let config = Config { version: 1, bindings: vec![fake_binding()] };
    assert!(validate_config(config, "/", &none).is_ok());
    let mut bad_id = fake_binding();
    bad_id.id = "credential\nvalue".into();
    let config = Config { version: 1, bindings: vec![bad_id] };
    assert_eq!(validate_config(config, "/", &none).unwrap_err(), ErrorCategory::InvalidConfig);
    let config = Config { version: 2, bindings: vec![fake_binding()] };
    assert!(validate_config(config, "/", &none).is_err());
    let mut slow = fake_binding();
    slow.schedule.interval_seconds = 86401;
    assert!(validate_config(Config { version: 1, bindings: vec![slow] }, "/", &none).is_err());
    let mut zero = fake_binding();
    zero.schedule.interval_seconds = 0;
    assert!(validate_config(Config { version: 1, bindings: vec![zero] }, "/", &none).is_err());
    let config = Config { version: 1, bindings: vec![fake_binding(), fake_binding()] };
    assert!(validate_config(config, "/", &none).is_err());
    let mut mismatched = fake_binding();
    mismatched.source.store = StoreKind::LocalVault;
    assert!(validate_config(Config { version: 1, bindings: vec![mismatched] }, "/", &none).is_err());
}

#[test]
fn target_paths_must_be_scoped_and_confirmed() {
    let confirmed = vec!["/work/app/token.txt".to_string()];
    let config = Config { version: 1, bindings: vec![file_binding("b1", "/work/app/token.txt")] };
    assert_eq!(paths_to_confirm(&config), confirmed);
    assert!(validate_config(config, "/work", &confirmed).is_ok());
    let config = Config { version: 1, bindings: vec![file_binding("b1", "/work/app/token.txt")] };
    assert!(validate_config(config, "/work", &Vec::new()).is_err());
    let config = Config { version: 1, bindings: vec![file_binding("b1", "/other/token.txt")] };
    assert!(validate_config(config, "/work", &vec!["/other/token.txt".to_string()]).is_err());
    assert!(lexically_scoped("/work/app/x", "/work"));
    assert!(lexically_scoped("/work//app/./x", "/work/"));
    assert!(!lexically_scoped("/work/../etc/passwd", "/work"));
    assert!(!lexically_scoped("/workspace/x", "/work"));
    assert!(!lexically_scoped("relative/x", "/work"));
    assert!(!lexically_scoped("/work/x", "work"));
    assert!(lexically_scoped("/anything", ""));
    assert!(valid_scoped_path("/work/x", "/work", &vec!["/work/x".to_string()]));
    assert!(!valid_scoped_path("/work/x", "/work", &vec!["/work/y".to_string()]));
}

#[test]
fn field_and_docker_keys() {
    assert!(valid_field_key("API_TOKEN.v-1", &StructuredFormat::DotEnv));
    assert!(!valid_field_key("", &StructuredFormat::Properties));
    assert!(!valid_field_key("A B", &StructuredFormat::DotEnv));
    assert!(valid_field_key("/nested/token", &StructuredFormat::Json));
    assert!(!valid_field_key("/", &StructuredFormat::Yaml));
    assert!(!valid_field_key("nested", &StructuredFormat::Json));
    assert!(!valid_field_key("/a\nb", &StructuredFormat::Yaml));
    let none: Vec<String> = Vec::new();
    assert!(valid_docker_key("web:TOKEN", &DockerInputKind::ComposeEnvironment, "/", &none));
    assert!(!valid_docker_key("web:TO-KEN", &DockerInputKind::ComposeEnvironment, "/", &none));
    assert!(!valid_docker_key("TOKEN", &DockerInputKind::ComposeEnvironment, "/", &none));
    let env_file = DockerInputKind::EnvFile {
        compose_path: "/work/compose.yaml".into(),
        service: "web".into(),
    };
    let confirmed = vec!["/work/compose.yaml".to_string()];
    assert!(valid_docker_key("TOKEN", &env_file, "/work", &confirmed));
    assert!(!valid_docker_key("TOKEN", &env_file, "/work", &none));
    assert!(!valid_docker_key("web:TOKEN", &env_file, "/work", &confirmed));
}

#[test]
fn git_credential_fields() {
    assert!(safe_host("example.test:8443"));
    assert!(!safe_host(""));
    assert!(!safe_host("exa mple.test"));
    assert!(!safe_host(&"a".repeat(254)));
    assert!(safe_git_path(None));
    assert!(safe_git_path(Some("org/repo.git")));
    assert!(!safe_git_path(Some("")));
    assert!(!safe_git_path(Some("/org/repo")));
    assert!(!safe_git_path(Some("org/")));
    assert!(!safe_git_path(Some("org//repo")));
    assert!(!safe_git_path(Some("org/../repo")));
    assert!(!safe_git_path(Some("./repo")));
    assert!(!safe_git_path(Some("org/repo?x")));
    assert!(safe_git_path(Some("org/.hidden/..x")));
    assert!(safe_git_username("user@example.test"));
    assert!(!safe_git_username("a=b"));
    assert!(!safe_git_username("a\\b"));
    assert!(!safe_git_username("a b"));
    assert!(!safe_git_username(""));
}

#[test]
fn labels_and_versions() {
    assert!(safe_label("b1-x_y.z"));
    assert!(!safe_label(""));
    assert!(!safe_label(&"a".repeat(65)));
    assert!(safe_label(&"a".repeat(64)));
    assert!(!safe_label("bad/id"));
    assert!(safe_version(&"a".repeat(128)));
    assert!(!safe_version(&"a".repeat(129)));
}

#[test]
fn azure_bindings_are_accepted() {
    let binding = Binding {
        id: "azure-binding".into(),
        source: SourceRef {
            store: StoreKind::Azure,
            connection: "test-vault".into(),
            entry: "test-secret".into(),
        },
        secret_type: SecretType::Text,
        target: TargetSpec::WholeFile { path: "/work/authorized.txt".into() },
        missing_target: MissingTargetPolicy::Alert,
        schedule: Schedule { interval_seconds: 86400 },
    };
    let confirmed = vec!["/work/authorized.txt".to_string()];
    assert!(validate_config(Config { version: 1, bindings: vec![binding] }, "/work", &confirmed).is_ok());
}

#[test]
fn azure_bindings_need_a_valid_key_vault_source() {
    let none: Vec<String> = vec!["/tmp/out.txt".to_string()];
    let mut azure = file_binding("azure", "/tmp/out.txt");
    azure.source = SourceRef { store: StoreKind::Azure, connection: "team-vault".into(), entry: "db-password".into() };
    assert!(validate_config(Config { version: 1, bindings: vec![azure.clone()] }, "/", &none).is_ok());
    let mut short = azure.clone();
    short.source.connection = "ab".into();
    assert_eq!(
        validate_config(Config { version: 1, bindings: vec![short] }, "/", &none).unwrap_err(),
        ErrorCategory::InvalidConfig
    );
    let mut bad_entry = azure;
    bad_entry.source.entry = "db_password".into();
    assert!(validate_config(Config { version: 1, bindings: vec![bad_entry] }, "/", &none).is_err());
}
