use tar_vault_sync::compose::{
    env_file_candidates, env_file_paths, env_file_setting, single_listing, EnvFileItem,
    EnvFileSetting,
};
use tar_vault_sync::domain::{
    DockerInputKind, ErrorCategory, MissingTargetPolicy, SecretPayload, SecretType,
    StructuredFormat, TargetSpec,
};
use tar_vault_sync::targets::{render_target, ParentLookup, ProductionTarget};

fn probe() -> SecretPayload {
    SecretPayload::new(b"probe-value".to_vec(), SecretType::Text)
}

fn render(spec: &TargetSpec, prior: &[u8], payload: &SecretPayload) -> Result<Vec<u8>, ErrorCategory> {
    render_target(spec, Some(prior), payload, MissingTargetPolicy::Alert)
}

#[test]
fn file_renderers_preserve_unrelated_content_and_failure_preserves_target() {
    let spec = TargetSpec::StructuredField {
        path: "/w/sample.env".into(),
        key: "TOKEN".into(),
        format: StructuredFormat::DotEnv,
    };
    let prior = b"# kept\r\nTOKEN=old\r\nOTHER=1\r\n";
    let data = String::from_utf8(render(&spec, prior, &probe()).unwrap()).unwrap();
    assert!(data.contains("# kept\r\n"));
    assert!(data.contains("OTHER=1\r\n"));
    assert!(data.contains("TOKEN='probe-value'\r\n"));
    let bad = SecretPayload::new(b"line\nbreak".to_vec(), SecretType::Text);
    assert_eq!(render(&spec, prior, &bad), Err(ErrorCategory::Target));

    let spec = TargetSpec::StructuredField {
        path: "/w/sample.json".into(),
        key: "/nested/token".into(),
        format: StructuredFormat::Json,
    };
    let out = render(&spec, br#"{"nested":{"token":"old"},"other":7}"#, &probe()).unwrap();
    let value: serde_json::Value = serde_json::from_slice(&out).unwrap();
    assert_eq!(value["other"], 7);
    assert_eq!(value["nested"]["token"], "probe-value");

    let spec = TargetSpec::StructuredField {
        path: "/w/app.properties".into(),
        key: "TOKEN".into(),
        format: StructuredFormat::Properties,
    };
    let data = String::from_utf8(render(&spec, b"# kept\nTOKEN: old\nOTHER=1\n", &probe()).unwrap()).unwrap();
    assert!(data.contains("# kept\n"));
    assert!(data.contains("TOKEN=probe-value\n"));
    assert!(data.contains("OTHER=1\n"));

    let spec = TargetSpec::WholeFile { path: "/w/binary.bin".into() };
    let binary = SecretPayload::new(vec![0, 255, 1], SecretType::Binary);
    let out = render_target(&spec, None, &binary, MissingTargetPolicy::Recreate).unwrap();
    assert_eq!(out, binary.as_bytes());
    assert_eq!(
        render_target(&spec, None, &binary, MissingTargetPolicy::Alert),
        Err(ErrorCategory::Target)
    );
}

#[test]
fn yaml_and_docker_keep_other_fields() {
    let spec = TargetSpec::StructuredField {
        path: "/w/sample.yaml".into(),
        key: "/settings/token".into(),
        format: StructuredFormat::Yaml,
    };
    let updated = String::from_utf8(
        render(&spec, b"# keep\nsettings:\n  token: old\n  other: yes\n", &probe()).unwrap(),
    )
    .unwrap();
    assert!(updated.contains("# keep"));
    assert!(updated.contains("other: yes"));
    assert!(updated.contains("probe-value"));

    let spec = TargetSpec::DockerInput {
        path: "/w/compose.yaml".into(),
        key: "web:TOKEN".into(),
        input: DockerInputKind::ComposeEnvironment,
    };
    let dollar = SecretPayload::new(b"$PROBE".to_vec(), SecretType::Text);
    let updated = String::from_utf8(
        render(
            &spec,
            b"services:\n  web:\n    environment:\n      TOKEN: old\n      OTHER: keep\n",
            &dollar,
        )
        .unwrap(),
    )
    .unwrap();
    assert!(updated.contains("$$PROBE"));
    assert!(updated.contains("OTHER: keep"));

    let compose = "services:\n  web:\n    env_file:\n      - web.env\n      - other.env\n";
    let setting = env_file_setting(compose, "web").unwrap();
    let candidates = env_file_candidates(&setting).unwrap();
    assert_eq!(candidates, vec!["web.env".to_string(), "other.env".to_string()]);
    let listed = env_file_paths("/w/compose.yaml", &candidates).unwrap();
    assert_eq!(listed, vec!["/w/web.env".to_string(), "/w/other.env".to_string()]);
    assert!(single_listing(&listed, "/w/web.env").is_ok());
    let spec = TargetSpec::DockerInput {
        path: "/w/web.env".into(),
        key: "TOKEN".into(),
        input: DockerInputKind::EnvFile { compose_path: "/w/compose.yaml".into(), service: "web".into() },
    };
    let updated = String::from_utf8(render(&spec, b"TOKEN=old\nOTHER=keep\n", &dollar).unwrap()).unwrap();
    assert!(updated.contains("TOKEN='$PROBE'"));
    assert!(updated.contains("OTHER=keep"));
    assert_eq!(single_listing(&listed, "/w/not-listed.env"), Err(ErrorCategory::InvalidConfig));
}

#[test]
fn scope_and_git_type_are_checked_before_payload() {
    let target = ProductionTarget::new(Some("/approved".into())).unwrap();
    let outside = TargetSpec::WholeFile { path: "/elsewhere/outside".into() };
    assert_eq!(
        target.validate(&outside, SecretType::Text, &ParentLookup::Resolved("/elsewhere".into()), false, false),
        Err(ErrorCategory::InvalidConfig)
    );
    let git = TargetSpec::GitCredential {
        protocol: "https".into(),
        host: "example.test".into(),
        path: None,
        username: "user".into(),
    };
    assert_eq!(
        target.validate(&git, SecretType::Binary, &ParentLookup::Missing, false, false),
        Err(ErrorCategory::InvalidConfig)
    );
    assert_eq!(target.validate(&git, SecretType::Text, &ParentLookup::Missing, false, false), Ok(()));
    // A directory link inside the root that resolves elsewhere.
    let linked = TargetSpec::WholeFile { path: "/approved/outside-link/escaped".into() };
    assert_eq!(
        target.validate(&linked, SecretType::Text, &ParentLookup::Resolved("/elsewhere".into()), false, false),
        Err(ErrorCategory::InvalidConfig)
    );
}

#[test]
fn path_checks_of_production_targets() {
    assert_eq!(ProductionTarget::new(None).err(), Some(ErrorCategory::InvalidConfig));
    let target = ProductionTarget::new(Some("/approved".into())).unwrap();
    assert_eq!(target.root(), "/approved");
    let inside = TargetSpec::WholeFile { path: "/approved/app/token.txt".into() };
    let parent = ParentLookup::Resolved("/approved/app".into());
    assert_eq!(target.check_path(&inside, &parent, false), Ok(()));
    assert_eq!(target.check_path(&inside, &parent, true), Err(ErrorCategory::InvalidConfig));
    assert_eq!(target.check_path(&inside, &ParentLookup::Unresolved, false), Err(ErrorCategory::Target));
    assert_eq!(target.check_path(&inside, &ParentLookup::Missing, false), Err(ErrorCategory::InvalidConfig));
    let sibling = ParentLookup::Resolved("/approved-other".into());
    assert_eq!(target.check_path(&inside, &sibling, false), Err(ErrorCategory::InvalidConfig));
    let relative = TargetSpec::WholeFile { path: "token.txt".into() };
    assert_eq!(target.check_path(&relative, &parent, false), Err(ErrorCategory::InvalidConfig));
    let fake = TargetSpec::Fake { slot: "s".into() };
    assert_eq!(target.check_path(&fake, &parent, false), Err(ErrorCategory::InvalidConfig));
    let yaml_json = TargetSpec::StructuredField {
        path: "/approved/a.yaml".into(),
        key: "/a".into(),
        format: StructuredFormat::Yaml,
    };
    assert_eq!(
        target.validate(&yaml_json, SecretType::Json, &ParentLookup::Resolved("/approved".into()), false, false),
        Err(ErrorCategory::InvalidConfig)
    );
}

#[test]
fn env_file_settings_and_listed_paths() {
    let single = env_file_setting("services:\n  web:\n    env_file: web.env\n", "web").unwrap();
    assert_eq!(env_file_candidates(&single).unwrap(), vec!["web.env".to_string()]);
    let mapped = env_file_setting(
        "services:\n  web:\n    env_file:\n      - path: a.env\n      - path: b.env\n        format: raw\n",
        "web",
    )
    .unwrap();
    assert_eq!(env_file_candidates(&mapped), Err(ErrorCategory::InvalidConfig));
    assert_eq!(env_file_setting("services:\n  web: {}\n", "web").err(), Some(ErrorCategory::Target));
    assert_eq!(env_file_setting("a: 1\n---\nb: 2\n", "web").err(), Some(ErrorCategory::Target));
    let items = EnvFileSetting::List(vec![
        EnvFileItem::Text("a.env".into()),
        EnvFileItem::Entry { path: Some("b.env".into()), has_format: false },
    ]);
    assert_eq!(env_file_candidates(&items).unwrap(), vec!["a.env".to_string(), "b.env".to_string()]);
    assert_eq!(env_file_candidates(&EnvFileSetting::Other), Err(ErrorCategory::InvalidConfig));
    let abs = vec!["/other/x.env".to_string()];
    assert_eq!(env_file_paths("/w/compose.yaml", &abs).unwrap(), abs);
    for bad in ["", "$HOME/x.env", "../x.env", "a/../x.env"] {
        let c = vec![bad.to_string()];
        assert_eq!(env_file_paths("/w/compose.yaml", &c), Err(ErrorCategory::InvalidConfig));
    }
    let nested = vec!["conf/x.env".to_string()];
    assert_eq!(env_file_paths("/w/sub/compose.yaml", &nested).unwrap(), vec!["/w/sub/conf/x.env".to_string()]);
    assert_eq!(env_file_paths("/compose.yaml", &nested).unwrap(), vec!["/conf/x.env".to_string()]);
    assert_eq!(env_file_paths("/", &nested), Err(ErrorCategory::InvalidConfig));
    let twice = vec!["/w/a.env".to_string(), "/w/a.env".to_string()];
    assert_eq!(single_listing(&twice, "/w/a.env"), Err(ErrorCategory::InvalidConfig));
}
