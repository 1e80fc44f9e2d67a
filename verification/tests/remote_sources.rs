use serde_json::Value;
use tar_vault_sync::cloud::{
    base_url, bearer_header, callback, check_download_url, check_secret_response, checked_etag, checked_next,
    chunk_id, endpoints, valid_head, valid_id, valid_source, valid_version, value_url,
    version_from_id, Attributes, CredentialHead, DriveError, Item, ItemFields, LookupStep,
    Provider, RemoteRef, VersionItem, VersionLookup, VersionPage,
};
use tar_vault_sync::domain::{ErrorCategory, SourceRef, SourceVersion, StoreKind};
use tar_vault_sync::vault::VaultError;

const V1: &str = "11111111111111111111111111111111";
const V2: &str = "22222222222222222222222222222222";
const BASE: &str = "https://test-vault.vault.azure.net/secrets/test-secret";
const API_VERSION: &str = "2025-07-01";

fn reference() -> SourceRef {
    SourceRef {
        store: StoreKind::Azure,
        connection: "test-vault".into(),
        entry: "test-secret".into(),
    }
}

fn page(version: &str, created: u64) -> String {
    format!(
        r#"{{"value":[{{"id":"{BASE}/{version}","attributes":{{"created":{created},"enabled":true}}}}]}}"#
    )
}

fn attributes(v: &Value) -> Option<Attributes> {
    let a = v.get("attributes")?;
    Some(Attributes {
        created: a.get("created")?.as_u64()?,
        enabled: a.get("enabled")?.as_bool()?,
        exp: match a.get("exp") {
            Some(x) => Some(x.as_u64()?),
            None => None,
        },
        nbf: match a.get("nbf") {
            Some(x) => Some(x.as_u64()?),
            None => None,
        },
    })
}

/// Decodes a listing page as the agent's transport layer does.
fn decode_page(text: &str) -> Option<VersionPage> {
    let v: Value = serde_json::from_str(text).ok()?;
    let mut items = Vec::new();
    for item in v.get("value")?.as_array()? {
        items.push(VersionItem {
            id: item.get("id")?.as_str()?.to_owned(),
            attributes: attributes(item)?,
        });
    }
    let next_link = match v.get("nextLink") {
        Some(n) => Some(n.as_str()?.to_owned()),
        None => None,
    };
    Some(VersionPage { value: items, next_link })
}

/// Runs a lookup against scripted replies and counts the fetches.
fn lookup(replies: Vec<(&str, String)>) -> (Result<SourceVersion, ErrorCategory>, usize) {
    let (mut l, mut url) = match VersionLookup::start(&reference()) {
        Ok(s) => s,
        Err(e) => return (Err(e), 0),
    };
    let mut calls = 0;
    let mut replies = replies.into_iter();
    loop {
        let (suffix, reply) = replies.next().expect("unexpected request");
        assert!(url.contains(suffix));
        calls += 1;
        let page = match decode_page(&reply) {
            Some(p) => p,
            None => return (Err(ErrorCategory::Source), calls),
        };
        match l.on_page(&page, 100) {
            LookupStep::Fetch(next) => url = next,
            LookupStep::Done(r) => return (r, calls),
        }
    }
}

#[test]
fn endpoint_validation_rejects_injection_and_cross_host_pagination() {
    for vault in ["a", "-vault", "vault-", "a--b", "test.vault", "x/../../", "a&echo", "a%PATH%"] {
        let mut source = reference();
        source.connection = vault.into();
        assert!(!valid_source(&source));
    }
    for entry in ["", "../secret", "secret?query", "x#y", "a_b"] {
        let mut source = reference();
        source.entry = entry.into();
        assert!(!valid_source(&source));
    }
    for next in [
        "http://test-vault.vault.azure.net/secrets/test-secret/versions",
        "https://attacker.invalid/secrets/test-secret/versions",
        "https://test-vault.vault.azure.net/secrets/other/versions",
        "https://user@test-vault.vault.azure.net/secrets/test-secret/versions",
        "https://test-vault.vault.azure.net:444/secrets/test-secret/versions",
    ] {
        assert!(checked_next(BASE, next).is_err());
    }
    assert!(checked_next(
        BASE,
        &format!("{BASE}/versions?api-version={API_VERSION}&$skiptoken=opaque")
    )
    .is_ok());
}

#[test]
fn paginated_metadata_selects_latest_and_never_reads_value() {
    let first = page(V1, 10).trim_end_matches('}').to_owned()
        + &format!(r#", "nextLink":"{BASE}/versions?api-version={API_VERSION}&$skiptoken=next"}}"#);
    let (result, calls) = lookup(vec![("/versions?", first), ("$skiptoken=next", page(V2, 20))]);
    assert_eq!(result.unwrap().0, V2);
    assert_eq!(calls, 2);
}

#[test]
fn ambiguous_disabled_expired_and_untrusted_metadata_fail_closed() {
    let tied = format!(
        r#"{{"value":[{{"id":"{BASE}/{V1}","attributes":{{"created":10,"enabled":true}}}},{{"id":"{BASE}/{V2}","attributes":{{"created":10,"enabled":true}}}}]}}"#
    );
    for response in [
        tied,
        page(V1, 10).replace("true", "false"),
        page(V1, 10).replace("\"enabled\":true", "\"enabled\":true,\"exp\":1"),
        page(V1, 10).replace("\"enabled\":true", "\"enabled\":true,\"nbf\":18446744073709551615"),
        page(V1, 10).replace(BASE, "https://attacker.invalid/secrets/secret"),
        "{\"value\":[]}".into(),
        "not json".into(),
    ] {
        let (result, calls) = lookup(vec![("/versions?", response)]);
        assert!(result.is_err());
        assert_eq!(calls, 1);
    }
    let malicious_next = r#"{"value":[],"nextLink":"https://attacker.invalid/"}"#.to_owned();
    let (result, calls) = lookup(vec![("/versions?", malicious_next)]);
    assert!(result.is_err());
    assert_eq!(calls, 1);
}

#[test]
fn value_is_pinned_to_checked_version_and_failures_are_redacted() {
    let usable = Attributes { created: 10, enabled: true, exp: None, nbf: None };
    let returned = format!("{BASE}/{V2}");
    assert!(matches!(
        check_secret_response(BASE, &SourceVersion(V1.into()), &returned, &usable, 100),
        Err(ErrorCategory::VersionConflict)
    ));
    let malformed: Result<Value, _> = serde_json::from_str("synthetic-azure-probe malformed");
    let error = match malformed {
        Ok(_) => None,
        Err(_) => Some(ErrorCategory::Source),
    }
    .unwrap();
    assert_eq!(error.name(), "Source");
    assert!(value_url(&reference(), &SourceVersion("../latest".into())).is_err());
    assert_eq!(
        value_url(&reference(), &SourceVersion(V1.into())).unwrap(),
        format!("{BASE}/{V1}?api-version={API_VERSION}")
    );
    let pinned = format!("{BASE}/{V1}");
    assert!(check_secret_response(BASE, &SourceVersion(V1.into()), &pinned, &usable, 100).is_ok());
    let disabled = Attributes { enabled: false, ..usable };
    assert!(matches!(
        check_secret_response(BASE, &SourceVersion(V1.into()), &pinned, &disabled, 100),
        Err(ErrorCategory::Source)
    ));
}

#[test]
fn azure_names_and_versions() {
    let mut upper = reference();
    upper.connection = "Test-Vault".into();
    assert_eq!(base_url(&upper).unwrap(), BASE);
    assert!(valid_version(V1));
    assert!(valid_version("abcdefABCDEF0123456789abcdef0123"));
    assert!(!valid_version("g1111111111111111111111111111111"));
    assert!(!valid_version("1111"));
    assert_eq!(version_from_id(BASE, &format!("{BASE}/{V1}")).unwrap(), V1);
    assert!(version_from_id(BASE, &format!("{BASE}x/{V1}")).is_err());
    assert!(version_from_id(BASE, BASE).is_err());
    let a = Attributes { created: 1, enabled: true, exp: Some(10), nbf: Some(5) };
    assert!(a.usable(5));
    assert!(a.usable(9));
    assert!(!a.usable(10));
    assert!(!a.usable(4));
}

#[test]
fn callback_rejects_csrf_duplicates_and_untrusted_picker_ids() {
    assert!(callback("/?state=s&code=x", "s").is_ok());
    for target in [
        "/?state=wrong&code=x",
        "/?state=s&state=s&code=x",
        "/?state=s&code=x&code=y",
        "/?state=s&error=denied",
        "/other?state=s&code=x",
        "/?state=s&code=x&picked_file_ids=..%2Fescape",
    ] {
        assert!(callback(target, "s").is_err());
    }
    let (code, picked) = callback("/?state=s&code=abc&picked_file_ids=file_1", "s").unwrap();
    assert_eq!(code, "abc");
    assert_eq!(picked.as_deref(), Some("file_1"));
    assert!(matches!(
        callback("/?state=s&code=x&picked_file_ids=a%2Fb", "s"),
        Err(DriveError::InvalidInput)
    ));
}

#[test]
fn rejects_injected_references_and_download_urls() {
    for id in ["", "../x", "a/b", "x?q=1", "a%2fb"] {
        assert!(!valid_id(id));
    }
    for url in [
        "http://x.1drv.com/a",
        "https://127.0.0.1/a",
        "https://evil.test/a",
        "https://x.1drv.com.evil.test/a",
        "https://user@x.1drv.com/a",
    ] {
        assert!(check_download_url(url).is_err());
    }
    assert!(check_download_url("https://x.1drv.com/a?token=opaque").is_ok());
    assert!(checked_etag("W/\"weak\"".into()).is_err());
    assert!(checked_etag("\"revision\"".into()).is_ok());
}

#[test]
fn drive_items_references_and_errors() {
    let fields = ItemFields {
        id: Some("file!1".into()),
        name: Some("vault.tarvault".into()),
        title: None,
        has_folder: true,
        mime_type: None,
    };
    let item = Item::parse(Provider::OneDrive, &fields).unwrap();
    assert_eq!(item.id, "file!1");
    assert!(item.folder);
    assert!(Item::parse(Provider::GoogleDrive, &fields).is_err());
    let google = ItemFields {
        id: Some("file".into()),
        name: None,
        title: Some("folder".into()),
        has_folder: false,
        mime_type: Some("application/vnd.google-apps.folder".into()),
    };
    assert!(Item::parse(Provider::GoogleDrive, &google).unwrap().folder);
    let bad = ItemFields { id: Some("../x".into()), ..google };
    assert_eq!(Item::parse(Provider::GoogleDrive, &bad).err(), Some(DriveError::InvalidResponse));
    let r = RemoteRef { provider: Provider::OneDrive, credential_id: "cred".into(), file_id: "f".into() };
    assert!(r.validate());
    assert_eq!(Provider::GoogleDrive.label(), "Google Drive");
    assert_eq!(Provider::OneDrive.store(), StoreKind::OneDrive);
    assert_eq!(VaultError::from(DriveError::Conflict), VaultError::VersionConflict);
    assert_eq!(VaultError::from(DriveError::Network), VaultError::Storage);
    assert_eq!(VaultError::from(DriveError::CredentialStore), VaultError::Locked);
    assert_eq!(VaultError::from(DriveError::InvalidResponse), VaultError::Corrupt);
    assert!(DriveError::Network.message().contains("no automatic overwrite"));
}

#[test]
fn oauth_endpoints_and_credential_chunks() {
    let (client, auth, token, scope) = endpoints(Provider::OneDrive);
    assert_eq!(client, "18435542-f783-44d8-9c63-c92e18bb46cb");
    assert!(auth.ends_with("/authorize"));
    assert!(token.ends_with("/token"));
    assert_eq!(scope, "offline_access Files.ReadWrite");
    assert_eq!(endpoints(Provider::GoogleDrive).3, "https://www.googleapis.com/auth/drive.file");
    let head = CredentialHead { generation: "gen_1".into(), chunks: 3 };
    assert!(valid_head(&head));
    assert_eq!(chunk_id("cred", &head, 12), "cred-gen_1-12");
    assert!(!valid_head(&CredentialHead { generation: "gen".into(), chunks: 34 }));
    assert!(!valid_head(&CredentialHead { generation: "".into(), chunks: 1 }));
}

#[test]
fn azure_cli_token_becomes_a_trimmed_bearer_header() {
    assert_eq!(bearer_header(b"  eyJ0eXAi.abc-123_x\n").unwrap(), "Bearer eyJ0eXAi.abc-123_x");
    assert_eq!(bearer_header(b"tok").unwrap(), "Bearer tok");
    assert_eq!(bearer_header(b"").unwrap_err(), ErrorCategory::Unauthorized);
    assert_eq!(bearer_header(b" \r\n\t ").unwrap_err(), ErrorCategory::Unauthorized);
    assert_eq!(bearer_header(b"two words").unwrap_err(), ErrorCategory::Unauthorized);
    assert_eq!(bearer_header(b"tok\x7f").unwrap_err(), ErrorCategory::Unauthorized);
    assert_eq!(bearer_header(&[0xff, 0x61]).unwrap_err(), ErrorCategory::Unauthorized);
}
