use tar_vault_sync::domain::{ErrorCategory, SecretPayload, SecretType};
use tar_vault_sync::keyvalue::{render_key_value, KeyValueStyle};

fn probe() -> SecretPayload {
    SecretPayload::new(b"probe-value".to_vec(), SecretType::Text)
}

fn text(bytes: Vec<u8>) -> String {
    String::from_utf8(bytes).unwrap()
}

#[test]
fn dotenv_replaces_only_the_key_and_keeps_crlf() {
    let out = render_key_value(
        b"# kept\r\nTOKEN=old\r\nOTHER=1\r\n",
        "TOKEN",
        &probe(),
        KeyValueStyle::SingleQuoted,
    )
    .unwrap();
    assert_eq!(text(out), "# kept\r\nTOKEN='probe-value'\r\nOTHER=1\r\n");
}

#[test]
fn properties_escape_and_comment_lines_are_kept() {
    let out = render_key_value(
        b"# kept\nTOKEN: old\nOTHER=1\n",
        "TOKEN",
        &probe(),
        KeyValueStyle::Properties,
    )
    .unwrap();
    assert_eq!(text(out), "# kept\nTOKEN=probe-value\nOTHER=1\n");
    let tricky = SecretPayload::new(b"a=b:c\\d".to_vec(), SecretType::Text);
    let out = render_key_value(b"", "K", &tricky, KeyValueStyle::Properties).unwrap();
    assert_eq!(text(out), "K=a\\=b\\:c\\\\d\n");
    let out = render_key_value(b"!TOKEN=x\n", "TOKEN", &probe(), KeyValueStyle::Properties).unwrap();
    assert_eq!(text(out), "!TOKEN=x\nTOKEN=probe-value\n");
}

#[test]
fn dotenv_quotes_escape_and_export_prefix() {
    let quoted = SecretPayload::new(b"it's \\ ok".to_vec(), SecretType::Text);
    let out = render_key_value(b"  export TOKEN = old\n", "TOKEN", &quoted, KeyValueStyle::SingleQuoted).unwrap();
    assert_eq!(text(out), "export TOKEN='it\\'s \\\\ ok'\n");
}

#[test]
fn missing_key_is_appended_with_the_file_line_ending() {
    let out = render_key_value(b"A=1", "TOKEN", &probe(), KeyValueStyle::SingleQuoted).unwrap();
    assert_eq!(text(out), "A=1\nTOKEN='probe-value'\n");
    let out = render_key_value(b"A=1\r\nB=2", "TOKEN", &probe(), KeyValueStyle::SingleQuoted).unwrap();
    assert_eq!(text(out), "A=1\r\nB=2\r\nTOKEN='probe-value'\r\n");
    let out = render_key_value(b"", "TOKEN", &probe(), KeyValueStyle::SingleQuoted).unwrap();
    assert_eq!(text(out), "TOKEN='probe-value'\n");
    let out = render_key_value(b"TOKEN=old", "TOKEN", &probe(), KeyValueStyle::SingleQuoted).unwrap();
    assert_eq!(text(out), "TOKEN='probe-value'");
}

#[test]
fn unsafe_values_and_duplicate_keys_are_refused() {
    let broken = SecretPayload::new(b"line\nbreak".to_vec(), SecretType::Text);
    assert_eq!(
        render_key_value(b"TOKEN=old\n", "TOKEN", &broken, KeyValueStyle::SingleQuoted).unwrap_err(),
        ErrorCategory::Target
    );
    let nul = SecretPayload::new(b"a\0b".to_vec(), SecretType::Text);
    assert!(render_key_value(b"", "TOKEN", &nul, KeyValueStyle::Properties).is_err());
    let binary = SecretPayload::new(vec![0xff, 0xfe], SecretType::Binary);
    assert!(render_key_value(b"", "TOKEN", &binary, KeyValueStyle::SingleQuoted).is_err());
    assert!(render_key_value(&[0xff], "TOKEN", &probe(), KeyValueStyle::SingleQuoted).is_err());
    assert!(render_key_value(b"TOKEN=a\nTOKEN=b\n", "TOKEN", &probe(), KeyValueStyle::SingleQuoted).is_err());
}
