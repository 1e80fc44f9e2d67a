use std::collections::BTreeMap;
use tar_vault_sync::browser_import::{
    check_import_file, check_import_request, import_records, parse, strict_quotes, MAX_CSV_BYTES,
};
use tar_vault_sync::domain::SecretType;

#[test]
fn supported_exports_preserve_quoted_values_without_revealing_them() {
    for input in [
        "name,url,username,password\r\nsample,https://example.invalid,user,\"synthetic,\"\"quoted\"\"\"\r\n",
        "\u{feff}name,url,username,password,notes\nsample,https://example.invalid,user,\"synthetic,\"\"quoted\"\"\",\"line1\nline2\"",
    ] {
        let entries = parse(input.as_bytes(), "import").unwrap();
        assert_eq!(entries.len(), 1);
        assert_eq!(entries[0].0, "import-0001");
        let decoded: BTreeMap<String, String> = serde_json::from_slice(entries[0].1.as_bytes()).unwrap();
        assert!(decoded["password"] == "synthetic,\"quoted\"");
        assert_eq!(entries[0].1.secret_type(), SecretType::Json);
    }
}

#[test]
fn invalid_exports_fail_closed() {
    for input in [
        "url,username,password\n",
        "url,username,password\na,b,",
        "url,username,password\na,b,\"unfinished",
        "url,username,password\na,b,\"closed\"garbage",
        "url,username,password\na,b,un\"quoted",
        "url,username,password,password\na,b,c,d",
        "url,username,password\na,b,c,d",
        "url,username,password,extra\na,b,c,d",
        "url,password\na,b",
    ] {
        assert!(parse(input.as_bytes(), "import").is_err());
    }
    assert!(parse(b"url,username,password\na,b,c", "bad/prefix").is_err());
}

#[test]
fn explicit_consent_and_unlock_are_required_before_reading() {
    assert!(check_import_request(false, true, "import").is_err());
    assert!(check_import_request(true, false, "import").is_err());
    assert!(check_import_request(true, true, "import").is_ok());
}

#[test]
fn oversized_input_and_record_count_are_rejected() {
    assert!(parse(&vec![b'a'; MAX_CSV_BYTES + 1], "import").is_err());
    let input = format!("url,username,password\n{}", "a,b,c\n".repeat(1001));
    assert!(parse(input.as_bytes(), "import").is_err());
    let input = format!("url,username,password\n{}", "a,b,c\n".repeat(1000));
    let entries = parse(input.as_bytes(), "import").unwrap();
    assert_eq!(entries.len(), 1000);
    assert_eq!(entries[999].0, "import-1000");
}

#[test]
fn records_become_sorted_json_objects() {
    let entries = parse(b"password,Notes,url,username,note\n", "p");
    assert!(entries.is_err());
    let entries = parse(b"password,note,url,username,name\np\"w,n,u,me,site\n", "p");
    assert!(entries.is_err());
    let entries = parse(b"password,note,url,username,name\npw,n\\x,u,me,site\n", "p").unwrap();
    assert_eq!(
        std::str::from_utf8(entries[0].1.as_bytes()).unwrap(),
        "{\"name\":\"site\",\"notes\":\"n\\\\x\",\"password\":\"pw\",\"url\":\"u\",\"username\":\"me\"}"
    );
    let entries = parse(b"url,username,password\nu,,\"tab\tq\"\nv,w,x\n", "p").unwrap();
    assert_eq!(entries.len(), 2);
    assert_eq!(entries[1].0, "p-0002");
    assert_eq!(
        std::str::from_utf8(entries[0].1.as_bytes()).unwrap(),
        "{\"password\":\"tab\\tq\",\"url\":\"u\",\"username\":\"\"}"
    );
}

#[test]
fn quote_check_states() {
    assert!(strict_quotes(b"a,\"b\"\"c\",d\n").is_ok());
    assert_eq!(strict_quotes(b"a\"b").unwrap_err(), "Malformed CSV quoting. No entries were imported.");
    assert_eq!(strict_quotes(b"\"open").unwrap_err(), "Incomplete CSV. No entries were imported.");
    assert!(strict_quotes(b"\"x\"y").is_err());
    assert!(check_import_file(true, 8 * 1024 * 1024).is_ok());
    assert!(check_import_file(true, 8 * 1024 * 1024 + 1).is_err());
    assert!(check_import_file(false, 1).is_err());
}

#[test]
fn rows_become_json_entries_only_when_every_row_is_valid() {
    let row = |v: &[&str]| v.iter().map(|s| s.to_string()).collect::<Vec<String>>();
    let rows = vec![row(&["url", "username", "password"]), row(&["a", "", "c"]), row(&["a", "", "c"])];
    let entries = import_records(&rows, "import").unwrap();
    assert_eq!(entries.len(), 2);
    assert_eq!(entries[0].0, "import-0001");
    assert_eq!(entries[1].0, "import-0002");
    for (_, p) in &entries {
        assert_eq!(p.kind, SecretType::Json);
        assert_eq!(p.as_bytes(), br#"{"password":"c","url":"a","username":""}"#);
    }
    assert!(import_records(&vec![row(&["url", "username", "password"])], "import").is_err());
    assert!(import_records(&vec![row(&["url", "password"]), row(&["a", "b"])], "import").is_err());
    assert!(import_records(&vec![row(&["url", "username", "password"]), row(&["a", "b"])], "import").is_err());
    assert!(import_records(&vec![row(&["url", "username", "password"]), row(&["a", "b", ""])], "import").is_err());
    let mut many = vec![row(&["url", "username", "password"])];
    for _ in 0..1000 {
        many.push(row(&["a", "b", "c"]));
    }
    let entries = import_records(&many, "import").unwrap();
    assert_eq!(entries.len(), 1000);
    assert_eq!(entries[999].0, "import-1000");
    many.push(row(&["a", "b", "c"]));
    assert!(import_records(&many, "import").is_err());
}

#[test]
fn thousand_records_import_and_one_more_fails() {
    let ok = format!("url,username,password\n{}", "a,b,c\n".repeat(1000));
    let entries = parse(ok.as_bytes(), "import").unwrap();
    assert_eq!(entries.len(), 1000);
    assert_eq!(entries[999].0, "import-1000");
    let too_many = format!("url,username,password\n{}", "a,b,c\n".repeat(1001));
    assert!(parse(too_many.as_bytes(), "import").is_err());
    let crlf = parse(b"url,username,password\r\na,b,c\r\nd,e,f", "import").unwrap();
    assert_eq!(crlf.len(), 2);
    assert_eq!(crlf[1].1.as_bytes(), br#"{"password":"f","url":"d","username":"e"}"#);
}
