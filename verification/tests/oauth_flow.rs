use tar_vault_sync::cloud::{
    chunk_names, delete_answer, remove_chunks, remove_entry, CredentialHead, DeleteOutcome, DriveError, Provider,
};
use tar_vault_sync::oauth::{
    append_chunk, authorize_url, callback_reply, cleanup_generation, check_tokens, code_fields, code_request_body, generation_chunks, head_text,
    loopback_request, pkce_challenge, random_id, read_credential, redirect_uri, refresh_fields,
    refresh_request_body, save,
};

#[test]
fn random_ids_are_fresh_url_safe_tokens() {
    let a = random_id();
    let b = random_id();
    assert_eq!(a.len(), 43);
    assert!(a.bytes().all(|c| c.is_ascii_alphanumeric() || c == b'-' || c == b'_'));
    assert_ne!(a, b);
}

#[test]
fn pkce_challenge_matches_the_rfc_example() {
    // RFC 7636, appendix B.
    assert_eq!(
        pkce_challenge("dBjftJeZ4CVP-mB92K27uhbUJU1p1r_wW1gFWFOEjXk"),
        "E9Melhoa2OwvFrEMTJguCHaoeK1t8URWbuGJSstw-cM"
    );
}

#[test]
fn redirect_and_authorization_url() {
    assert_eq!(redirect_uri(Provider::GoogleDrive, 4312), "http://127.0.0.1:4312/");
    assert_eq!(redirect_uri(Provider::OneDrive, 80), "http://localhost:80/");
    let url = authorize_url(Provider::OneDrive, "http://localhost:80/", "st", "ch").unwrap();
    assert!(url.starts_with("https://login.microsoftonline.com/common/oauth2/v2.0/authorize?client_id=18435542-f783-44d8-9c63-c92e18bb46cb"));
    assert!(url.contains("redirect_uri=http%3A%2F%2Flocalhost%3A80%2F"));
    assert!(url.contains("&state=st&code_challenge=ch&code_challenge_method=S256&prompt=consent"));
    assert!(!url.contains("trigger_onepick"));
    let google = authorize_url(Provider::GoogleDrive, "http://127.0.0.1:1/", "st", "ch").unwrap();
    assert!(google.ends_with("&access_type=offline&trigger_onepick=true&allow_folder_selection=true&allow_multiple=false"));
}

#[test]
fn token_requests_carry_the_secret_only_for_google() {
    let one = code_fields(Provider::OneDrive, "code", "http://localhost:1/", "ver", "secret");
    assert_eq!(one.len(), 5);
    assert!(one.iter().all(|(k, _)| k != "client_secret"));
    let google = code_fields(Provider::GoogleDrive, "code", "http://127.0.0.1:1/", "ver", "secret");
    assert_eq!(google.last().unwrap(), &("client_secret".to_string(), "secret".to_string()));
    let refresh = refresh_fields(Provider::OneDrive, "rt", "s");
    assert_eq!(refresh[1], ("grant_type".to_string(), "refresh_token".to_string()));
    assert_eq!(
        refresh_request_body(Provider::OneDrive, "r t", "s"),
        "client_id=18435542-f783-44d8-9c63-c92e18bb46cb&grant_type=refresh_token&refresh_token=r+t"
    );
    assert!(code_request_body(Provider::GoogleDrive, "c", "r", "v", "s").ends_with("&client_secret=s"));
}

#[test]
fn token_answers_must_be_bearer_tokens() {
    assert!(check_tokens("Bearer", "abc").is_ok());
    assert!(check_tokens("bearer", "abc").is_ok());
    assert_eq!(check_tokens("mac", "abc"), Err(DriveError::Authorization));
    assert_eq!(check_tokens("Bearer", ""), Err(DriveError::Authorization));
}

#[test]
fn loopback_reads_one_get_request_line() {
    let (code, picked) = loopback_request(b"GET /?state=s1&code=abc HTTP/1.1\r\n", "s1").unwrap();
    assert_eq!(code, "abc");
    assert_eq!(picked, None);
    assert_eq!(loopback_request(b"POST /?state=s1&code=abc HTTP/1.1\r\n", "s1"), Err(DriveError::Authorization));
    assert_eq!(loopback_request(b"GET /?state=other&code=abc HTTP/1.1\r\n", "s1"), Err(DriveError::Authorization));
    assert_eq!(loopback_request(b"GET\r\n", "s1"), Err(DriveError::Authorization));
    assert_eq!(loopback_request(&[0xff, 0xfe], "s1"), Err(DriveError::Authorization));
    assert_eq!(loopback_request(b"", "s1"), Err(DriveError::Authorization));
    assert!(callback_reply(true).starts_with("HTTP/1.1 200 OK\r\n"));
    assert!(callback_reply(false).starts_with("HTTP/1.1 400 Bad Request\r\n"));
}

#[test]
fn credential_store_names_are_checked_before_the_store() {
    let head = CredentialHead { generation: "gen".into(), chunks: 2 };
    assert_eq!(head_text(&head), "{\"generation\":\"gen\",\"chunks\":2}");
    assert_eq!(remove_entry("a/b"), Err(DriveError::InvalidInput));
    assert_eq!(remove_chunks("a/b", &head), Err(DriveError::InvalidInput));
    let none = CredentialHead { generation: "gen".into(), chunks: 0 };
    assert_eq!(remove_chunks("a/b", &none), Ok(()));
    assert_eq!(read_credential("id", None), Err(DriveError::Authorization));
    assert_eq!(read_credential("a/b", Some(&head)), Err(DriveError::InvalidInput));
    assert_eq!(save("id", &vec![b'x'; 65537], None), Err(DriveError::CredentialStore));
}

#[test]
fn a_generation_splits_the_credential_into_named_chunks() {
    let encoded: Vec<u8> = (0..4500u32).map(|i| (i % 251) as u8).collect();
    let head = CredentialHead { generation: "gen".into(), chunks: 3 };
    let plan = generation_chunks("cred", &head, &encoded);
    assert_eq!(plan.len(), 3);
    assert_eq!(plan[0].0, "cred-gen-0");
    assert_eq!(plan[2].0, "cred-gen-2");
    assert_eq!(plan[0].1, encoded[..2000].to_vec());
    assert_eq!(plan[1].1, encoded[2000..4000].to_vec());
    assert_eq!(plan[2].1, encoded[4000..].to_vec());
}

#[test]
fn store_answers_are_read_as_the_protocol_says() {
    assert_eq!(delete_answer(DeleteOutcome::Deleted), Ok(()));
    assert_eq!(delete_answer(DeleteOutcome::Absent), Ok(()));
    assert_eq!(delete_answer(DeleteOutcome::Failed), Err(DriveError::CredentialStore));
    let next = CredentialHead { generation: "new".into(), chunks: 2 };
    let old = CredentialHead { generation: "old".into(), chunks: 1 };
    assert_eq!(cleanup_generation(false, &next, Some(&old)).unwrap().generation, "new");
    assert_eq!(cleanup_generation(true, &next, Some(&old)).unwrap().generation, "old");
    assert!(cleanup_generation(true, &next, None).is_none());
    assert_eq!(chunk_names("cred", &next), vec!["cred-new-0".to_string(), "cred-new-1".to_string()]);
    let mut bytes = vec![1u8];
    assert_eq!(append_chunk(&mut bytes, &[2, 3]), Ok(()));
    assert_eq!(bytes, vec![1, 2, 3]);
    assert_eq!(append_chunk(&mut bytes, &vec![0u8; 2001]), Err(DriveError::CredentialStore));
    assert_eq!(bytes, vec![1, 2, 3]);
    let empty = CredentialHead { generation: "g".into(), chunks: 0 };
    assert_eq!(read_credential("cred", Some(&empty)).unwrap(), Vec::<u8>::new());
}
