use tar_vault_sync::cloud::{DriveError, ItemFields, Provider, RemoteRef};
use tar_vault_sync::drive::{
    check_api_url, check_ciphertext, check_create, created_ref, metadata_url, request_error,
    ChildListing, ChildPage, FileMetadata, ListStep, ReadPlan, RemoteFile, MAX_CIPHERTEXT,
};

fn google_metadata(etag: &str, revision: Option<&str>) -> FileMetadata {
    FileMetadata {
        fields: ItemFields {
            id: Some("file".into()),
            name: None,
            title: Some("vault.tarvault".into()),
            has_folder: false,
            mime_type: Some("application/octet-stream".into()),
        },
        deleted: false,
        trashed: false,
        e_tag: None,
        etag: Some(etag.into()),
        head_revision_id: revision.map(str::to_owned),
        download_url: None,
    }
}

fn remote(provider: Provider) -> RemoteFile {
    RemoteFile::new(&RemoteRef {
        provider,
        credential_id: "test".into(),
        file_id: "file".into(),
    })
    .unwrap()
}

/// Runs one read against scripted answers: the first metadata answer, the
/// download, and the second metadata answer. Returns the result and the
/// number of answers used.
fn read(
    file: &mut RemoteFile,
    first: &FileMetadata,
    download: &[u8],
    second: &FileMetadata,
    expected_download: Option<&str>,
) -> (Result<Vec<u8>, DriveError>, usize) {
    assert!(file.metadata_url().contains("fields="));
    match file.begin_read(first) {
        Err(e) => (Err(e), 1),
        Ok(ReadPlan::Cached(bytes)) => (Ok(bytes), 1),
        Ok(ReadPlan::Download { etag, url, authorized }) => {
            if let Some(part) = expected_download {
                assert!(url.contains(part));
            }
            assert!(authorized);
            (file.finish_read(etag, download.to_vec(), second), 3)
        }
    }
}

#[test]
fn google_metadata_first_skips_unchanged_download_and_conditionally_writes() {
    let metadata = google_metadata("\"v1\"", Some("revision1"));
    let mut file = remote(Provider::GoogleDrive);
    let (first, used) = read(
        &mut file,
        &metadata,
        b"TVAULT02encrypted-fixture",
        &metadata,
        Some("alt=media&revisionId=revision1"),
    );
    assert!(first.is_ok());
    assert_eq!(used, 3);
    let (second, used) = read(&mut file, &metadata, b"", &metadata, None);
    assert!(second.is_ok());
    assert_eq!(used, 1);
    let (url, condition) = file.begin_write(b"TVAULT02new-ciphertext").unwrap();
    assert!(url.contains("uploadType=media"));
    assert_eq!(condition, "\"v1\"");
    // The upload is answered with a conflict: nothing is retried and the
    // cached tag stays.
    assert_eq!(request_error(Some(412)), DriveError::Conflict);
    assert_eq!(file.cached_etag(), Some("\"v1\""));
}

#[test]
fn google_download_requires_a_valid_revision_and_rejects_concurrent_change() {
    for revision in [None, Some("../invalid"), Some("revision1")] {
        let metadata = google_metadata("\"v1\"", revision);
        let changed = google_metadata("\"v2\"", revision);
        let mut file = remote(Provider::GoogleDrive);
        let (result, used) = read(
            &mut file,
            &metadata,
            b"TVAULT02encrypted-fixture",
            &changed,
            Some("alt=media&revisionId=revision1"),
        );
        let expected = if revision == Some("revision1") {
            DriveError::Conflict
        } else {
            DriveError::InvalidResponse
        };
        assert_eq!(result, Err(expected));
        assert_eq!(used, if revision == Some("revision1") { 3 } else { 1 });
        assert!(file.cached_etag().is_none());
    }
}

#[test]
fn onedrive_write_carries_the_observed_etag_and_never_retries_conflict() {
    let mut file = remote(Provider::OneDrive);
    let metadata = FileMetadata {
        fields: ItemFields {
            id: Some("file".into()),
            name: Some("vault.tarvault".into()),
            title: None,
            has_folder: false,
            mime_type: None,
        },
        deleted: false,
        trashed: false,
        e_tag: Some("\"v1\"".into()),
        etag: None,
        head_revision_id: None,
        download_url: Some("https://x.1drv.com/a?token=opaque".into()),
    };
    match file.begin_read(&metadata).unwrap() {
        ReadPlan::Download { etag, url, authorized } => {
            assert!(!authorized);
            assert_eq!(url, "https://x.1drv.com/a?token=opaque");
            file.finish_read(etag, b"TVAULT02old".to_vec(), &metadata).unwrap();
        }
        ReadPlan::Cached(_) => panic!("nothing was cached"),
    }
    let (url, condition) = file.begin_write(b"TVAULT02new").unwrap();
    assert!(url.contains("/items/file/content"));
    assert_eq!(condition, "\"v1\"");
    assert_eq!(request_error(Some(409)), DriveError::Conflict);
    assert_eq!(file.cached_etag(), Some("\"v1\""));
}

#[test]
fn writes_need_a_prior_read_and_a_vault_file() {
    let mut file = remote(Provider::OneDrive);
    assert_eq!(file.begin_write(b"TVAULT02new"), Err(DriveError::Conflict));
    assert_eq!(file.begin_write(b"plain"), Err(DriveError::InvalidInput));
    let metadata = google_metadata("\"v1\"", Some("revision1"));
    let mut g = remote(Provider::GoogleDrive);
    if let ReadPlan::Download { etag, .. } = g.begin_read(&metadata).unwrap() {
        g.finish_read(etag, b"TVAULT02x".to_vec(), &metadata).unwrap();
    }
    assert!(g.begin_write(b"TVAULT02y").is_ok());
    g.finish_write();
    assert!(g.cached_etag().is_none());
    assert!(matches!(g.begin_read(&metadata), Ok(ReadPlan::Download { .. })));
    file.finish_write();
    assert!(RemoteFile::new(&RemoteRef {
        provider: Provider::OneDrive,
        credential_id: "a/b".into(),
        file_id: "file".into()
    })
    .is_err());
}

#[test]
fn downloads_without_the_signature_are_refused() {
    let metadata = google_metadata("\"v1\"", Some("revision1"));
    let mut g = remote(Provider::GoogleDrive);
    let (result, _) = read(&mut g, &metadata, b"garbage", &metadata, None);
    assert_eq!(result, Err(DriveError::InvalidResponse));
    assert!(check_ciphertext(b"TVAULT02"));
    assert!(!check_ciphertext(b"TVAULT0"));
}

#[test]
fn deleted_trashed_and_folder_files_are_refused() {
    let mut m = google_metadata("\"v1\"", Some("r"));
    m.trashed = true;
    assert!(matches!(remote(Provider::GoogleDrive).begin_read(&m), Err(DriveError::InvalidResponse)));
    let mut m = google_metadata("\"v1\"", Some("r"));
    m.fields.mime_type = Some("application/vnd.google-apps.folder".into());
    assert!(matches!(remote(Provider::GoogleDrive).begin_read(&m), Err(DriveError::InvalidInput)));
    let m = google_metadata("W/\"weak\"", Some("r"));
    assert!(matches!(remote(Provider::GoogleDrive).begin_read(&m), Err(DriveError::InvalidResponse)));
}

#[test]
fn api_urls_and_status_errors() {
    assert_eq!(
        metadata_url(Provider::OneDrive, "root").unwrap(),
        "https://graph.microsoft.com/v1.0/me/drive/root"
    );
    assert_eq!(
        metadata_url(Provider::OneDrive, "abc").unwrap(),
        "https://graph.microsoft.com/v1.0/me/drive/items/abc"
    );
    assert_eq!(
        metadata_url(Provider::GoogleDrive, "abc").unwrap(),
        "https://www.googleapis.com/drive/v2/files/abc?fields=id,title,mimeType,etag,labels,fileSize,headRevisionId"
    );
    assert_eq!(metadata_url(Provider::GoogleDrive, "../x"), Err(DriveError::InvalidInput));
    assert!(check_api_url(Provider::OneDrive, "https://graph.microsoft.com/v1.0/me").is_ok());
    assert!(check_api_url(Provider::OneDrive, "https://www.googleapis.com/x").is_err());
    assert!(check_api_url(Provider::GoogleDrive, "https://user@www.googleapis.com/x").is_err());
    assert!(check_api_url(Provider::GoogleDrive, "http://www.googleapis.com/x").is_err());
    assert!(check_api_url(Provider::GoogleDrive, "https://www.googleapis.com:8443/x").is_err());
    assert_eq!(request_error(Some(401)), DriveError::Authorization);
    assert_eq!(request_error(Some(403)), DriveError::Authorization);
    assert_eq!(request_error(Some(500)), DriveError::Network);
    assert_eq!(request_error(None), DriveError::Network);
}

fn page_item(id: &str, name: &str) -> ItemFields {
    ItemFields {
        id: Some(id.into()),
        name: Some(name.into()),
        title: Some(name.into()),
        has_folder: false,
        mime_type: None,
    }
}

#[test]
fn folder_listing_follows_pages_and_stops_at_the_limits() {
    let (mut listing, first) = ChildListing::start(Provider::OneDrive, "folder").unwrap();
    assert_eq!(
        first,
        "https://graph.microsoft.com/v1.0/me/drive/items/folder/children?$top=200&$select=id,name,folder"
    );
    let page = ChildPage {
        value: Some(vec![page_item("a", "one")]),
        items: None,
        next_link: Some("https://graph.microsoft.com/next".into()),
        next_page_token: None,
    };
    match listing.on_page(&page) {
        ListStep::Fetch(url) => assert_eq!(url, "https://graph.microsoft.com/next"),
        ListStep::Done(_) => panic!("a next page was named"),
    }
    let last = ChildPage {
        value: Some(vec![page_item("b", "two")]),
        items: None,
        next_link: None,
        next_page_token: None,
    };
    match listing.on_page(&last) {
        ListStep::Done(Ok(items)) => {
            assert_eq!(items.len(), 2);
            assert_eq!(items[0].id, "a");
            assert_eq!(items[1].name, "two");
        }
        _ => panic!("the listing is complete"),
    }
    let (mut g, first) = ChildListing::start(Provider::GoogleDrive, "folder").unwrap();
    assert!(first.starts_with("https://www.googleapis.com/drive/v2/files?q="));
    assert!(first.contains("maxResults=1000"));
    let token_page = ChildPage {
        value: None,
        items: Some(vec![page_item("c", "three")]),
        next_link: None,
        next_page_token: Some("tok".into()),
    };
    match g.on_page(&token_page) {
        ListStep::Fetch(url) => assert!(url.starts_with(&first) && url.ends_with("pageToken=tok")),
        ListStep::Done(_) => panic!("a page token was given"),
    }
    let missing = ChildPage { value: None, items: None, next_link: None, next_page_token: None };
    assert!(matches!(g.on_page(&missing), ListStep::Done(Err(DriveError::InvalidResponse))));
    let (mut capped, _) = ChildListing::start(Provider::OneDrive, "folder").unwrap();
    let mut steps = 0;
    loop {
        steps += 1;
        match capped.on_page(&page) {
            ListStep::Fetch(_) => continue,
            ListStep::Done(r) => {
                assert_eq!(r.err(), Some(DriveError::InvalidResponse));
                break;
            }
        }
    }
    assert_eq!(steps, 100);
    assert!(ChildListing::start(Provider::OneDrive, "a/b").is_err());
}

#[test]
fn new_vault_files_are_checked_before_upload() {
    assert!(check_create("folder", "team.tarvault", b"TVAULT02x").is_ok());
    assert_eq!(check_create("folder", "team.txt", b"TVAULT02x"), Err(DriveError::InvalidInput));
    assert_eq!(check_create("folder", "te am.tarvault", b"TVAULT02x"), Err(DriveError::InvalidInput));
    assert_eq!(check_create("a/b", "team.tarvault", b"TVAULT02x"), Err(DriveError::InvalidInput));
    assert_eq!(check_create("folder", "team.tarvault", b"plain"), Err(DriveError::InvalidInput));
    let long = format!("{}.tarvault", "a".repeat(120));
    assert_eq!(check_create("folder", &long, b"TVAULT02x"), Err(DriveError::InvalidInput));
    let mut big = b"TVAULT02".to_vec();
    big.resize(MAX_CIPHERTEXT + 1, 0);
    assert_eq!(check_create("folder", "team.tarvault", &big), Err(DriveError::InvalidInput));
    let r = created_ref(Provider::GoogleDrive, "cred", "file-1".into()).unwrap();
    assert_eq!(r.file_id, "file-1");
    assert!(created_ref(Provider::GoogleDrive, "cred", "../x".into()).is_err());
}
