//! The Drive file protocol: metadata first, a download pinned to what the
//! metadata showed, a second look that nothing changed meanwhile, and writes
//! conditioned on the entity tag that was read; the listing of a folder page
//! by page; and the checks of the URLs the client talks to. The HTTP
//! exchanges themselves belong to the caller.
use crate::cloud::{
    check_download_url, checked_etag, is_strong_etag, is_trusted_download, is_valid_id, item_of,
    non_empty, opt_view, parse_url, parsed_url, valid_id, DriveError, Item, ItemFields, Provider,
    RemoteRef,
};
use crate::text::{bytes_of, is_alnum, is_empty_text, push_text, same_bytes, same_text, utf8_of};
use crate::vault::{magic, magic_bytes};
use vstd::prelude::*;
use vstd::utf8::encode_utf8;

verus! {

/// The largest vault file a drive may hold.
pub const MAX_CIPHERTEXT: usize = 16777216;

/// Bytes that begin with the vault signature.
pub open spec fn is_ciphertext(b: Seq<u8>) -> bool {
    b.len() >= 8 && b.take(8) == magic()
}

/// Whether the bytes begin with the vault signature.
pub fn check_ciphertext(bytes: &[u8]) -> (r: bool)
    ensures
        r == is_ciphertext(bytes@),
{
    if bytes.len() < 8 {
        return false;
    }
    let m = magic_bytes();
    let head = vstd::slice::slice_subrange(bytes, 0, 8);
    let r = same_bytes(head, m.as_slice());
    assert(head@ =~= bytes@.take(8));
    r
}

/// The metadata URL of a file or folder.
pub open spec fn metadata_url_of(provider: Provider, id: Seq<char>) -> Seq<char> {
    match provider {
        Provider::OneDrive => if id == "root"@ {
            "https://graph.microsoft.com/v1.0/me/drive/root"@
        } else {
            "https://graph.microsoft.com/v1.0/me/drive/items/"@ + id
        },
        Provider::GoogleDrive => "https://www.googleapis.com/drive/v2/files/"@ + id
            + "?fields=id,title,mimeType,etag,labels,fileSize,headRevisionId"@,
    }
}

/// The metadata URL of an item; an invalid ID is refused.
pub fn metadata_url(provider: Provider, id: &str) -> (r: Result<String, DriveError>)
    ensures
        !is_valid_id(utf8_of(id)) ==> r == Err::<String, DriveError>(DriveError::InvalidInput),
        is_valid_id(utf8_of(id)) ==> (r matches Ok(u) && u@ == metadata_url_of(provider, id@)),
{
    if !valid_id(id) {
        return Err(DriveError::InvalidInput);
    }
    proof {
        reveal_strlit("root");
        reveal_strlit("https://graph.microsoft.com/v1.0/me/drive/root");
    }
    match provider {
        Provider::OneDrive => {
            if same_text(id, "root") {
                Ok("https://graph.microsoft.com/v1.0/me/drive/root".to_owned())
            } else {
                let mut u = "https://graph.microsoft.com/v1.0/me/drive/items/".to_owned();
                push_text(&mut u, id);
                Ok(u)
            }
        },
        Provider::GoogleDrive => {
            let mut u = "https://www.googleapis.com/drive/v2/files/".to_owned();
            push_text(&mut u, id);
            push_text(&mut u, "?fields=id,title,mimeType,etag,labels,fileSize,headRevisionId");
            Ok(u)
        },
    }
}

/// The host a provider's API answers on.
pub open spec fn api_host(provider: Provider) -> Seq<char> {
    match provider {
        Provider::OneDrive => "graph.microsoft.com"@,
        Provider::GoogleDrive => "www.googleapis.com"@,
    }
}

/// A URL the client may send its bearer token to: https to the provider's
/// API host on the default port, with no user information.
pub open spec fn is_api_url(provider: Provider, url: Seq<char>) -> bool {
    match parsed_url(url) {
        Some(u) => {
            &&& u.0 == "https"@
            &&& u.1 == Some(api_host(provider))
            &&& u.2 is None
            &&& u.5.len() == 0
            &&& !u.6
        },
        None => false,
    }
}

/// Checks a URL before a request carries the bearer token to it.
pub fn check_api_url(provider: Provider, url: &str) -> (r: Result<(), DriveError>)
    ensures
        r is Ok <==> is_api_url(provider, url@),
        r is Err ==> r == Err::<(), DriveError>(DriveError::InvalidInput),
{
    proof {
        reveal_strlit("https");
        reveal_strlit("graph.microsoft.com");
        reveal_strlit("www.googleapis.com");
    }
    let parts = match parse_url(url) {
        Some(p) => p,
        None => return Err(DriveError::InvalidInput),
    };
    let expected = match provider {
        Provider::OneDrive => "graph.microsoft.com",
        Provider::GoogleDrive => "www.googleapis.com",
    };
    let host_ok = match &parts.host {
        Some(h) => same_text(h.as_str(), expected),
        None => false,
    };
    if !same_text(parts.scheme.as_str(), "https") || !host_ok || parts.port.is_some()
        || !is_empty_text(parts.username.as_str()) || parts.has_password {
        return Err(DriveError::InvalidInput);
    }
    Ok(())
}

/// How a failed request is reported: refused credentials, a precondition
/// or conflict answer, and anything else (another status, or no answer).
pub open spec fn request_error_of(status: Option<u16>) -> DriveError {
    match status {
        Some(code) => if code == 401 || code == 403 {
            DriveError::Authorization
        } else if code == 409 || code == 412 {
            DriveError::Conflict
        } else {
            DriveError::Network
        },
        None => DriveError::Network,
    }
}

/// The error of a failed request, from its HTTP status if one came back.
pub fn request_error(status: Option<u16>) -> (r: DriveError)
    ensures
        r == request_error_of(status),
{
    match status {
        Some(code) => if code == 401 || code == 403 {
            DriveError::Authorization
        } else if code == 409 || code == 412 {
            DriveError::Conflict
        } else {
            DriveError::Network
        },
        None => DriveError::Network,
    }
}

/// What a metadata answer holds that the file protocol reads, as plain
/// values: the item fields, whether a `deleted` field is present and
/// `labels.trashed` is true, the entity tags under `eTag` (OneDrive) and
/// `etag` (Google Drive), the head revision (Google Drive) and the
/// download link (OneDrive), each as given when it is a JSON string.
pub struct FileMetadata {
    pub fields: ItemFields,
    pub deleted: bool,
    pub trashed: bool,
    pub e_tag: Option<String>,
    pub etag: Option<String>,
    pub head_revision_id: Option<String>,
    pub download_url: Option<String>,
}

/// The entity tag of a live file: not deleted or trashed, a valid item that
/// is no folder, with a strong tag.
pub open spec fn etag_of(provider: Provider, m: FileMetadata) -> Result<Seq<char>, DriveError> {
    if m.deleted || m.trashed {
        Err(DriveError::InvalidResponse)
    } else {
        match item_of(provider, m.fields) {
            None => Err(DriveError::InvalidResponse),
            Some((_, _, folder)) => if folder {
                Err(DriveError::InvalidInput)
            } else {
                match non_empty(if provider == Provider::OneDrive { m.e_tag } else { m.etag }) {
                    Some(e) => if is_strong_etag(encode_utf8(e)) {
                        Ok(e)
                    } else {
                        Err(DriveError::InvalidResponse)
                    },
                    None => Err(DriveError::InvalidResponse),
                }
            },
        }
    }
}

fn non_empty_clone(o: &Option<String>) -> (r: Option<String>)
    ensures
        opt_view(r) == non_empty(*o),
{
    match o {
        Some(s) => if is_empty_text(s.as_str()) {
            None
        } else {
            Some(s.clone())
        },
        None => None,
    }
}

/// The entity tag a metadata answer reports for a file.
pub fn file_etag(provider: Provider, m: &FileMetadata) -> (r: Result<String, DriveError>)
    ensures
        match (r, etag_of(provider, *m)) {
            (Ok(e), Ok(t)) => e@ == t,
            (Err(e), Err(t)) => e == t,
            _ => false,
        },
{
    if m.deleted || m.trashed {
        return Err(DriveError::InvalidResponse);
    }
    let item = Item::parse(provider, &m.fields)?;
    if item.folder {
        return Err(DriveError::InvalidInput);
    }
    let tag = match provider {
        Provider::OneDrive => non_empty_clone(&m.e_tag),
        Provider::GoogleDrive => non_empty_clone(&m.etag),
    };
    match tag {
        Some(t) => checked_etag(t),
        None => Err(DriveError::InvalidResponse),
    }
}

/// A vault file on a drive, with the ciphertext last read and the entity
/// tag it was read at.
pub struct RemoteFile {
    provider: Provider,
    credential_id: String,
    id: String,
    cache: Option<(String, Vec<u8>)>,
}

/// What a read does after the first metadata answer: give back the cached
/// ciphertext, or download the file, with or without the bearer token.
pub enum ReadPlan {
    Cached(Vec<u8>),
    Download { etag: String, url: String, authorized: bool },
}

/// The download a read makes for a changed file: the Google Drive revision
/// the metadata named, with the bearer token; or the OneDrive download link,
/// a pre-authenticated URL that never receives the token.
pub open spec fn download_of(provider: Provider, id: Seq<char>, m: FileMetadata) -> Option<(Seq<char>, bool)> {
    match provider {
        Provider::GoogleDrive => match non_empty(m.head_revision_id) {
            Some(rev) => if is_valid_id(encode_utf8(rev)) {
                Some(("https://www.googleapis.com/drive/v2/files/"@ + id + "?alt=media&revisionId="@ + rev, true))
            } else {
                None
            },
            None => None,
        },
        Provider::OneDrive => match non_empty(m.download_url) {
            Some(u) => if is_trusted_download(u) {
                Some((u, false))
            } else {
                None
            },
            None => None,
        },
    }
}

/// The URL a write uploads to.
pub open spec fn upload_url_of(provider: Provider, id: Seq<char>) -> Seq<char> {
    match provider {
        Provider::OneDrive => "https://graph.microsoft.com/v1.0/me/drive/items/"@ + id + "/content"@,
        Provider::GoogleDrive => "https://www.googleapis.com/upload/drive/v2/files/"@ + id + "?uploadType=media"@,
    }
}

/// What a read does after its first metadata answer: `Ok(None)` serves the
/// cached ciphertext, `Ok(Some((tag, url, authorized)))` downloads the file
/// as `download_of` says, at the tag the metadata showed.
pub open spec fn read_decision(provider: Provider, id: Seq<char>, cached: Option<(Seq<char>, Seq<u8>)>, m: FileMetadata) -> Result<Option<(Seq<char>, Seq<char>, bool)>, DriveError> {
    match etag_of(provider, m) {
        Err(e) => Err(e),
        Ok(tag) => if cached matches Some((c, _)) && c == tag {
            Ok(None)
        } else {
            match download_of(provider, id, m) {
                Some((url, authorized)) => Ok(Some((tag, url, authorized))),
                None => Err(DriveError::InvalidResponse),
            }
        },
    }
}

/// How a read ends after the download and the second metadata answer: the
/// bytes it returns, and the cache after it.
pub open spec fn read_completion(provider: Provider, cached: Option<(Seq<char>, Seq<u8>)>, etag: Seq<char>, bytes: Seq<u8>, confirm: FileMetadata) -> (Result<Seq<u8>, DriveError>, Option<(Seq<char>, Seq<u8>)>) {
    if !is_ciphertext(bytes) {
        (Err(DriveError::InvalidResponse), cached)
    } else {
        match etag_of(provider, confirm) {
            Err(e) => (Err(e), cached),
            Ok(tag) => if tag == etag {
                (Ok(bytes), Some((etag, bytes)))
            } else {
                (Err(DriveError::Conflict), cached)
            },
        }
    }
}

/// Where and under which condition a write uploads: only a vault file of at
/// most `MAX_CIPHERTEXT` bytes, and only once the file was read, conditioned
/// on the tag it was read at.
pub open spec fn write_plan(provider: Provider, id: Seq<char>, cached: Option<(Seq<char>, Seq<u8>)>, bytes: Seq<u8>) -> Result<(Seq<char>, Seq<char>), DriveError> {
    if bytes.len() > MAX_CIPHERTEXT || !is_ciphertext(bytes) {
        Err(DriveError::InvalidInput)
    } else {
        match cached {
            None => Err(DriveError::Conflict),
            Some((tag, _)) => Ok((upload_url_of(provider, id), tag)),
        }
    }
}

impl RemoteFile {
    #[verifier::type_invariant]
    spec fn inv(self) -> bool {
        &&& is_valid_id(encode_utf8(self.credential_id@))
        &&& is_valid_id(encode_utf8(self.id@))
    }

    pub closed spec fn provider_of(&self) -> Provider {
        self.provider
    }

    pub closed spec fn file_id(&self) -> Seq<char> {
        self.id@
    }

    pub closed spec fn credential(&self) -> Seq<char> {
        self.credential_id@
    }

    /// The entity tag and ciphertext of the last read, if it is still
    /// trusted.
    pub closed spec fn cached(&self) -> Option<(Seq<char>, Seq<u8>)> {
        match self.cache {
            Some((e, b)) => Some((e@, b@)),
            None => None,
        }
    }

    /// A file for a valid reference, with nothing read yet.
    pub fn new(reference: &RemoteRef) -> (r: Result<RemoteFile, DriveError>)
        ensures
            match r {
                Ok(f) => is_valid_id(encode_utf8(reference.credential_id@)) && is_valid_id(encode_utf8(reference.file_id@)) && f.provider_of() == reference.provider
                    && f.file_id() == reference.file_id@ && f.credential() == reference.credential_id@
                    && f.cached() is None,
                Err(e) => !(is_valid_id(encode_utf8(reference.credential_id@)) && is_valid_id(encode_utf8(reference.file_id@))) && e == DriveError::InvalidInput,
            },
    {
        if !reference.validate() {
            return Err(DriveError::InvalidInput);
        }
        Ok(RemoteFile {
            provider: reference.provider,
            credential_id: reference.credential_id.clone(),
            id: reference.file_id.clone(),
            cache: None,
        })
    }

    /// The stored credential that reaches the file.
    pub fn credential_id(&self) -> (r: &str)
        ensures
            r@ == self.credential(),
    {
        self.credential_id.as_str()
    }

    /// The entity tag of the cached ciphertext, if any.
    pub fn cached_etag(&self) -> (r: Option<&str>)
        ensures
            match (r, self.cached()) {
                (Some(e), Some(c)) => e@ == c.0,
                (None, None) => true,
                _ => false,
            },
    {
        match &self.cache {
            Some((e, _)) => Some(e.as_str()),
            None => None,
        }
    }

    /// Where a read asks first.
    pub fn metadata_url(&self) -> (r: String)
        ensures
            r@ == metadata_url_of(self.provider_of(), self.file_id()),
    {
        proof {
            use_type_invariant(self);
            broadcast use vstd::utf8::group_utf8_lib;
        }
        match metadata_url(self.provider, self.id.as_str()) {
            Ok(u) => u,
            Err(_) => String::new(),
        }
    }

    /// The first step of a read, on the first metadata answer: an unchanged
    /// file is served from the cache; a changed one is downloaded as
    /// `download_of` says.
    pub fn begin_read(&self, m: &FileMetadata) -> (r: Result<ReadPlan, DriveError>)
        ensures
            match read_decision(self.provider_of(), self.file_id(), self.cached(), *m) {
                Err(e) => r == Err::<ReadPlan, DriveError>(e),
                Ok(None) => r matches Ok(ReadPlan::Cached(b)) && b@ == (self.cached()->0).1,
                Ok(Some((tag, url, authorized))) => r matches Ok(ReadPlan::Download { etag, url: u, authorized: a })
                    && etag@ == tag && u@ == url && a == authorized,
            },
    {
        proof {
            broadcast use vstd::utf8::group_utf8_lib;
        }
        let tag = file_etag(self.provider, m)?;
        if let Some((c, bytes)) = &self.cache {
            if same_text(c.as_str(), tag.as_str()) {
                return Ok(ReadPlan::Cached(bytes.clone()));
            }
        }
        match self.provider {
            Provider::GoogleDrive => {
                let rev = match non_empty_clone(&m.head_revision_id) {
                    Some(r) => r,
                    None => return Err(DriveError::InvalidResponse),
                };
                if !valid_id(rev.as_str()) {
                    return Err(DriveError::InvalidResponse);
                }
                let mut url = "https://www.googleapis.com/drive/v2/files/".to_owned();
                push_text(&mut url, self.id.as_str());
                push_text(&mut url, "?alt=media&revisionId=");
                push_text(&mut url, rev.as_str());
                Ok(ReadPlan::Download { etag: tag, url, authorized: true })
            },
            Provider::OneDrive => {
                let link = match non_empty_clone(&m.download_url) {
                    Some(u) => u,
                    None => return Err(DriveError::InvalidResponse),
                };
                match check_download_url(link.as_str()) {
                    Ok(()) => Ok(ReadPlan::Download { etag: tag, url: link, authorized: false }),
                    Err(e) => Err(e),
                }
            },
        }
    }

    /// The last step of a read, after the download and a second metadata
    /// answer: bytes without the vault signature are refused; a file whose
    /// tag moved meanwhile is a conflict; otherwise the ciphertext is cached
    /// at the tag it was read at and returned.
    pub fn finish_read(&mut self, etag: String, bytes: Vec<u8>, confirm: &FileMetadata) -> (r: Result<Vec<u8>, DriveError>)
        ensures
            final(self).provider_of() == old(self).provider_of(),
            final(self).file_id() == old(self).file_id(),
            final(self).credential() == old(self).credential(),
            match read_completion(old(self).provider_of(), old(self).cached(), etag@, bytes@, *confirm).0 {
                Ok(b) => r matches Ok(x) && x@ == b,
                Err(e) => r == Err::<Vec<u8>, DriveError>(e),
            },
            final(self).cached() == read_completion(old(self).provider_of(), old(self).cached(), etag@, bytes@, *confirm).1,
    {
        if !check_ciphertext(bytes.as_slice()) {
            return Err(DriveError::InvalidResponse);
        }
        let tag = file_etag(self.provider, confirm)?;
        if !same_text(tag.as_str(), etag.as_str()) {
            return Err(DriveError::Conflict);
        }
        let out = bytes.clone();
        proof {
            use_type_invariant(&*self);
        }
        self.cache = Some((etag, bytes));
        Ok(out)
    }

    /// The first step of a write: the bytes must be a vault file of at most
    /// `MAX_CIPHERTEXT` bytes, and the file must have been read, so that the
    /// upload is conditioned on the tag it was read at. Gives the upload URL
    /// and that tag.
    pub fn begin_write(&self, bytes: &[u8]) -> (r: Result<(String, String), DriveError>)
        ensures
            match write_plan(self.provider_of(), self.file_id(), self.cached(), bytes@) {
                Ok((url, condition)) => r matches Ok((u, c)) && u@ == url && c@ == condition,
                Err(e) => r == Err::<(String, String), DriveError>(e),
            },
    {
        if bytes.len() > MAX_CIPHERTEXT || !check_ciphertext(bytes) {
            return Err(DriveError::InvalidInput);
        }
        let tag = match &self.cache {
            Some((e, _)) => e.clone(),
            None => return Err(DriveError::Conflict),
        };
        let url = match self.provider {
            Provider::OneDrive => {
                let mut u = "https://graph.microsoft.com/v1.0/me/drive/items/".to_owned();
                push_text(&mut u, self.id.as_str());
                push_text(&mut u, "/content");
                u
            },
            Provider::GoogleDrive => {
                let mut u = "https://www.googleapis.com/upload/drive/v2/files/".to_owned();
                push_text(&mut u, self.id.as_str());
                push_text(&mut u, "?uploadType=media");
                u
            },
        };
        Ok((url, tag))
    }

    /// After an accepted upload the cached copy is dropped, so the next read
    /// fetches the revision the server committed rather than guessing it.
    pub fn finish_write(&mut self)
        ensures
            final(self).cached() is None,
            final(self).provider_of() == old(self).provider_of(),
            final(self).file_id() == old(self).file_id(),
            final(self).credential() == old(self).credential(),
    {
        proof {
            use_type_invariant(&*self);
        }
        self.cache = None;
    }
}


/// Metadata first: once a read has returned a file at some tag, a later
/// metadata answer showing the same tag serves those bytes from the cache,
/// with no download.
pub proof fn law_unchanged_file_is_not_downloaded_again(
    provider: Provider,
    id: Seq<char>,
    cached: Option<(Seq<char>, Seq<u8>)>,
    etag: Seq<char>,
    bytes: Seq<u8>,
    confirm: FileMetadata,
    later: FileMetadata,
)
    requires
        read_completion(provider, cached, etag, bytes, confirm).0 is Ok,
        etag_of(provider, later) == Ok::<Seq<char>, DriveError>(etag),
    ensures
        read_decision(provider, id, read_completion(provider, cached, etag, bytes, confirm).1, later) == Ok::<Option<(Seq<char>, Seq<char>, bool)>, DriveError>(None),
        read_completion(provider, cached, etag, bytes, confirm).1 == Some((etag, bytes)),
{
}

/// A read never returns bytes whose tag moved while they were downloaded,
/// and a failed read leaves the cache as it was.
pub proof fn law_moved_file_is_a_conflict(
    provider: Provider,
    cached: Option<(Seq<char>, Seq<u8>)>,
    etag: Seq<char>,
    bytes: Seq<u8>,
    confirm: FileMetadata,
)
    requires
        is_ciphertext(bytes),
        etag_of(provider, confirm) matches Ok(t) && t != etag,
    ensures
        read_completion(provider, cached, etag, bytes, confirm) == (Err::<Seq<u8>, DriveError>(DriveError::Conflict), cached),
{
}

/// A write after a read is conditioned on the tag the read returned the
/// file at; a file that was never read, or whose upload went through, is
/// not written without a fresh read.
pub proof fn law_write_is_conditioned_on_the_last_read(
    provider: Provider,
    id: Seq<char>,
    cached: Option<(Seq<char>, Seq<u8>)>,
    etag: Seq<char>,
    bytes: Seq<u8>,
    confirm: FileMetadata,
    data: Seq<u8>,
)
    requires
        read_completion(provider, cached, etag, bytes, confirm).0 is Ok,
        data.len() <= MAX_CIPHERTEXT,
        is_ciphertext(data),
    ensures
        write_plan(provider, id, read_completion(provider, cached, etag, bytes, confirm).1, data)
            == Ok::<(Seq<char>, Seq<char>), DriveError>((upload_url_of(provider, id), etag)),
        write_plan(provider, id, None, data) == Err::<(Seq<char>, Seq<char>), DriveError>(DriveError::Conflict),
{
}

/// What `Url::parse(url)` and then `query_pairs_mut().append_pair(key,
/// value)` give: the URL with the pair form-urlencoded onto its query.
pub uninterp spec fn with_query_pair(url: Seq<char>, key: Seq<char>, value: Seq<char>) -> Option<Seq<char>>;

/// `url::Url::parse`, `query_pairs_mut().append_pair`, and the URL's text.
#[verifier::external_body]
pub(crate) fn append_query_pair(url: &str, key: &str, value: &str) -> (r: Option<String>)
    ensures
        opt_view(r) == with_query_pair(url@, key@, value@),
{
    match url::Url::parse(url) {
        Ok(mut u) => {
            u.query_pairs_mut().append_pair(key, value);
            Some(u.into())
        },
        Err(_) => None,
    }
}

pub open spec fn then_pair(url: Option<Seq<char>>, key: Seq<char>, value: Seq<char>) -> Option<Seq<char>> {
    match url {
        Some(u) => with_query_pair(u, key, value),
        None => None,
    }
}

/// The first page of a folder's children.
pub open spec fn children_url_of(provider: Provider, folder: Seq<char>) -> Option<Seq<char>> {
    match provider {
        Provider::OneDrive => Some("https://graph.microsoft.com/v1.0/me/drive/items/"@ + folder
            + "/children?$top=200&$select=id,name,folder"@),
        Provider::GoogleDrive => then_pair(
            then_pair(
                with_query_pair("https://www.googleapis.com/drive/v2/files"@, "q"@, "'"@ + folder + "' in parents and trashed = false"@),
                "maxResults"@,
                "1000"@,
            ),
            "fields"@,
            "items(id,title,mimeType),nextPageToken"@,
        ),
    }
}

/// One page of a folder listing, as plain values: the `value` (OneDrive)
/// and `items` (Google Drive) arrays when present, and the
/// `@odata.nextLink` and `nextPageToken` texts when present.
pub struct ChildPage {
    pub value: Option<Vec<ItemFields>>,
    pub items: Option<Vec<ItemFields>>,
    pub next_link: Option<String>,
    pub next_page_token: Option<String>,
}

/// What the listing does next: read another page, or end.
pub enum ListStep {
    Fetch(String),
    Done(Result<Vec<Item>, DriveError>),
}

/// A folder listing in progress.
pub struct ChildListing {
    pub provider: Provider,
    pub first: String,
    pub pages: usize,
    pub found: Vec<Item>,
}

/// A listing reads at most this many pages.
pub const MAX_LIST_PAGES: usize = 100;

/// A listing holds at most this many items.
pub const MAX_LIST_ITEMS: usize = 10000;

pub open spec fn item_views(v: Seq<Item>) -> Seq<(Seq<char>, Seq<char>, bool)> {
    v.map_values(|i: Item| (i.id@, i.name@, i.folder))
}

/// The page's entries for the provider.
pub open spec fn page_fields(provider: Provider, page: ChildPage) -> Option<Seq<ItemFields>> {
    match (if provider == Provider::OneDrive { page.value } else { page.items }) {
        Some(v) => Some(v@),
        None => None,
    }
}

pub open spec fn all_items(provider: Provider, fs: Seq<ItemFields>) -> bool {
    forall|i: int| 0 <= i < fs.len() ==> (#[trigger] item_of(provider, fs[i])) is Some
}

/// The page has the provider's item array and every entry is a valid item.
pub open spec fn page_ok(provider: Provider, page: ChildPage) -> bool {
    match page_fields(provider, page) {
        Some(fs) => all_items(provider, fs),
        None => false,
    }
}

pub open spec fn parsed_items(provider: Provider, fs: Seq<ItemFields>) -> Seq<(Seq<char>, Seq<char>, bool)> {
    fs.map_values(|f: ItemFields| item_of(provider, f)->0)
}

/// Where the next page is, if the page names one: the OneDrive link as
/// given, or the first URL with Google Drive's page token added.
pub open spec fn next_of(provider: Provider, first: Seq<char>, page: ChildPage) -> Option<Option<Seq<char>>> {
    match provider {
        Provider::OneDrive => match page.next_link {
            Some(n) => Some(Some(n@)),
            None => None,
        },
        Provider::GoogleDrive => match page.next_page_token {
            Some(t) => Some(with_query_pair(first, "pageToken"@, t@)),
            None => None,
        },
    }
}

impl ChildListing {
    fn take_found(&mut self) -> (v: Vec<Item>)
        ensures
            v@ == old(self).found@,
            final(self).provider == old(self).provider,
            final(self).first == old(self).first,
    {
        let mut v: Vec<Item> = Vec::new();
        std::mem::swap(&mut v, &mut self.found);
        v
    }

    /// Starts listing a folder; gives the first URL to read.
    pub fn start(provider: Provider, folder: &str) -> (r: Result<(ChildListing, String), DriveError>)
        ensures
            !is_valid_id(utf8_of(folder)) ==> r == Err::<(ChildListing, String), DriveError>(DriveError::InvalidInput),
            is_valid_id(utf8_of(folder)) ==> match children_url_of(provider, folder@) {
                Some(u) => r matches Ok((l, url)) && url@ == u && l.first@ == u && l.provider == provider
                    && l.pages == 0 && l.found@.len() == 0,
                None => r == Err::<(ChildListing, String), DriveError>(DriveError::InvalidInput),
            },
    {
        if !valid_id(folder) {
            return Err(DriveError::InvalidInput);
        }
        let url = match provider {
            Provider::OneDrive => {
                let mut u = "https://graph.microsoft.com/v1.0/me/drive/items/".to_owned();
                push_text(&mut u, folder);
                push_text(&mut u, "/children?$top=200&$select=id,name,folder");
                u
            },
            Provider::GoogleDrive => {
                let mut query = "'".to_owned();
                push_text(&mut query, folder);
                push_text(&mut query, "' in parents and trashed = false");
                let u = match append_query_pair("https://www.googleapis.com/drive/v2/files", "q", query.as_str()) {
                    Some(u) => u,
                    None => return Err(DriveError::InvalidInput),
                };
                let u = match append_query_pair(u.as_str(), "maxResults", "1000") {
                    Some(u) => u,
                    None => return Err(DriveError::InvalidInput),
                };
                match append_query_pair(u.as_str(), "fields", "items(id,title,mimeType),nextPageToken") {
                    Some(u) => u,
                    None => return Err(DriveError::InvalidInput),
                }
            },
        };
        Ok((ChildListing { provider, first: url.clone(), pages: 0, found: Vec::new() }, url))
    }

    /// Takes in one page: its items are added; a page without the item
    /// array, with an invalid item, or past `MAX_LIST_ITEMS` items ends the
    /// listing as an invalid response, as does a next page beyond
    /// `MAX_LIST_PAGES`; without a next page the listing is done.
    pub fn on_page(&mut self, page: &ChildPage) -> (r: ListStep)
        ensures
            final(self).provider == old(self).provider,
            final(self).first@ == old(self).first@,
            !page_ok(old(self).provider, *page) ==> (r matches ListStep::Done(Err(e)) && e == DriveError::InvalidResponse),
            page_ok(old(self).provider, *page) ==> {
                let total = item_views(old(self).found@) + parsed_items(old(self).provider, page_fields(old(self).provider, *page)->0);
                if total.len() > MAX_LIST_ITEMS {
                    r matches ListStep::Done(Err(e)) && e == DriveError::InvalidResponse
                } else {
                    match next_of(old(self).provider, old(self).first@, *page) {
                        None => r matches ListStep::Done(Ok(v)) && item_views(v@) == total,
                        Some(None) => r matches ListStep::Done(Err(e)) && e == DriveError::InvalidResponse,
                        Some(Some(u)) => if old(self).pages + 1 >= MAX_LIST_PAGES {
                            r matches ListStep::Done(Err(e)) && e == DriveError::InvalidResponse
                        } else {
                            r matches ListStep::Fetch(x) && x@ == u && final(self).pages == old(self).pages + 1
                                && item_views(final(self).found@) == total
                        },
                    }
                }
            },
    {
        let fields = match self.provider {
            Provider::OneDrive => &page.value,
            Provider::GoogleDrive => &page.items,
        };
        let fields = match fields {
            Some(f) => f,
            None => return ListStep::Done(Err(DriveError::InvalidResponse)),
        };
        let ghost start = self.found@;
        let mut i: usize = 0;
        while i < fields.len()
            invariant
                i <= fields@.len(),
                self.provider == old(self).provider,
                self.first == old(self).first,
                self.pages == old(self).pages,
                page_fields(self.provider, *page) == Some(fields@),
                item_views(self.found@) == item_views(start) + parsed_items(self.provider, fields@.take(i as int)),
                forall|j: int| 0 <= j < i ==> (#[trigger] item_of(self.provider, fields@[j])) is Some,
            decreases fields@.len() - i,
        {
            let item = match Item::parse(self.provider, &fields[i]) {
                Ok(it) => it,
                Err(_) => {
                    assert(!all_items(self.provider, fields@));
                    return ListStep::Done(Err(DriveError::InvalidResponse));
                },
            };
            let ghost before = self.found@;
            self.found.push(item);
            proof {
                assert(fields@.take(i as int + 1).drop_last() =~= fields@.take(i as int));
                assert(item_views(self.found@) =~= item_views(before).push((item.id@, item.name@, item.folder)));
                assert(parsed_items(self.provider, fields@.take(i as int + 1)) =~= parsed_items(self.provider, fields@.take(i as int)).push(
                    item_of(self.provider, fields@[i as int])->0,
                ));
                assert(item_views(self.found@) =~= item_views(start) + parsed_items(self.provider, fields@.take(i as int + 1)));
            }
            i = i + 1;
        }
        assert(fields@.take(fields@.len() as int) =~= fields@);
        if self.found.len() > MAX_LIST_ITEMS {
            return ListStep::Done(Err(DriveError::InvalidResponse));
        }
        let next = match self.provider {
            Provider::OneDrive => match &page.next_link {
                Some(n) => n.clone(),
                None => return ListStep::Done(Ok(self.take_found())),
            },
            Provider::GoogleDrive => match &page.next_page_token {
                Some(t) => match append_query_pair(self.first.as_str(), "pageToken", t.as_str()) {
                    Some(u) => u,
                    None => return ListStep::Done(Err(DriveError::InvalidResponse)),
                },
                None => return ListStep::Done(Ok(self.take_found())),
            },
        };
        if self.pages >= MAX_LIST_PAGES - 1 {
            return ListStep::Done(Err(DriveError::InvalidResponse));
        }
        self.pages = self.pages + 1;
        ListStep::Fetch(next)
    }
}

/// A name a new vault file may have: 1 to 128 letters, digits, `-`, `_`
/// and `.`, ending in `.tarvault`.
pub open spec fn is_vault_file_name(name: Seq<u8>) -> bool {
    &&& 0 < name.len() <= 128
    &&& name.len() >= 9 && name.skip(name.len() - 9) == ".tarvault"@.map_values(|c: char| c as u8)
    &&& forall|i: int| 0 <= i < name.len() ==> (is_alnum(#[trigger] name[i]) || name[i] == 0x2d || name[i] == 0x5f || name[i] == 0x2e)
}

/// The checks before a new vault file is uploaded into a folder: a valid
/// folder ID, a vault file name, and a vault file of at most
/// `MAX_CIPHERTEXT` bytes.
pub fn check_create(folder: &str, name: &str, ciphertext: &[u8]) -> (r: Result<(), DriveError>)
    ensures
        r is Ok <==> (is_valid_id(utf8_of(folder)) && is_vault_file_name(utf8_of(name))
            && ciphertext@.len() <= MAX_CIPHERTEXT && is_ciphertext(ciphertext@)),
        r is Err ==> r == Err::<(), DriveError>(DriveError::InvalidInput),
{
    if !valid_id(folder) || ciphertext.len() > MAX_CIPHERTEXT || !check_ciphertext(ciphertext) {
        return Err(DriveError::InvalidInput);
    }
    let b = bytes_of(name);
    let n = b.len();
    if n == 0 || n > 128 || n < 9 {
        return Err(DriveError::InvalidInput);
    }
    let suffix: [u8; 9] = [0x2e, 0x74, 0x61, 0x72, 0x76, 0x61, 0x75, 0x6c, 0x74];
    proof {
        reveal_strlit(".tarvault");
        assert(".tarvault"@.map_values(|c: char| c as u8) =~= suffix@);
    }
    let tail = vstd::slice::slice_subrange(b, n - 9, n);
    if !same_bytes(tail, &suffix) {
        assert(tail@ =~= b@.skip(n - 9));
        return Err(DriveError::InvalidInput);
    }
    assert(tail@ =~= b@.skip(n - 9));
    let mut i: usize = 0;
    while i < n
        invariant
            i <= n,
            n == b@.len(),
            b@ == utf8_of(name),
            forall|j: int| 0 <= j < i ==> (is_alnum(#[trigger] b@[j]) || b@[j] == 0x2d || b@[j] == 0x5f || b@[j] == 0x2e),
        decreases n - i,
    {
        let c = b[i];
        if !(crate::text::ascii_alnum(c) || c == 0x2d || c == 0x5f || c == 0x2e) {
            return Err(DriveError::InvalidInput);
        }
        i = i + 1;
    }
    Ok(())
}

/// The reference to a file the drive created, once its ID is checked.
pub fn created_ref(provider: Provider, credential_id: &str, file_id: String) -> (r: Result<RemoteRef, DriveError>)
    ensures
        is_valid_id(encode_utf8(file_id@)) ==> (r matches Ok(f) && f.provider == provider
            && f.credential_id@ == credential_id@ && f.file_id@ == file_id@),
        !is_valid_id(encode_utf8(file_id@)) ==> r == Err::<RemoteRef, DriveError>(DriveError::InvalidResponse),
{
    proof {
        broadcast use vstd::utf8::group_utf8_lib;
    }
    if !valid_id(file_id.as_str()) {
        return Err(DriveError::InvalidResponse);
    }
    Ok(RemoteRef { provider, credential_id: credential_id.to_owned(), file_id })
}

} // verus!
