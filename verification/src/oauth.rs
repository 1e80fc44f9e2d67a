//! The OAuth flow of the Drive connections: random identifiers, PKCE, the
//! loopback redirect and the authorization URL, the one request line the
//! loopback server reads, and the token requests and answers. Listening,
//! opening the browser and the HTTP exchanges belong to the caller.
use crate::cloud::{
    callback, callback_outcome, chunk_id, chunk_name, credential_entry, endpoints, is_valid_id,
    remove_chunks, valid_id, CredentialHead,
    DriveError, Provider,
};
use crate::drive::{append_query_pair, then_pair, with_query_pair};
use crate::text::{bytes_of, chars_of, push_char, push_text, same_text, utf8_text};
use crate::vault::random_array;
use vstd::prelude::*;
use vstd::utf8::{decode_utf8, encode_utf8, valid_utf8};

verus! {

/// The URL-safe base64 alphabet: letters, digits, `-` and `_`.
pub open spec fn base64_url_char(n: int) -> char {
    if n < 26 {
        (0x41 + n) as char
    } else if n < 52 {
        (0x61 + n - 26) as char
    } else if n < 62 {
        (0x30 + n - 52) as char
    } else if n == 62 {
        '-'
    } else {
        '_'
    }
}

/// URL-safe base64 without padding: each three bytes become four
/// characters of six bits each; a last one or two bytes become two or three
/// characters, the spare low bits zero.
pub open spec fn base64_url(bytes: Seq<u8>) -> Seq<char>
    decreases bytes.len(),
{
    let b0 = bytes[0] as int;
    let b1 = bytes[1] as int;
    let b2 = bytes[2] as int;
    if bytes.len() == 0 {
        seq![]
    } else if bytes.len() == 1 {
        seq![base64_url_char(b0 / 4), base64_url_char((b0 % 4) * 16)]
    } else if bytes.len() == 2 {
        seq![base64_url_char(b0 / 4), base64_url_char((b0 % 4) * 16 + b1 / 16), base64_url_char((b1 % 16) * 4)]
    } else {
        seq![
            base64_url_char(b0 / 4),
            base64_url_char((b0 % 4) * 16 + b1 / 16),
            base64_url_char((b1 % 16) * 4 + b2 / 64),
            base64_url_char(b2 % 64),
        ] + base64_url(bytes.skip(3))
    }
}

/// A byte of the URL-safe base64 alphabet.
pub open spec fn is_base64_url_byte(b: u8) -> bool {
    (0x41 <= b <= 0x5a) || (0x61 <= b <= 0x7a) || (0x30 <= b <= 0x39) || b == 0x2d || b == 0x5f
}

/// `URL_SAFE_NO_PAD.encode` of the `base64` crate: the URL-safe alphabet
/// (letters, digits, `-` and `_`) and no padding, so `ceil(4n/3)`
/// characters for `n` bytes, as its documentation and `encoded_len` give.
#[verifier::external_body]
fn encode_base64_url(bytes: &[u8]) -> (r: String)
    requires
        bytes@.len() < 0x4000_0000,
    ensures
        r@ == base64_url(bytes@),
        encode_utf8(r@).len() == (4 * bytes@.len() + 2) / 3,
        forall|i: int| 0 <= i < encode_utf8(r@).len() ==> is_base64_url_byte(#[trigger] encode_utf8(r@)[i]),
{
    base64::Engine::encode(&base64::engine::general_purpose::URL_SAFE_NO_PAD, bytes)
}

/// The SHA-256 digest of the bytes.
pub uninterp spec fn sha256(bytes: Seq<u8>) -> Seq<u8>;

/// `sha2::Sha256::digest`: 32 bytes.
#[verifier::external_body]
fn sha256_digest(bytes: &[u8]) -> (r: Vec<u8>)
    ensures
        r@ == sha256(bytes@),
        r@.len() == 32,
{
    <sha2::Sha256 as sha2::Digest>::digest(bytes).to_vec()
}

/// A fresh random identifier: 32 bytes from the operating system's random
/// source, written in URL-safe base64 without padding.
pub fn random_id() -> (r: String)
    ensures
        is_valid_id(encode_utf8(r@)),
        encode_utf8(r@).len() == 43,
{
    let bytes = random_array::<32>();
    let r = encode_base64_url(&bytes);
    assert forall|i: int| 0 <= i < encode_utf8(r@).len() implies crate::cloud::is_id_byte(#[trigger] encode_utf8(r@)[i]) by {
        assert(is_base64_url_byte(encode_utf8(r@)[i]));
    }
    r
}

/// The PKCE challenge of a verifier: the URL-safe base64 of its SHA-256.
pub open spec fn challenge_of(verifier: Seq<char>) -> Seq<char> {
    base64_url(sha256(encode_utf8(verifier)))
}

/// The PKCE `S256` challenge that the authorization request carries.
pub fn pkce_challenge(verifier: &str) -> (r: String)
    ensures
        r@ == challenge_of(verifier@),
{
    proof {
        broadcast use vstd::utf8::group_utf8_lib;
    }
    let digest = sha256_digest(bytes_of(verifier));
    encode_base64_url(digest.as_slice())
}

/// The loopback redirect: Google Drive is sent to `127.0.0.1`, OneDrive to
/// `localhost`, on the port the listener got.
pub open spec fn redirect_of(provider: Provider, port: u16) -> Seq<char> {
    "http://"@ + (if provider == Provider::GoogleDrive { "127.0.0.1"@ } else { "localhost"@ }) + seq![':']
        + crate::form::decimal(port as nat) + seq!['/']
}

pub fn redirect_uri(provider: Provider, port: u16) -> (r: String)
    ensures
        r@ == redirect_of(provider, port),
{
    proof {
        reveal_strlit("http://");
        reveal_strlit("127.0.0.1");
        reveal_strlit("localhost");
    }
    let mut r = "http://".to_owned();
    match provider {
        Provider::GoogleDrive => push_text(&mut r, "127.0.0.1"),
        Provider::OneDrive => push_text(&mut r, "localhost"),
    }
    push_char(&mut r, ':');
    let p = crate::form::format_u64(port as u64);
    push_text(&mut r, p.as_str());
    push_char(&mut r, '/');
    r
}

pub open spec fn client_of(provider: Provider) -> Seq<char> {
    match provider {
        Provider::OneDrive => "18435542-f783-44d8-9c63-c92e18bb46cb"@,
        Provider::GoogleDrive => "60346833173-iu18a5o5ki37208rijd998e0gltihrvj.apps.googleusercontent.com"@,
    }
}

pub open spec fn authorize_endpoint(provider: Provider) -> Seq<char> {
    match provider {
        Provider::OneDrive => "https://login.microsoftonline.com/common/oauth2/v2.0/authorize"@,
        Provider::GoogleDrive => "https://accounts.google.com/o/oauth2/v2/auth"@,
    }
}

pub open spec fn scope_of(provider: Provider) -> Seq<char> {
    match provider {
        Provider::OneDrive => "offline_access Files.ReadWrite"@,
        Provider::GoogleDrive => "https://www.googleapis.com/auth/drive.file"@,
    }
}

/// The query of the authorization request: the client, redirect, code
/// flow, scope, state, the PKCE challenge and a consent prompt; Google
/// Drive adds offline access and its one-file picker.
pub open spec fn authorize_pairs(provider: Provider, redirect: Seq<char>, state: Seq<char>, challenge: Seq<char>) -> Seq<(Seq<char>, Seq<char>)> {
    seq![
        ("client_id"@, client_of(provider)),
        ("redirect_uri"@, redirect),
        ("response_type"@, "code"@),
        ("scope"@, scope_of(provider)),
        ("state"@, state),
        ("code_challenge"@, challenge),
        ("code_challenge_method"@, "S256"@),
        ("prompt"@, "consent"@),
    ] + if provider == Provider::GoogleDrive {
        seq![
            ("access_type"@, "offline"@),
            ("trigger_onepick"@, "true"@),
            ("allow_folder_selection"@, "true"@),
            ("allow_multiple"@, "false"@),
        ]
    } else {
        seq![]
    }
}

/// The URL with the pairs appended to its query in order.
pub open spec fn with_pairs(url: Option<Seq<char>>, pairs: Seq<(Seq<char>, Seq<char>)>) -> Option<Seq<char>>
    decreases pairs.len(),
{
    if pairs.len() == 0 {
        url
    } else {
        then_pair(with_pairs(url, pairs.drop_last()), pairs.last().0, pairs.last().1)
    }
}

fn append_pairs(url: String, pairs: &Vec<(&str, &str)>) -> (r: Option<String>)
    ensures
        match (r, with_pairs(Some(url@), pairs@.map_values(|p: (&str, &str)| (p.0@, p.1@)))) {
            (Some(a), Some(b)) => a@ == b,
            (None, None) => true,
            _ => false,
        },
{
    let ghost ps = pairs@.map_values(|p: (&str, &str)| (p.0@, p.1@));
    let mut cur = url;
    let mut i: usize = 0;
    while i < pairs.len()
        invariant
            i <= pairs@.len(),
            ps == pairs@.map_values(|p: (&str, &str)| (p.0@, p.1@)),
            with_pairs(Some(url@), ps.take(i as int)) == Some(cur@),
        decreases pairs@.len() - i,
    {
        assert(ps.take(i as int + 1).drop_last() =~= ps.take(i as int));
        let (k, v) = pairs[i];
        match append_query_pair(cur.as_str(), k, v) {
            Some(next) => cur = next,
            None => {
                proof {
                    lemma_with_pairs_none(Some(url@), ps, i as int + 1);
                    assert(ps.take(ps.len() as int) =~= ps);
                }
                return None;
            },
        }
        i = i + 1;
    }
    assert(ps.take(ps.len() as int) =~= ps);
    Some(cur)
}

/// Once appending fails, the rest of the pairs cannot repair it.
proof fn lemma_with_pairs_none(url: Option<Seq<char>>, ps: Seq<(Seq<char>, Seq<char>)>, n: int)
    requires
        0 <= n <= ps.len(),
        with_pairs(url, ps.take(n)) is None,
    ensures
        with_pairs(url, ps) is None,
    decreases ps.len() - n,
{
    if n < ps.len() {
        assert(ps.take(n + 1).drop_last() =~= ps.take(n));
        lemma_with_pairs_none(url, ps, n + 1);
    } else {
        assert(ps.take(n) =~= ps);
    }
}

/// The URL the browser is sent to for consent.
pub fn authorize_url(provider: Provider, redirect: &str, state: &str, challenge: &str) -> (r: Result<String, DriveError>)
    ensures
        match with_pairs(Some(authorize_endpoint(provider)), authorize_pairs(provider, redirect@, state@, challenge@)) {
            Some(u) => r matches Ok(s) && s@ == u,
            None => r == Err::<String, DriveError>(DriveError::Authorization),
        },
{
    let (client, endpoint, _, scope) = endpoints(provider);
    let mut pairs: Vec<(&str, &str)> = Vec::new();
    pairs.push(("client_id", client));
    pairs.push(("redirect_uri", redirect));
    pairs.push(("response_type", "code"));
    pairs.push(("scope", scope));
    pairs.push(("state", state));
    pairs.push(("code_challenge", challenge));
    pairs.push(("code_challenge_method", "S256"));
    pairs.push(("prompt", "consent"));
    match provider {
        Provider::GoogleDrive => {
            pairs.push(("access_type", "offline"));
            pairs.push(("trigger_onepick", "true"));
            pairs.push(("allow_folder_selection", "true"));
            pairs.push(("allow_multiple", "false"));
        },
        Provider::OneDrive => {},
    }
    assert(pairs@.map_values(|p: (&str, &str)| (p.0@, p.1@)) =~= authorize_pairs(provider, redirect@, state@, challenge@));
    match append_pairs(endpoint.to_owned(), &pairs) {
        Some(u) => Ok(u),
        None => Err(DriveError::Authorization),
    }
}

/// The fields of the request that trades an authorization code for
/// tokens; Google Drive's also carry the client secret.
pub open spec fn code_fields_of(provider: Provider, code: Seq<char>, redirect: Seq<char>, verifier: Seq<char>, secret: Seq<char>) -> Seq<(Seq<char>, Seq<char>)> {
    seq![
        ("client_id"@, client_of(provider)),
        ("grant_type"@, "authorization_code"@),
        ("code"@, code),
        ("redirect_uri"@, redirect),
        ("code_verifier"@, verifier),
    ] + if provider == Provider::GoogleDrive {
        seq![("client_secret"@, secret)]
    } else {
        seq![]
    }
}

pub open spec fn field_views(v: Seq<(String, String)>) -> Seq<(Seq<char>, Seq<char>)> {
    v.map_values(|p: (String, String)| (p.0@, p.1@))
}

pub fn code_fields(provider: Provider, code: &str, redirect: &str, verifier: &str, secret: &str) -> (r: Vec<(String, String)>)
    ensures
        field_views(r@) == code_fields_of(provider, code@, redirect@, verifier@, secret@),
{
    let (client, _, _, _) = endpoints(provider);
    let mut v: Vec<(String, String)> = Vec::new();
    v.push(("client_id".to_owned(), client.to_owned()));
    v.push(("grant_type".to_owned(), "authorization_code".to_owned()));
    v.push(("code".to_owned(), code.to_owned()));
    v.push(("redirect_uri".to_owned(), redirect.to_owned()));
    v.push(("code_verifier".to_owned(), verifier.to_owned()));
    match provider {
        Provider::GoogleDrive => v.push(("client_secret".to_owned(), secret.to_owned())),
        Provider::OneDrive => {},
    }
    assert(field_views(v@) =~= code_fields_of(provider, code@, redirect@, verifier@, secret@));
    v
}

/// The fields of the request that trades a refresh token for an access
/// token; Google Drive's also carry the client secret.
pub open spec fn refresh_fields_of(provider: Provider, refresh: Seq<char>, secret: Seq<char>) -> Seq<(Seq<char>, Seq<char>)> {
    seq![
        ("client_id"@, client_of(provider)),
        ("grant_type"@, "refresh_token"@),
        ("refresh_token"@, refresh),
    ] + if provider == Provider::GoogleDrive {
        seq![("client_secret"@, secret)]
    } else {
        seq![]
    }
}

pub fn refresh_fields(provider: Provider, refresh: &str, secret: &str) -> (r: Vec<(String, String)>)
    ensures
        field_views(r@) == refresh_fields_of(provider, refresh@, secret@),
{
    let (client, _, _, _) = endpoints(provider);
    let mut v: Vec<(String, String)> = Vec::new();
    v.push(("client_id".to_owned(), client.to_owned()));
    v.push(("grant_type".to_owned(), "refresh_token".to_owned()));
    v.push(("refresh_token".to_owned(), refresh.to_owned()));
    match provider {
        Provider::GoogleDrive => v.push(("client_secret".to_owned(), secret.to_owned())),
        Provider::OneDrive => {},
    }
    assert(field_views(v@) =~= refresh_fields_of(provider, refresh@, secret@));
    v
}

/// An ASCII letter folded to lower case.
pub open spec fn ascii_lower(b: u8) -> u8 {
    if 0x41 <= b <= 0x5a { (b + 0x20) as u8 } else { b }
}

/// A token answer the client accepts: a bearer token (the type compared
/// without regard to ASCII case) that is not empty.
pub open spec fn tokens_usable(token_type: Seq<u8>, access_token: Seq<u8>) -> bool {
    &&& token_type.len() == 6
    &&& forall|i: int| 0 <= i < 6 ==> ascii_lower(#[trigger] token_type[i]) == "bearer"@.map_values(|c: char| c as u8)[i]
    &&& access_token.len() > 0
}

/// The check of a token answer.
pub fn check_tokens(token_type: &str, access_token: &str) -> (r: Result<(), DriveError>)
    ensures
        r is Ok <==> tokens_usable(crate::text::utf8_of(token_type), crate::text::utf8_of(access_token)),
        r is Err ==> r == Err::<(), DriveError>(DriveError::Authorization),
{
    proof {
        reveal_strlit("bearer");
    }
    let t = bytes_of(token_type);
    let expected: [u8; 6] = [0x62, 0x65, 0x61, 0x72, 0x65, 0x72];
    assert("bearer"@.map_values(|c: char| c as u8) =~= expected@);
    if t.len() != 6 || bytes_of(access_token).len() == 0 {
        return Err(DriveError::Authorization);
    }
    let mut i: usize = 0;
    while i < 6
        invariant
            i <= 6,
            t@.len() == 6,
            t@ == crate::text::utf8_of(token_type),
            "bearer"@.map_values(|c: char| c as u8) == expected@,
            forall|j: int| 0 <= j < i ==> ascii_lower(#[trigger] t@[j]) == expected@[j],
        decreases 6 - i,
    {
        let b = t[i];
        let lower = if 0x41 <= b && b <= 0x5a { b + 0x20 } else { b };
        if lower != expected[i] {
            return Err(DriveError::Authorization);
        }
        i = i + 1;
    }
    Ok(())
}

/// Unicode white space, as `char::is_whitespace` and `str::split_whitespace`
/// use it.
pub open spec fn is_space(c: char) -> bool {
    let n = c as u32;
    ||| (0x09 <= n <= 0x0d)
    ||| n == 0x20
    ||| n == 0x85
    ||| n == 0xa0
    ||| n == 0x1680
    ||| (0x2000 <= n <= 0x200a)
    ||| n == 0x2028
    ||| n == 0x2029
    ||| n == 0x202f
    ||| n == 0x205f
    ||| n == 0x3000
}

pub(crate) fn space(c: char) -> (r: bool)
    ensures
        r == is_space(c),
{
    let n = c as u32;
    (0x09 <= n && n <= 0x0d) || n == 0x20 || n == 0x85 || n == 0xa0 || n == 0x1680 || (0x2000 <= n && n <= 0x200a)
        || n == 0x2028 || n == 0x2029 || n == 0x202f || n == 0x205f || n == 0x3000
}

/// The first position at or after `i` that is not white space.
pub open spec fn skip_spaces(s: Seq<char>, i: int) -> int
    decreases s.len() - i,
{
    if 0 <= i < s.len() && is_space(s[i]) {
        skip_spaces(s, i + 1)
    } else {
        i
    }
}

/// The first position at or after `i` that is white space (or the end).
pub open spec fn word_end(s: Seq<char>, i: int) -> int
    decreases s.len() - i,
{
    if 0 <= i < s.len() && !is_space(s[i]) {
        word_end(s, i + 1)
    } else {
        i
    }
}

/// The word that begins at the first non-space position at or after `i`,
/// and the position after it; none when only white space remains.
pub open spec fn word_from(s: Seq<char>, i: int) -> Option<(Seq<char>, int)> {
    let a = skip_spaces(s, i);
    if a >= s.len() {
        None
    } else {
        Some((s.subrange(a, word_end(s, a)), word_end(s, a)))
    }
}

pub(crate) fn skip_spaces_exec(v: &Vec<char>, start: usize) -> (r: usize)
    requires
        start <= v@.len(),
    ensures
        r as int == skip_spaces(v@, start as int),
        start <= r <= v@.len(),
{
    let mut i = start;
    while i < v.len() && space(v[i])
        invariant
            start <= i <= v@.len(),
            skip_spaces(v@, start as int) == skip_spaces(v@, i as int),
        decreases v@.len() - i,
    {
        i = i + 1;
    }
    i
}

fn word_end_exec(v: &Vec<char>, start: usize) -> (r: usize)
    requires
        start <= v@.len(),
    ensures
        r as int == word_end(v@, start as int),
        start <= r <= v@.len(),
{
    let mut i = start;
    while i < v.len() && !space(v[i])
        invariant
            start <= i <= v@.len(),
            word_end(v@, start as int) == word_end(v@, i as int),
        decreases v@.len() - i,
    {
        i = i + 1;
    }
    i
}

/// What the loopback server makes of the request it read: text that is
/// not UTF-8, or a first word other than `GET`, is refused; the second
/// word (empty if there is none) is the request target that the callback
/// check judges.
pub open spec fn request_outcome(request: Seq<u8>, state: Seq<char>) -> Result<(Seq<char>, Option<Seq<char>>), DriveError> {
    if !valid_utf8(request) {
        Err(DriveError::Authorization)
    } else {
        let s = decode_utf8(request);
        match word_from(s, 0) {
            Some((w, end)) => if w == "GET"@ {
                match word_from(s, end) {
                    Some((target, _)) => callback_outcome(target, state),
                    None => callback_outcome(seq![], state),
                }
            } else {
                Err(DriveError::Authorization)
            },
            None => Err(DriveError::Authorization),
        }
    }
}

/// Judges the request line the loopback server read.
pub fn loopback_request(request: &[u8], state: &str) -> (r: Result<(String, Option<String>), DriveError>)
    ensures
        match request_outcome(request@, state@) {
            Ok((code, picked)) => r matches Ok((c, p)) && c@ == code && crate::cloud::opt_view(p) == picked,
            Err(e) => r == Err::<(String, Option<String>), DriveError>(e),
        },
{
    proof {
        reveal_strlit("GET");
        reveal_strlit("");
    }
    let line = match utf8_text(request) {
        Some(l) => l,
        None => return Err(DriveError::Authorization),
    };
    let v = chars_of(line);
    let a = skip_spaces_exec(&v, 0);
    if a >= v.len() {
        return Err(DriveError::Authorization);
    }
    let b = word_end_exec(&v, a);
    let first = crate::text::string_of_range(&v, a, b);
    if !same_text(first.as_str(), "GET") {
        return Err(DriveError::Authorization);
    }
    let c = skip_spaces_exec(&v, b);
    if c >= v.len() {
        assert(seq![] =~= ""@);
        return callback("", state);
    }
    let d = word_end_exec(&v, c);
    let target = crate::text::string_of_range(&v, c, d);
    callback(target.as_str(), state)
}

/// The loopback server's answer: success or a bad request, with no
/// content beyond a pointer back to the application.
pub fn callback_reply(accepted: bool) -> (r: &'static str)
    ensures
        accepted ==> r@ == "HTTP/1.1 200 OK\r\nContent-Type: text/plain\r\nCache-Control: no-store\r\nContent-Security-Policy: default-src 'none'\r\nConnection: close\r\n\r\nReturn to TAR Vault Sync. No credentials are displayed here."@,
        !accepted ==> r@ == "HTTP/1.1 400 Bad Request\r\nContent-Type: text/plain\r\nCache-Control: no-store\r\nContent-Security-Policy: default-src 'none'\r\nConnection: close\r\n\r\nReturn to TAR Vault Sync. No credentials are displayed here."@,
{
    if accepted {
        "HTTP/1.1 200 OK\r\nContent-Type: text/plain\r\nCache-Control: no-store\r\nContent-Security-Policy: default-src 'none'\r\nConnection: close\r\n\r\nReturn to TAR Vault Sync. No credentials are displayed here."
    } else {
        "HTTP/1.1 400 Bad Request\r\nContent-Type: text/plain\r\nCache-Control: no-store\r\nContent-Security-Policy: default-src 'none'\r\nConnection: close\r\n\r\nReturn to TAR Vault Sync. No credentials are displayed here."
    }
}

/// The largest credential the store keeps.
pub const MAX_CREDENTIAL_BYTES: usize = 65536;

/// The size of one stored chunk: some platforms limit a credential blob to
/// 2560 bytes.
pub const CHUNK_BYTES: usize = 2000;

/// The head stored under the credential's own ID, as JSON.
pub open spec fn head_text_of(generation: Seq<char>, chunks: nat) -> Seq<char> {
    "{\"generation\":\""@ + generation + "\",\"chunks\":"@ + crate::form::decimal(chunks) + "}"@
}

/// The head as the store keeps it; the generation is an ID, so it needs no
/// escaping in JSON.
pub fn head_text(head: &CredentialHead) -> (r: String)
    ensures
        r@ == head_text_of(head.generation@, head.chunks as nat),
{
    let mut r = "{\"generation\":\"".to_owned();
    push_text(&mut r, head.generation.as_str());
    push_text(&mut r, "\",\"chunks\":");
    let n = crate::form::format_u64(head.chunks as u64);
    push_text(&mut r, n.as_str());
    push_text(&mut r, "}");
    r
}

/// How many chunks hold `n` bytes.
pub open spec fn chunk_count(n: nat) -> nat {
    ((n + 1999) / 2000) as nat
}

/// Chunk `index` of an encoded credential: `CHUNK_BYTES` bytes from
/// `index * CHUNK_BYTES`, the last chunk shorter.
pub open spec fn chunk_bytes(encoded: Seq<u8>, index: int) -> Seq<u8> {
    encoded.subrange(
        index * 2000,
        if (index + 1) * 2000 < encoded.len() { (index + 1) * 2000 } else { encoded.len() as int },
    )
}

/// What a new generation hands to the credential store, in order: chunk
/// `i` of the encoded credential under the name `{id}-{generation}-{i}`.
pub fn generation_chunks(id: &str, next: &CredentialHead, encoded: &[u8]) -> (r: Vec<(String, Vec<u8>)>)
    requires
        next.chunks == chunk_count(encoded@.len() as nat),
        encoded@.len() <= MAX_CREDENTIAL_BYTES,
    ensures
        r@.len() == next.chunks,
        forall|i: int| 0 <= i < r@.len() ==> (#[trigger] r@[i]).0@ == chunk_name(id@, next.generation@, i as nat)
            && r@[i].1@ == chunk_bytes(encoded@, i),
{
    let n = encoded.len();
    let mut plan: Vec<(String, Vec<u8>)> = Vec::new();
    let mut index: usize = 0;
    while index < next.chunks
        invariant
            index <= next.chunks,
            next.chunks == chunk_count(n as nat),
            n == encoded@.len(),
            n <= MAX_CREDENTIAL_BYTES,
            plan@.len() == index,
            forall|i: int| 0 <= i < index ==> (#[trigger] plan@[i]).0@ == chunk_name(id@, next.generation@, i as nat)
                && plan@[i].1@ == chunk_bytes(encoded@, i),
        decreases next.chunks - index,
    {
        let from = index * CHUNK_BYTES;
        let to = if from + CHUNK_BYTES < n { from + CHUNK_BYTES } else { n };
        assert(from < n) by (nonlinear_arith)
            requires
                index < next.chunks,
                next.chunks == (n + 1999) / 2000,
                from == index * 2000,
        ;
        let name = chunk_id(id, next, index);
        let bytes = vstd::slice::slice_to_vec(vstd::slice::slice_subrange(encoded, from, to));
        assert(bytes@ == chunk_bytes(encoded@, index as int));
        plan.push((name, bytes));
        index = index + 1;
    }
    plan
}

/// Writes the chunks of a new generation, then its head, which is the
/// commit point.
fn write_generation(id: &str, next: &CredentialHead, encoded: &[u8]) -> (r: Result<(), DriveError>)
    requires
        next.chunks == chunk_count(encoded@.len() as nat),
        encoded@.len() <= MAX_CREDENTIAL_BYTES,
    ensures
        r matches Err(e) ==> e == DriveError::InvalidInput || e == DriveError::CredentialStore,
        r is Ok ==> is_valid_id(crate::text::utf8_of(id)),
{
    let plan = generation_chunks(id, next, encoded);
    let mut index: usize = 0;
    while index < plan.len()
        invariant
            index <= plan@.len(),
        decreases plan@.len() - index,
    {
        let entry = credential_entry(plan[index].0.as_str())?;
        if !entry.set_secret(plan[index].1.as_slice()) {
            return Err(DriveError::CredentialStore);
        }
        index = index + 1;
    }
    let entry = credential_entry(id)?;
    let text = head_text(next);
    if !entry.set_password(text.as_str()) {
        return Err(DriveError::CredentialStore);
    }
    Ok(())
}

/// Which generation's chunks are removed once a new generation was
/// written: after a failed write the new one, so that the previous
/// generation stays the readable one; after the committed write the
/// previous one, if there was one.
pub fn cleanup_generation<'a>(committed: bool, next: &'a CredentialHead, previous: Option<&'a CredentialHead>) -> (r: Option<&'a CredentialHead>)
    ensures
        !committed ==> r == Some(next),
        committed ==> r == previous,
{
    if committed {
        previous
    } else {
        Some(next)
    }
}

/// Appends one chunk read back from the store: a chunk over `CHUNK_BYTES`
/// bytes is a credential-store failure and leaves the bytes as they were.
pub fn append_chunk(bytes: &mut Vec<u8>, chunk: &[u8]) -> (r: Result<(), DriveError>)
    ensures
        chunk@.len() > CHUNK_BYTES ==> r == Err::<(), DriveError>(DriveError::CredentialStore) && final(bytes)@ == old(bytes)@,
        chunk@.len() <= CHUNK_BYTES ==> r is Ok && final(bytes)@ == old(bytes)@ + chunk@,
{
    if chunk.len() > CHUNK_BYTES {
        return Err(DriveError::CredentialStore);
    }
    let mut i: usize = 0;
    let ghost earlier = bytes@;
    while i < chunk.len()
        invariant
            i <= chunk@.len(),
            bytes@ == earlier + chunk@.subrange(0, i as int),
        decreases chunk@.len() - i,
    {
        bytes.push(chunk[i]);
        i = i + 1;
        proof {
            assert(chunk@.subrange(0, i as int) =~= chunk@.subrange(0, i - 1) + seq![chunk@[i - 1]]);
        }
    }
    assert(chunk@.subrange(0, chunk@.len() as int) =~= chunk@);
    Ok(())
}

/// Stores an encoded credential under `id` as a new generation of chunks.
/// A failed write removes the new chunks and leaves the previous
/// generation readable; a committed one removes the previous chunks.
pub fn save(id: &str, encoded: &[u8], previous: Option<&CredentialHead>) -> (r: Result<(), DriveError>)
    ensures
        encoded@.len() > MAX_CREDENTIAL_BYTES ==> r == Err::<(), DriveError>(DriveError::CredentialStore),
        r matches Err(e) ==> e == DriveError::InvalidInput || e == DriveError::CredentialStore,
        r is Ok ==> is_valid_id(crate::text::utf8_of(id)),
{
    if encoded.len() > MAX_CREDENTIAL_BYTES {
        return Err(DriveError::CredentialStore);
    }
    let next = CredentialHead { generation: random_id(), chunks: (encoded.len() + 1999) / 2000 };
    let write = write_generation(id, &next, encoded);
    let committed = write.is_ok();
    match cleanup_generation(committed, &next, previous) {
        Some(old) => remove_chunks(id, old)?,
        None => {},
    }
    if !committed {
        return write;
    }
    Ok(())
}

/// Reads back the chunks a head names, in order. Without a head there is
/// nothing to authorize with; a chunk over `CHUNK_BYTES` bytes, or one the
/// store cannot give, is a credential-store failure.
pub fn read_credential(id: &str, head: Option<&CredentialHead>) -> (r: Result<Vec<u8>, DriveError>)
    ensures
        head is None ==> r == Err::<Vec<u8>, DriveError>(DriveError::Authorization),
        (head matches Some(h) && h.chunks == 0) ==> (r matches Ok(b) && b@.len() == 0),
        r matches Err(e) ==> e == DriveError::Authorization || e == DriveError::InvalidInput
            || e == DriveError::CredentialStore,
        r matches Ok(b) ==> head matches Some(h) && b@.len() <= CHUNK_BYTES * h.chunks
            && exists|parts: Seq<Seq<u8>>| #![trigger parts.flatten_alt()]
                parts.len() == h.chunks && b@ == parts.flatten_alt()
                && forall|i: int| 0 <= i < parts.len() ==> #[trigger] parts[i].len() <= CHUNK_BYTES,
{
    let h = match head {
        Some(h) => h,
        None => return Err(DriveError::Authorization),
    };
    let mut bytes: Vec<u8> = Vec::new();
    let mut index: usize = 0;
    let ghost mut parts: Seq<Seq<u8>> = seq![];
    while index < h.chunks
        invariant
            head == Some(h),
            index <= h.chunks,
            bytes@.len() <= CHUNK_BYTES * index,
            parts.len() == index,
            bytes@ == parts.flatten_alt(),
            forall|i: int| 0 <= i < parts.len() ==> #[trigger] parts[i].len() <= CHUNK_BYTES,
        decreases h.chunks - index,
    {
        let name = chunk_id(id, h, index);
        let entry = credential_entry(name.as_str())?;
        let chunk = match entry.get_secret() {
            Some(c) => c,
            None => return Err(DriveError::CredentialStore),
        };
        let ghost before = bytes@.len();
        append_chunk(&mut bytes, chunk.as_slice())?;
        proof {
            assert(parts.push(chunk@).drop_last() =~= parts);
            parts = parts.push(chunk@);
        }
        assert(bytes@.len() <= CHUNK_BYTES * (index + 1)) by (nonlinear_arith)
            requires
                bytes@.len() <= before + CHUNK_BYTES,
                before <= CHUNK_BYTES * index,
        ;
        index = index + 1;
    }
    Ok(bytes)
}

/// An uppercase hexadecimal digit.
pub open spec fn hex_upper(n: int) -> char {
    if n < 10 {
        (0x30 + n) as char
    } else {
        (0x41 + n - 10) as char
    }
}

/// How the form encoding writes one byte: letters, digits, `*`, `-`, `.`
/// and `_` as they are, a space as `+`, any other byte as `%` and two
/// uppercase hexadecimal digits.
pub open spec fn form_byte(b: u8) -> Seq<char> {
    if crate::text::is_alnum(b) || b == 0x2a || b == 0x2d || b == 0x2e || b == 0x5f {
        seq![b as char]
    } else if b == 0x20 {
        seq!['+']
    } else {
        seq!['%', hex_upper(b as int / 16), hex_upper(b as int % 16)]
    }
}

/// The form encoding of bytes, byte by byte.
pub open spec fn form_bytes(b: Seq<u8>) -> Seq<char>
    decreases b.len(),
{
    if b.len() == 0 {
        seq![]
    } else {
        form_bytes(b.drop_last()) + form_byte(b.last())
    }
}

/// One pair: the encoded UTF-8 name, `=`, the encoded UTF-8 value.
pub open spec fn form_pair(p: (Seq<char>, Seq<char>)) -> Seq<char> {
    form_bytes(encode_utf8(p.0)) + seq!['='] + form_bytes(encode_utf8(p.1))
}

/// What `url::form_urlencoded::Serializer` writes for the pairs, in order:
/// each pair encoded, the pairs joined by `&`.
pub open spec fn form_urlencoded(pairs: Seq<(Seq<char>, Seq<char>)>) -> Seq<char>
    decreases pairs.len(),
{
    if pairs.len() == 0 {
        seq![]
    } else if pairs.len() == 1 {
        form_pair(pairs[0])
    } else {
        form_urlencoded(pairs.drop_last()) + seq!['&'] + form_pair(pairs.last())
    }
}

/// `form_urlencoded::Serializer::new(String::new())`, `extend_pairs`,
/// `finish`: the body of a token request.
#[verifier::external_body]
fn token_request_body(fields: &Vec<(String, String)>) -> (r: String)
    ensures
        r@ == form_urlencoded(field_views(fields@)),
{
    url::form_urlencoded::Serializer::new(String::new())
        .extend_pairs(fields.iter().map(|(k, v)| (k.as_str(), v.as_str())))
        .finish()
}

/// The form body that trades an authorization code for tokens.
pub fn code_request_body(provider: Provider, code: &str, redirect: &str, verifier: &str, secret: &str) -> (r: String)
    ensures
        r@ == form_urlencoded(code_fields_of(provider, code@, redirect@, verifier@, secret@)),
{
    token_request_body(&code_fields(provider, code, redirect, verifier, secret))
}

/// The form body that trades a refresh token for an access token.
pub fn refresh_request_body(provider: Provider, refresh: &str, secret: &str) -> (r: String)
    ensures
        r@ == form_urlencoded(refresh_fields_of(provider, refresh@, secret@)),
{
    token_request_body(&refresh_fields(provider, refresh, secret))
}

/// The value of the first pair named `name`.
pub open spec fn field_value(pairs: Seq<(Seq<char>, Seq<char>)>, name: Seq<char>) -> Option<Seq<char>>
    decreases pairs.len(),
{
    if pairs.len() == 0 {
        None
    } else if pairs[0].0 == name {
        Some(pairs[0].1)
    } else {
        field_value(pairs.skip(1), name)
    }
}

proof fn lemma_field_at(pairs: Seq<(Seq<char>, Seq<char>)>, name: Seq<char>, k: int)
    requires
        0 <= k < pairs.len(),
        pairs[k].0 == name,
        forall|j: int| 0 <= j < k ==> pairs[j].0 != name,
    ensures
        field_value(pairs, name) == Some(pairs[k].1),
    decreases k,
{
    if k > 0 {
        lemma_field_at(pairs.skip(1), name, k - 1);
    }
}

/// PKCE ties the code exchange to the authorization request: the verifier
/// the exchange sends is the one whose challenge the authorization URL
/// carried, the code sent is the code received, and the redirect URI is the
/// one the authorization request named.
pub proof fn law_code_exchange_proves_the_challenge(
    provider: Provider,
    code: Seq<char>,
    redirect: Seq<char>,
    state: Seq<char>,
    verifier: Seq<char>,
    secret: Seq<char>,
)
    ensures
        field_value(code_fields_of(provider, code, redirect, verifier, secret), "code_verifier"@) == Some(verifier),
        field_value(authorize_pairs(provider, redirect, state, challenge_of(verifier)), "code_challenge"@)
            == Some(challenge_of(verifier)),
        field_value(code_fields_of(provider, code, redirect, verifier, secret), "code"@) == Some(code),
        field_value(code_fields_of(provider, code, redirect, verifier, secret), "redirect_uri"@)
            == field_value(authorize_pairs(provider, redirect, state, challenge_of(verifier)), "redirect_uri"@),
{
    reveal_strlit("client_id");
    reveal_strlit("grant_type");
    reveal_strlit("code");
    reveal_strlit("redirect_uri");
    reveal_strlit("code_verifier");
    reveal_strlit("response_type");
    reveal_strlit("scope");
    reveal_strlit("state");
    reveal_strlit("code_challenge");
    let f = code_fields_of(provider, code, redirect, verifier, secret);
    let a = authorize_pairs(provider, redirect, state, challenge_of(verifier));
    assert(f[0].0 == "client_id"@ && f[1].0 == "grant_type"@ && f[2].0 == "code"@ && f[3].0 == "redirect_uri"@
        && f[4].0 == "code_verifier"@);
    assert(a[0].0 == "client_id"@ && a[1].0 == "redirect_uri"@ && a[2].0 == "response_type"@ && a[3].0 == "scope"@
        && a[4].0 == "state"@ && a[5].0 == "code_challenge"@);
    assert(f[2].1 == code && f[3].1 == redirect && f[4].1 == verifier);
    assert(a[1].1 == redirect && a[5].1 == challenge_of(verifier));
    assert("client_id"@.len() == 9 && "grant_type"@.len() == 10 && "code"@.len() == 4 && "redirect_uri"@.len() == 12
        && "code_verifier"@.len() == 13 && "response_type"@.len() == 13 && "scope"@.len() == 5 && "state"@.len() == 5
        && "code_challenge"@.len() == 14);
    assert("client_id"@ != "redirect_uri"@);
    lemma_field_at(f, "code_verifier"@, 4);
    lemma_field_at(f, "code"@, 2);
    lemma_field_at(f, "redirect_uri"@, 3);
    lemma_field_at(a, "code_challenge"@, 5);
    lemma_field_at(a, "redirect_uri"@, 1);
}

} // verus!
