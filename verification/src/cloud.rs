//! The rules for remote sources: Azure Key Vault references, versions and
//! paging; Drive references, items and download links; and the checks of the
//! OAuth loopback callback and the stored credential head.
use crate::domain::{ErrorCategory, SourceRef, SourceVersion, StoreKind};
use crate::text::{
    ascii_alnum, ascii_alpha, ascii_control, ascii_hex_digit, bytes_of, is_alnum, is_alpha,
    is_control, is_hex_digit, push_char, push_text, same_text, utf8_of,
};
use crate::vault::VaultError;
use vstd::prelude::*;
use vstd::utf8::encode_utf8;

verus! {

/// What a URL parser reports of a URL: scheme, host, explicit port, port or
/// the scheme's default, path, username, and whether a password and a
/// fragment are present.
pub struct UrlParts {
    pub scheme: String,
    pub host: Option<String>,
    pub port: Option<u16>,
    pub known_port: Option<u16>,
    pub path: String,
    pub username: String,
    pub has_password: bool,
    pub has_fragment: bool,
}

pub open spec fn opt_view(o: Option<String>) -> Option<Seq<char>> {
    match o {
        Some(s) => Some(s@),
        None => None,
    }
}

/// The parts of a URL as plain values.
pub open spec fn url_parts_view(p: UrlParts) -> (Seq<char>, Option<Seq<char>>, Option<u16>, Option<u16>, Seq<char>, Seq<char>, bool, bool) {
    (p.scheme@, opt_view(p.host), p.port, p.known_port, p.path@, p.username@, p.has_password, p.has_fragment)
}

/// What `url::Url::parse` makes of a text, reported part by part; `None`
/// when it refuses the text.
pub uninterp spec fn parsed_url(s: Seq<char>) -> Option<(Seq<char>, Option<Seq<char>>, Option<u16>, Option<u16>, Seq<char>, Seq<char>, bool, bool)>;

/// The query pairs, percent-decoded, of the URL a text parses to.
pub uninterp spec fn parsed_query(s: Seq<char>) -> Option<Seq<(Seq<char>, Seq<char>)>>;

/// `url::Url::parse`, then its accessors `scheme`, `host_str`, `port`,
/// `port_or_known_default`, `path`, `username`, `password` and `fragment`.
/// The parts are a function of the text alone.
#[verifier::external_body]
pub(crate) fn parse_url(s: &str) -> (r: Option<UrlParts>)
    ensures
        match (r, parsed_url(s@)) {
            (Some(p), Some(t)) => url_parts_view(p) == t,
            (None, None) => true,
            _ => false,
        },
{
    match url::Url::parse(s) {
        Ok(u) => Some(UrlParts {
            scheme: u.scheme().to_owned(),
            host: u.host_str().map(str::to_owned),
            port: u.port(),
            known_port: u.port_or_known_default(),
            path: u.path().to_owned(),
            username: u.username().to_owned(),
            has_password: u.password().is_some(),
            has_fragment: u.fragment().is_some(),
        }),
        Err(_) => None,
    }
}

pub open spec fn pairs_view(v: Seq<(String, String)>) -> Seq<(Seq<char>, Seq<char>)> {
    v.map_values(|p: (String, String)| (p.0@, p.1@))
}

/// `url::Url::parse`, then `query_pairs`, each pair decoded to owned text.
#[verifier::external_body]
fn query_pairs(s: &str) -> (r: Option<Vec<(String, String)>>)
    ensures
        match (r, parsed_query(s@)) {
            (Some(v), Some(t)) => pairs_view(v@) == t,
            (None, None) => true,
            _ => false,
        },
{
    match url::Url::parse(s) {
        Ok(u) => Some(u.query_pairs().map(|(k, v)| (k.into_owned(), v.into_owned())).collect()),
        Err(_) => None,
    }
}

/// A byte of a vault name or secret name: a letter, digit or `-`.
pub open spec fn is_name_byte(b: u8) -> bool {
    is_alnum(b) || b == 0x2d
}

/// A Key Vault name: 3 to 24 letters, digits and single dashes, starting
/// with a letter and ending with a letter or digit.
pub open spec fn is_valid_vault_name(c: Seq<u8>) -> bool {
    &&& 3 <= c.len() <= 24
    &&& is_alpha(c[0])
    &&& is_alnum(c[c.len() - 1])
    &&& forall|i: int| 0 <= i < c.len() - 1 ==> !(#[trigger] c[i] == 0x2d && c[i + 1] == 0x2d)
    &&& forall|i: int| 0 <= i < c.len() ==> is_name_byte(#[trigger] c[i])
}

/// An Azure reference: a valid vault name and a secret name of 1 to 127
/// letters, digits and dashes.
pub open spec fn is_valid_azure_source(s: SourceRef) -> bool {
    let e = encode_utf8(s.entry@);
    &&& s.store == StoreKind::Azure
    &&& is_valid_vault_name(encode_utf8(s.connection@))
    &&& 1 <= e.len() <= 127
    &&& forall|i: int| 0 <= i < e.len() ==> is_name_byte(#[trigger] e[i])
}

fn name_bytes(b: &[u8]) -> (r: bool)
    ensures
        r == forall|i: int| 0 <= i < b@.len() ==> is_name_byte(#[trigger] b@[i]),
{
    let mut i: usize = 0;
    while i < b.len()
        invariant
            i <= b@.len(),
            forall|j: int| 0 <= j < i ==> is_name_byte(#[trigger] b@[j]),
        decreases b@.len() - i,
    {
        if !(ascii_alnum(b[i]) || b[i] == 0x2d) {
            assert(!is_name_byte(b@[i as int]));
            return false;
        }
        i = i + 1;
    }
    true
}

/// Checks a Key Vault name.
pub fn valid_vault_name(name: &str) -> (r: bool)
    ensures
        r == is_valid_vault_name(encode_utf8(name@)),
{
    let c = bytes_of(name);
    proof {
        broadcast use vstd::utf8::group_utf8_lib;
        assert(c@ == encode_utf8(name@));
    }
    if c.len() < 3 || c.len() > 24 || !ascii_alpha(c[0]) || !ascii_alnum(c[c.len() - 1]) {
        return false;
    }
    let mut i: usize = 0;
    while i < c.len() && i + 1 < c.len()
        invariant
            c@.len() >= 3,
            i + 1 <= c@.len(),
            c@ == encode_utf8(name@),
            forall|j: int| 0 <= j < i ==> !(#[trigger] c@[j] == 0x2d && c@[j + 1] == 0x2d),
        decreases c@.len() - i,
    {
        if c[i] == 0x2d && c[i + 1] == 0x2d {
            assert(c@[i as int] == 0x2d && c@[i + 1] == 0x2d);
            return false;
        }
        i = i + 1;
    }
    name_bytes(c)
}

pub fn valid_source(source: &SourceRef) -> (r: bool)
    ensures
        r == is_valid_azure_source(*source),
{
    match source.store {
        StoreKind::Azure => {},
        _ => return false,
    }
    let e = bytes_of(source.entry.as_str());
    proof {
        broadcast use vstd::utf8::group_utf8_lib;
        assert(e@ == encode_utf8(source.entry@));
    }
    valid_vault_name(source.connection.as_str()) && e.len() >= 1 && e.len() <= 127 && name_bytes(e)
}

/// ASCII lowercase of one character.
pub open spec fn lower(c: char) -> char {
    if 'A' <= c <= 'Z' {
        ((c as u32) + 32) as char
    } else {
        c
    }
}

/// `https://{vault}.vault.azure.net/secrets/{secret}` with the vault name in
/// lowercase.
pub open spec fn azure_base(s: SourceRef) -> Seq<char> {
    "https://"@ + s.connection@.map_values(|c: char| lower(c)) + ".vault.azure.net/secrets/"@ + s.entry@
}

pub fn base_url(source: &SourceRef) -> (r: Result<String, ErrorCategory>)
    ensures
        is_valid_azure_source(*source) ==> (r matches Ok(u) && u@ == azure_base(*source)),
        !is_valid_azure_source(*source) ==> r == Err::<String, ErrorCategory>(ErrorCategory::InvalidConfig),
{
    if !valid_source(source) {
        return Err(ErrorCategory::InvalidConfig);
    }
    let mut out = String::new();
    push_text(&mut out, "https://");
    let ghost start = out@;
    let cs = crate::text::chars_of(source.connection.as_str());
    let mut i: usize = 0;
    while i < cs.len()
        invariant
            i <= cs@.len(),
            cs@ == source.connection@,
            out@ == start + cs@.take(i as int).map_values(|c: char| lower(c)),
        decreases cs@.len() - i,
    {
        let c = cs[i];
        let l = if 'A' <= c && c <= 'Z' { ((c as u32) + 32) as u8 as char } else { c };
        assert(l == lower(c)) by {
            if 'A' <= c <= 'Z' {
                assert((c as u32 + 32) < 256);
            }
        }
        push_char(&mut out, l);
        assert(cs@.take(i as int + 1).map_values(|c: char| lower(c)) =~= cs@.take(i as int).map_values(|c: char| lower(c)).push(l));
        i = i + 1;
    }
    assert(cs@.take(cs@.len() as int) =~= cs@);
    push_text(&mut out, ".vault.azure.net/secrets/");
    push_text(&mut out, source.entry.as_str());
    proof {
        reveal_strlit("https://");
        reveal_strlit(".vault.azure.net/secrets/");
    }
    assert(out@ =~= azure_base(*source));
    Ok(out)
}

/// An Azure version: 32 hexadecimal digits.
pub open spec fn is_valid_azure_version(v: Seq<u8>) -> bool {
    v.len() == 32 && forall|i: int| 0 <= i < v.len() ==> is_hex_digit(#[trigger] v[i])
}

pub fn valid_version(version: &str) -> (r: bool)
    ensures
        r == is_valid_azure_version(utf8_of(version)),
{
    let b = bytes_of(version);
    if b.len() != 32 {
        return false;
    }
    let mut i: usize = 0;
    while i < b.len()
        invariant
            i <= b@.len(),
            b@ == utf8_of(version),
            b@.len() == 32,
            forall|j: int| 0 <= j < i ==> is_hex_digit(#[trigger] b@[j]),
        decreases b@.len() - i,
    {
        if !ascii_hex_digit(b[i]) {
            assert(!is_hex_digit(b@[i as int]));
            return false;
        }
        i = i + 1;
    }
    true
}

/// The version named by an item ID under `base`: the ID is `{base}/{version}`.
pub open spec fn version_in_id(base: Seq<char>, id: Seq<char>) -> Option<Seq<char>> {
    let prefix = base.push('/');
    if id.len() >= prefix.len() && id.take(prefix.len() as int) == prefix
        && is_valid_azure_version(encode_utf8(id.skip(prefix.len() as int))) {
        Some(id.skip(prefix.len() as int))
    } else {
        None
    }
}

pub fn version_from_id(base: &str, id: &str) -> (r: Result<String, ErrorCategory>)
    ensures
        match version_in_id(base@, id@) {
            Some(v) => r matches Ok(s) && s@ == v,
            None => r == Err::<String, ErrorCategory>(ErrorCategory::VersionConflict),
        },
{
    let b = crate::text::chars_of(base);
    let d = crate::text::chars_of(id);
    let n = b.len();
    if d.len() <= n {
        return Err(ErrorCategory::VersionConflict);
    }
    let ghost prefix = base@.push('/');
    let mut i: usize = 0;
    while i < n
        invariant
            i <= n,
            n == b@.len(),
            b@ == base@,
            prefix == base@.push('/'),
            d@ == id@,
            d@.len() >= n + 1,
            forall|j: int| 0 <= j < i ==> d@[j] == b@[j],
        decreases n - i,
    {
        if d[i] != b[i] {
            assert(id@.take(prefix.len() as int)[i as int] != prefix[i as int]);
            return Err(ErrorCategory::VersionConflict);
        }
        i = i + 1;
    }
    if d[n] != '/' {
        assert(id@.take(prefix.len() as int)[n as int] != prefix[n as int]);
        return Err(ErrorCategory::VersionConflict);
    }
    assert(id@.take(prefix.len() as int) =~= prefix);
    let mut v = String::new();
    let mut k: usize = n + 1;
    while k < d.len()
        invariant
            n + 1 <= k <= d@.len(),
            d@ == id@,
            v@ == d@.subrange(n as int + 1, k as int),
        decreases d@.len() - k,
    {
        push_char(&mut v, d[k]);
        assert(v@ =~= d@.subrange(n as int + 1, k as int + 1));
        k = k + 1;
    }
    assert(v@ =~= id@.skip(n as int + 1));
    if !valid_version(v.as_str()) {
        return Err(ErrorCategory::VersionConflict);
    }
    Ok(v)
}

/// The attributes Azure reports for a secret version.
#[derive(Clone, Copy, Debug, PartialEq, Eq, Structural)]
pub struct Attributes {
    pub created: u64,
    pub enabled: bool,
    pub exp: Option<u64>,
    pub nbf: Option<u64>,
}

/// Enabled, not expired, and already valid at `now`.
pub open spec fn is_usable(a: Attributes, now: u64) -> bool {
    &&& a.enabled
    &&& match a.exp {
        Some(exp) => now < exp,
        None => true,
    }
    &&& match a.nbf {
        Some(nbf) => now >= nbf,
        None => true,
    }
}

impl Attributes {
    pub fn usable(&self, now: u64) -> (r: bool)
        ensures
            r == is_usable(*self, now),
    {
        self.enabled && match self.exp {
            Some(exp) => now < exp,
            None => true,
        } && match self.nbf {
            Some(nbf) => now >= nbf,
            None => true,
        }
    }
}

/// A next-page link must stay on the same host, port 443 and versions path,
/// over https, without credentials or fragment.
pub open spec fn is_trusted_next(base: Seq<char>, next: Seq<char>) -> bool {
    match (parsed_url(base + "/versions"@), parsed_url(next)) {
        (Some(e), Some(u)) => {
            &&& u.0 == "https"@
            &&& u.1 == e.1
            &&& u.3 == Some(443u16)
            &&& u.4 == e.4
            &&& u.5.len() == 0
            &&& !u.6
            &&& !u.7
        },
        _ => false,
    }
}

pub fn checked_next(base: &str, next: &str) -> (r: Result<(), ErrorCategory>)
    ensures
        r is Ok <==> is_trusted_next(base@, next@),
        r is Err ==> r == Err::<(), ErrorCategory>(ErrorCategory::Source),
{
    let mut expected_text = base.to_owned();
    push_text(&mut expected_text, "/versions");
    proof {
        reveal_strlit("/versions");
        reveal_strlit("https");
    }
    let expected = match parse_url(expected_text.as_str()) {
        Some(p) => p,
        None => return Err(ErrorCategory::Source),
    };
    let url = match parse_url(next) {
        Some(p) => p,
        None => return Err(ErrorCategory::Source),
    };
    let same_host = match (&url.host, &expected.host) {
        (Some(a), Some(b)) => same_text(a.as_str(), b.as_str()),
        (None, None) => true,
        _ => false,
    };
    let port_ok = match url.known_port {
        Some(p) => p == 443,
        None => false,
    };
    if !same_text(url.scheme.as_str(), "https") || !same_host || !port_ok
        || !same_text(url.path.as_str(), expected.path.as_str())
        || bytes_of(url.username.as_str()).len() != 0 || url.has_password || url.has_fragment {
        return Err(ErrorCategory::Source);
    }
    Ok(())
}


/// The end of `s[..j]` once trailing white space is dropped.
pub open spec fn trim_end_at(s: Seq<char>, j: int) -> int
    decreases j,
{
    if 0 < j <= s.len() && crate::oauth::is_space(s[j - 1]) {
        trim_end_at(s, j - 1)
    } else {
        j
    }
}

/// `str::trim`: the text without leading or trailing white space.
pub open spec fn trimmed(s: Seq<char>) -> Seq<char> {
    let a = crate::oauth::skip_spaces(s, 0);
    let e = trim_end_at(s, s.len() as int);
    if a >= e {
        seq![]
    } else {
        s.subrange(a, e)
    }
}

/// A character an access token may not hold: ASCII white space or a
/// control character.
pub open spec fn is_token_breaker(c: char) -> bool {
    (c as u32) <= 0x20 || (c as u32) == 0x7f
}

/// The `Authorization` header made from what the Azure CLI printed: its
/// text, trimmed, must be a non-empty token without white space or control
/// characters; anything else means the sign-in is unusable.
pub open spec fn bearer_of(output: Seq<u8>) -> Option<Seq<char>> {
    if !vstd::utf8::valid_utf8(output) {
        None
    } else {
        let t = trimmed(vstd::utf8::decode_utf8(output));
        if t.len() == 0 || exists|i: int| 0 <= i < t.len() && is_token_breaker(#[trigger] t[i]) {
            None
        } else {
            Some("Bearer "@ + t)
        }
    }
}

fn trim_end_exec(v: &Vec<char>, end: usize) -> (r: usize)
    requires
        end <= v@.len(),
    ensures
        r as int == trim_end_at(v@, end as int),
        r <= end,
{
    let mut j = end;
    while j > 0 && crate::oauth::space(v[j - 1])
        invariant
            j <= end <= v@.len(),
            trim_end_at(v@, end as int) == trim_end_at(v@, j as int),
        decreases j,
    {
        j = j - 1;
    }
    j
}

/// The bearer header for the token the Azure CLI printed.
pub fn bearer_header(output: &[u8]) -> (r: Result<String, ErrorCategory>)
    ensures
        match bearer_of(output@) {
            Some(h) => r matches Ok(s) && s@ == h,
            None => r == Err::<String, ErrorCategory>(ErrorCategory::Unauthorized),
        },
{
    proof {
        reveal_strlit("Bearer ");
    }
    let text = match crate::text::utf8_text(output) {
        Some(t) => t,
        None => return Err(ErrorCategory::Unauthorized),
    };
    let v = crate::text::chars_of(text);
    let a = crate::oauth::skip_spaces_exec(&v, 0);
    let e = trim_end_exec(&v, v.len());
    if a >= e {
        return Err(ErrorCategory::Unauthorized);
    }
    let mut i = a;
    while i < e
        invariant
            a <= i <= e <= v@.len(),
            a as int == crate::oauth::skip_spaces(v@, 0),
            e as int == trim_end_at(v@, v@.len() as int),
            vstd::utf8::valid_utf8(output@),
            v@ == vstd::utf8::decode_utf8(output@),
            forall|k: int| a <= k < i ==> !is_token_breaker(#[trigger] v@[k]),
        decreases e - i,
    {
        let n = v[i] as u32;
        if n <= 0x20 || n == 0x7f {
            proof {
                let t = trimmed(v@);
                assert(t =~= v@.subrange(a as int, e as int));
                assert(t[i - a] == v@[i as int]);
                assert(is_token_breaker(t[i - a]));
            }
            return Err(ErrorCategory::Unauthorized);
        }
        i = i + 1;
    }
    let token = crate::text::string_of_range(&v, a, e);
    let mut header = "Bearer ".to_owned();
    push_text(&mut header, token.as_str());
    proof {
        let t = trimmed(v@);
        assert(t =~= v@.subrange(a as int, e as int));
        assert forall|k: int| 0 <= k < t.len() implies !is_token_breaker(#[trigger] t[k]) by {
            assert(t[k] == v@[a + k]);
        }
    }
    Ok(header)
}

/// One version listed on a page.
pub struct VersionItem {
    pub id: String,
    pub attributes: Attributes,
}

/// One page of the version listing.
pub struct VersionPage {
    pub value: Vec<VersionItem>,
    pub next_link: Option<String>,
}

/// What the version listing has shown so far: the newest item, whether
/// another item shares its creation time, and the pages already read.
pub struct VersionScan {
    pub latest: Option<(String, Attributes)>,
    pub ambiguous: bool,
    pub seen: Vec<String>,
}

/// The item that becomes newest after seeing `item`, and the new ambiguity.
pub open spec fn scan_item(latest: Option<(Seq<char>, Attributes)>, ambiguous: bool, id: Seq<char>, a: Attributes) -> (Option<(Seq<char>, Attributes)>, bool) {
    match latest {
        Some(old) => if a.created < old.1.created {
            (latest, ambiguous)
        } else if a.created == old.1.created {
            (latest, ambiguous || id != old.0)
        } else {
            (Some((id, a)), false)
        },
        None => (Some((id, a)), false),
    }
}

pub open spec fn latest_view(l: Option<(String, Attributes)>) -> Option<(Seq<char>, Attributes)> {
    match l {
        Some(p) => Some((p.0@, p.1)),
        None => None,
    }
}

/// Folding the items of a page into the scan.
pub open spec fn scan_items(latest: Option<(Seq<char>, Attributes)>, ambiguous: bool, items: Seq<VersionItem>) -> (Option<(Seq<char>, Attributes)>, bool)
    decreases items.len(),
{
    if items.len() == 0 {
        (latest, ambiguous)
    } else {
        let prev = scan_items(latest, ambiguous, items.drop_last());
        scan_item(prev.0, prev.1, items.last().id@, items.last().attributes)
    }
}

/// The listing reads at most this many pages.
pub const MAX_PAGES: usize = 100;

impl VersionScan {
    pub fn new() -> (s: Self)
        ensures
            s.latest is None,
            !s.ambiguous,
            s.seen@.len() == 0,
    {
        VersionScan { latest: None, ambiguous: false, seen: Vec::new() }
    }

    /// Records that `url` is about to be read: refused when it was read
    /// before, which would loop, or when the page limit is reached.
    pub fn visit(&mut self, url: &str) -> (r: Result<(), ErrorCategory>)
        ensures
            r is Ok <==> (old(self).seen@.len() < MAX_PAGES && !crate::ledger::has_name(old(self).seen@, url@)),
            r is Err ==> r == Err::<(), ErrorCategory>(ErrorCategory::Source) && *final(self) == *old(self),
            r is Ok ==> final(self).seen@.drop_last() == old(self).seen@ && final(self).seen@.len() == old(self).seen@.len() + 1
                && final(self).seen@.last()@ == url@
                && final(self).latest == old(self).latest && final(self).ambiguous == old(self).ambiguous,
    {
        if self.seen.len() >= MAX_PAGES || crate::ledger::name_position(&self.seen, url).is_some() {
            return Err(ErrorCategory::Source);
        }
        self.seen.push(url.to_owned());
        Ok(())
    }

    /// Folds one page's items into the scan; every item must carry a valid
    /// version of this secret.
    pub fn scan_page(&mut self, base: &str, page: &VersionPage) -> (r: Result<(), ErrorCategory>)
        ensures
            (forall|i: int| 0 <= i < page.value@.len() ==> #[trigger] version_in_id(base@, page.value@[i].id@) is Some)
                ==> (r is Ok && (latest_view(final(self).latest), final(self).ambiguous)
                    == scan_items(latest_view(old(self).latest), old(self).ambiguous, page.value@)),
            !(forall|i: int| 0 <= i < page.value@.len() ==> #[trigger] version_in_id(base@, page.value@[i].id@) is Some)
                ==> r == Err::<(), ErrorCategory>(ErrorCategory::VersionConflict),
            final(self).seen@ == old(self).seen@,
    {
        let ghost l0 = latest_view(self.latest);
        let ghost a0 = self.ambiguous;
        let mut i: usize = 0;
        while i < page.value.len()
            invariant
                i <= page.value@.len(),
                self.seen@ == old(self).seen@,
                l0 == latest_view(old(self).latest),
                a0 == old(self).ambiguous,
                forall|j: int| 0 <= j < i ==> #[trigger] version_in_id(base@, page.value@[j].id@) is Some,
                (latest_view(self.latest), self.ambiguous) == scan_items(l0, a0, page.value@.take(i as int)),
            decreases page.value@.len() - i,
        {
            let item = &page.value[i];
            match version_from_id(base, item.id.as_str()) {
                Ok(_) => {},
                Err(e) => return Err(e),
            }
            assert(page.value@.take(i as int + 1).drop_last() =~= page.value@.take(i as int));
            let created = item.attributes.created;
            match &self.latest {
                Some(old) => {
                    if created < old.1.created {
                    } else if created == old.1.created {
                        if !same_text(item.id.as_str(), old.0.as_str()) {
                            self.ambiguous = true;
                        }
                    } else {
                        self.latest = Some((item.id.clone(), item.attributes));
                        self.ambiguous = false;
                    }
                },
                None => {
                    self.latest = Some((item.id.clone(), item.attributes));
                    self.ambiguous = false;
                },
            }
            i = i + 1;
        }
        assert(page.value@.take(page.value@.len() as int) =~= page.value@);
        Ok(())
    }

    /// The answer once the last page has been read: the newest version,
    /// refused when none was listed, when two versions share the newest
    /// creation time, or when the newest is not usable at `now`.
    pub fn finish(&self, base: &str, now: u64) -> (r: Result<SourceVersion, ErrorCategory>)
        ensures
            match latest_view(self.latest) {
                None => r == Err::<SourceVersion, ErrorCategory>(ErrorCategory::Source),
                Some(l) => if self.ambiguous {
                    r == Err::<SourceVersion, ErrorCategory>(ErrorCategory::VersionConflict)
                } else if !is_usable(l.1, now) {
                    r == Err::<SourceVersion, ErrorCategory>(ErrorCategory::Source)
                } else {
                    match version_in_id(base@, l.0) {
                        Some(v) => r matches Ok(sv) && sv.0@ == v,
                        None => r == Err::<SourceVersion, ErrorCategory>(ErrorCategory::VersionConflict),
                    }
                },
            },
    {
        match &self.latest {
            None => Err(ErrorCategory::Source),
            Some(l) => {
                if self.ambiguous {
                    return Err(ErrorCategory::VersionConflict);
                }
                if !l.1.usable(now) {
                    return Err(ErrorCategory::Source);
                }
                match version_from_id(base, l.0.as_str()) {
                    Ok(v) => Ok(SourceVersion(v)),
                    Err(e) => Err(e),
                }
            },
        }
    }
}

/// What the version lookup asks of its caller next: fetch a page, or take
/// the answer.
pub enum LookupStep {
    Fetch(String),
    Done(Result<SourceVersion, ErrorCategory>),
}

/// The metadata-only lookup of a secret's current version, one page at a
/// time; the caller fetches and decodes each page it is asked for.
pub struct VersionLookup {
    pub base: String,
    pub scan: VersionScan,
}

impl VersionLookup {
    /// Starts a lookup: the reference must be valid, and the first page is
    /// the version listing of the secret.
    pub fn start(source: &SourceRef) -> (r: Result<(VersionLookup, String), ErrorCategory>)
        ensures
            !is_valid_azure_source(*source) ==> r == Err::<(VersionLookup, String), ErrorCategory>(ErrorCategory::InvalidConfig),
            is_valid_azure_source(*source) ==> (r matches Ok((l, url)) && l.base@ == azure_base(*source)
                && url@ == azure_base(*source) + "/versions?api-version=2025-07-01&maxresults=25"@
                && l.scan.latest is None && !l.scan.ambiguous && l.scan.seen@.len() == 1 && l.scan.seen@[0]@ == url@),
    {
        let base = match base_url(source) {
            Ok(b) => b,
            Err(e) => return Err(e),
        };
        let url = versions_url(base.as_str());
        let mut scan = VersionScan::new();
        match scan.visit(url.as_str()) {
            Ok(()) => {},
            Err(e) => return Err(e),
        }
        Ok((VersionLookup { base, scan }, url))
    }

    /// Takes in one fetched page: its items are folded into the scan; a next
    /// link is followed only when it is trusted and new, and the last page
    /// gives the answer at time `now`.
    pub fn on_page(&mut self, page: &VersionPage, now: u64) -> (r: LookupStep)
        ensures
            final(self).base@ == old(self).base@,
            !(forall|i: int| 0 <= i < page.value@.len() ==> #[trigger] version_in_id(old(self).base@, page.value@[i].id@) is Some)
                ==> r matches LookupStep::Done(Err(ErrorCategory::VersionConflict)),
            (forall|i: int| 0 <= i < page.value@.len() ==> #[trigger] version_in_id(old(self).base@, page.value@[i].id@) is Some) ==> {
                &&& (latest_view(final(self).scan.latest), final(self).scan.ambiguous)
                    == scan_items(latest_view(old(self).scan.latest), old(self).scan.ambiguous, page.value@)
                &&& match page.next_link {
                    Some(next) => if !is_trusted_next(old(self).base@, next@) {
                        r matches LookupStep::Done(Err(ErrorCategory::Source))
                    } else if old(self).scan.seen@.len() >= MAX_PAGES || crate::ledger::has_name(old(self).scan.seen@, next@) {
                        r matches LookupStep::Done(Err(ErrorCategory::Source))
                    } else {
                        r matches LookupStep::Fetch(u) && u@ == next@
                    },
                    None => match latest_view(final(self).scan.latest) {
                        None => r matches LookupStep::Done(Err(ErrorCategory::Source)),
                        Some(l) => if final(self).scan.ambiguous {
                            r matches LookupStep::Done(Err(ErrorCategory::VersionConflict))
                        } else if !is_usable(l.1, now) {
                            r matches LookupStep::Done(Err(ErrorCategory::Source))
                        } else {
                            match version_in_id(old(self).base@, l.0) {
                                Some(v) => r matches LookupStep::Done(Ok(sv)) && sv.0@ == v,
                                None => r matches LookupStep::Done(Err(ErrorCategory::VersionConflict)),
                            }
                        },
                    },
                }
            },
    {
        match self.scan.scan_page(self.base.as_str(), page) {
            Ok(()) => {},
            Err(e) => return LookupStep::Done(Err(e)),
        }
        match &page.next_link {
            Some(next) => {
                match checked_next(self.base.as_str(), next.as_str()) {
                    Ok(()) => {},
                    Err(e) => return LookupStep::Done(Err(e)),
                }
                match self.scan.visit(next.as_str()) {
                    Ok(()) => LookupStep::Fetch(next.clone()),
                    Err(e) => LookupStep::Done(Err(e)),
                }
            },
            None => LookupStep::Done(self.scan.finish(self.base.as_str(), now)),
        }
    }
}

/// The check of a fetched secret value: its ID must name exactly the
/// requested version, and the version must be usable now.
pub fn check_secret_response(base: &str, version: &SourceVersion, id: &str, attributes: &Attributes, now: u64) -> (r: Result<(), ErrorCategory>)
    ensures
        match version_in_id(base@, id@) {
            None => r == Err::<(), ErrorCategory>(ErrorCategory::VersionConflict),
            Some(v) => if v != version.0@ {
                r == Err::<(), ErrorCategory>(ErrorCategory::VersionConflict)
            } else if !is_usable(*attributes, now) {
                r == Err::<(), ErrorCategory>(ErrorCategory::Source)
            } else {
                r is Ok
            },
        },
{
    match version_from_id(base, id) {
        Err(e) => Err(e),
        Ok(v) => {
            if !same_text(v.as_str(), version.0.as_str()) {
                return Err(ErrorCategory::VersionConflict);
            }
            if !attributes.usable(now) {
                return Err(ErrorCategory::Source);
            }
            Ok(())
        },
    }
}

/// The request for a pinned value: refused before any request when the
/// reference or the version is not valid.
pub fn value_url(source: &SourceRef, version: &SourceVersion) -> (r: Result<String, ErrorCategory>)
    ensures
        !is_valid_azure_source(*source) ==> r == Err::<String, ErrorCategory>(ErrorCategory::InvalidConfig),
        is_valid_azure_source(*source) && !is_valid_azure_version(encode_utf8(version.0@))
            ==> r == Err::<String, ErrorCategory>(ErrorCategory::InvalidConfig),
        is_valid_azure_source(*source) && is_valid_azure_version(encode_utf8(version.0@))
            ==> (r matches Ok(u) && u@ == azure_base(*source) + "/"@ + version.0@ + "?api-version=2025-07-01"@),
{
    let base = match base_url(source) {
        Ok(b) => b,
        Err(e) => return Err(e),
    };
    if !valid_version(version.0.as_str()) {
        return Err(ErrorCategory::InvalidConfig);
    }
    let mut u = base;
    push_text(&mut u, "/");
    push_text(&mut u, version.0.as_str());
    push_text(&mut u, "?api-version=2025-07-01");
    Ok(u)
}

/// The first listing request for a secret's versions.
pub fn versions_url(base: &str) -> (r: String)
    ensures
        r@ == base@ + "/versions?api-version=2025-07-01&maxresults=25"@,
{
    let mut u = base.to_owned();
    push_text(&mut u, "/versions?api-version=2025-07-01&maxresults=25");
    u
}

/// The cloud drives a vault file can live on.
#[derive(Clone, Copy, Debug, PartialEq, Eq, Structural)]
pub enum Provider {
    OneDrive,
    GoogleDrive,
}

impl Provider {
    pub fn label(self) -> (r: &'static str)
        ensures
            r@ == (match self {
                Provider::OneDrive => "OneDrive"@,
                Provider::GoogleDrive => "Google Drive"@,
            }),
    {
        match self {
            Provider::OneDrive => "OneDrive",
            Provider::GoogleDrive => "Google Drive",
        }
    }

    pub fn store(self) -> (r: StoreKind)
        ensures
            r == (match self {
                Provider::OneDrive => StoreKind::OneDrive,
                Provider::GoogleDrive => StoreKind::GoogleDrive,
            }),
    {
        match self {
            Provider::OneDrive => StoreKind::OneDrive,
            Provider::GoogleDrive => StoreKind::GoogleDrive,
        }
    }
}

/// Why a Drive operation failed; never carries a token or a file name.
#[derive(Clone, Copy, Debug, PartialEq, Eq, Structural)]
pub enum DriveError {
    Authorization,
    CredentialStore,
    InvalidInput,
    Network,
    Conflict,
    InvalidResponse,
}

pub open spec fn drive_error_message(e: DriveError) -> Seq<char> {
    match e {
        DriveError::Authorization => "Drive authorization failed or expired. Reconnect the account."@,
        DriveError::CredentialStore => "The operating-system credential store is unavailable. No plaintext fallback is used."@,
        DriveError::InvalidInput => "Invalid Drive selection or configuration."@,
        DriveError::Network => "Drive request failed. Check connectivity and retry; no automatic overwrite was attempted."@,
        DriveError::Conflict => "The remote vault changed. Reload it before retrying your edit."@,
        DriveError::InvalidResponse => "Drive returned an unsupported or invalid response."@,
    }
}

impl DriveError {
    /// The message shown for this error.
    pub fn message(&self) -> (r: &'static str)
        ensures
            r@ == drive_error_message(*self),
    {
        match self {
            DriveError::Authorization => "Drive authorization failed or expired. Reconnect the account.",
            DriveError::CredentialStore => "The operating-system credential store is unavailable. No plaintext fallback is used.",
            DriveError::InvalidInput => "Invalid Drive selection or configuration.",
            DriveError::Network => "Drive request failed. Check connectivity and retry; no automatic overwrite was attempted.",
            DriveError::Conflict => "The remote vault changed. Reload it before retrying your edit.",
            DriveError::InvalidResponse => "Drive returned an unsupported or invalid response.",
        }
    }
}

/// How a Drive failure reaches the vault: a remote change is a version
/// conflict, lost authorization locks the vault, a bad answer is corruption,
/// and a network failure is a storage failure.
pub open spec fn vault_error_of(e: DriveError) -> VaultError {
    match e {
        DriveError::Conflict => VaultError::VersionConflict,
        DriveError::Authorization | DriveError::CredentialStore => VaultError::Locked,
        DriveError::InvalidInput | DriveError::InvalidResponse => VaultError::Corrupt,
        DriveError::Network => VaultError::Storage,
    }
}

impl From<DriveError> for VaultError {
    fn from(error: DriveError) -> (r: Self) {
        match error {
            DriveError::Conflict => VaultError::VersionConflict,
            DriveError::Authorization | DriveError::CredentialStore => VaultError::Locked,
            DriveError::InvalidInput | DriveError::InvalidResponse => VaultError::Corrupt,
            DriveError::Network => VaultError::Storage,
        }
    }
}

impl vstd::std_specs::convert::FromSpecImpl<DriveError> for VaultError {
    open spec fn obeys_from_spec() -> bool {
        true
    }

    open spec fn from_spec(error: DriveError) -> VaultError {
        vault_error_of(error)
    }
}

/// A byte of a Drive item or credential ID.
pub open spec fn is_id_byte(b: u8) -> bool {
    is_alnum(b) || b == 0x5f || b == 0x2d || b == 0x21
}

/// A Drive ID: 1 to 256 letters, digits, `_`, `-` and `!`.
pub open spec fn is_valid_id(s: Seq<u8>) -> bool {
    0 < s.len() <= 256 && forall|i: int| 0 <= i < s.len() ==> is_id_byte(#[trigger] s[i])
}

pub fn valid_id(id: &str) -> (r: bool)
    ensures
        r == is_valid_id(utf8_of(id)),
{
    let b = bytes_of(id);
    if b.len() == 0 || b.len() > 256 {
        return false;
    }
    let mut i: usize = 0;
    while i < b.len()
        invariant
            i <= b@.len(),
            b@ == utf8_of(id),
            0 < b@.len() <= 256,
            forall|j: int| 0 <= j < i ==> is_id_byte(#[trigger] b@[j]),
        decreases b@.len() - i,
    {
        let c = b[i];
        if !(ascii_alnum(c) || c == 0x5f || c == 0x2d || c == 0x21) {
            assert(!is_id_byte(b@[i as int]));
            return false;
        }
        i = i + 1;
    }
    true
}

/// A strong entity tag: at most 1024 bytes, quoted, not weak, and free of
/// control bytes.
pub open spec fn is_strong_etag(e: Seq<u8>) -> bool {
    &&& e.len() <= 1024
    &&& !(e.len() >= 2 && e[0] == 0x57 && e[1] == 0x2f)
    &&& e.len() >= 1 && e[0] == 0x22
    &&& e[e.len() - 1] == 0x22
    &&& forall|i: int| 0 <= i < e.len() ==> !is_control(#[trigger] e[i])
}

pub fn checked_etag(etag: String) -> (r: Result<String, DriveError>)
    ensures
        is_strong_etag(encode_utf8(etag@)) ==> (r matches Ok(e) && e@ == etag@),
        !is_strong_etag(encode_utf8(etag@)) ==> r == Err::<String, DriveError>(DriveError::InvalidResponse),
{
    let b = bytes_of(etag.as_str());
    proof {
        broadcast use vstd::utf8::group_utf8_lib;
        assert(b@ == encode_utf8(etag@));
    }
    let n = b.len();
    if n > 1024 || (n >= 2 && b[0] == 0x57 && b[1] == 0x2f) || n == 0 || b[0] != 0x22 || b[n - 1] != 0x22 {
        return Err(DriveError::InvalidResponse);
    }
    let mut i: usize = 0;
    while i < n
        invariant
            i <= n,
            n == b@.len(),
            b@ == encode_utf8(etag@),
            forall|j: int| 0 <= j < i ==> !is_control(#[trigger] b@[j]),
        decreases n - i,
    {
        if ascii_control(b[i]) {
            assert(is_control(b@[i as int]));
            return Err(DriveError::InvalidResponse);
        }
        i = i + 1;
    }
    Ok(etag)
}

/// Where a remote vault file lives: the drive, the stored credential that
/// reaches it, and the file.
pub struct RemoteRef {
    pub provider: Provider,
    pub credential_id: String,
    pub file_id: String,
}

impl RemoteRef {
    pub fn validate(&self) -> (r: bool)
        ensures
            r == (is_valid_id(encode_utf8(self.credential_id@)) && is_valid_id(encode_utf8(self.file_id@))),
    {
        proof {
            broadcast use vstd::utf8::group_utf8_lib;
        }
        valid_id(self.credential_id.as_str()) && valid_id(self.file_id.as_str())
    }
}

/// The fields of a Drive metadata answer the item check reads: each text
/// field as given when it is a JSON string, and whether a `folder` field is
/// present.
pub struct ItemFields {
    pub id: Option<String>,
    pub name: Option<String>,
    pub title: Option<String>,
    pub has_folder: bool,
    pub mime_type: Option<String>,
}

/// A file or folder the picker may show.
pub struct Item {
    pub id: String,
    pub name: String,
    pub folder: bool,
}

pub open spec fn non_empty(o: Option<String>) -> Option<Seq<char>> {
    match o {
        Some(s) => if s@.len() > 0 { Some(s@) } else { None },
        None => None,
    }
}

/// The item a metadata answer describes: a valid ID, a name (OneDrive) or
/// title (Google Drive) of 1 to 1024 bytes, and whether it is a folder.
pub open spec fn item_of(provider: Provider, f: ItemFields) -> Option<(Seq<char>, Seq<char>, bool)> {
    let name = if provider == Provider::OneDrive { non_empty(f.name) } else { non_empty(f.title) };
    match (non_empty(f.id), name) {
        (Some(id), Some(n)) => if is_valid_id(encode_utf8(id)) && encode_utf8(n).len() <= 1024 {
            Some((id, n, if provider == Provider::OneDrive {
                f.has_folder
            } else {
                f.mime_type matches Some(m) && m@ == "application/vnd.google-apps.folder"@
            }))
        } else {
            None
        },
        _ => None,
    }
}

fn non_empty_text(o: &Option<String>) -> (r: Option<String>)
    ensures
        match (r, non_empty(*o)) {
            (Some(a), Some(b)) => a@ == b,
            (None, None) => true,
            _ => false,
        },
{
    match o {
        Some(s) => {
            if !crate::text::is_empty_text(s.as_str()) { Some(s.clone()) } else { None }
        },
        None => None,
    }
}

impl Item {
    pub fn parse(provider: Provider, fields: &ItemFields) -> (r: Result<Item, DriveError>)
        ensures
            match item_of(provider, *fields) {
                Some((id, name, folder)) => r matches Ok(i) && i.id@ == id && i.name@ == name && i.folder == folder,
                None => r == Err::<Item, DriveError>(DriveError::InvalidResponse),
            },
    {
        proof {
            broadcast use vstd::utf8::group_utf8_lib;
            reveal_strlit("application/vnd.google-apps.folder");
        }
        let id = match non_empty_text(&fields.id) {
            Some(id) => id,
            None => return Err(DriveError::InvalidResponse),
        };
        if !valid_id(id.as_str()) {
            return Err(DriveError::InvalidResponse);
        }
        let one_drive = match provider {
            Provider::OneDrive => true,
            Provider::GoogleDrive => false,
        };
        let name = match non_empty_text(if one_drive { &fields.name } else { &fields.title }) {
            Some(n) => n,
            None => return Err(DriveError::InvalidResponse),
        };
        if bytes_of(name.as_str()).len() > 1024 {
            return Err(DriveError::InvalidResponse);
        }
        let folder = if one_drive {
            fields.has_folder
        } else {
            match &fields.mime_type {
                Some(m) => same_text(m.as_str(), "application/vnd.google-apps.folder"),
                None => false,
            }
        };
        Ok(Item { id, name, folder })
    }
}

/// A download link the client may follow: https on the default port, no
/// credentials, on a Microsoft content host.
pub open spec fn is_trusted_download(url: Seq<char>) -> bool {
    match parsed_url(url) {
        Some(u) => match u.1 {
            Some(host) => {
                &&& u.0 == "https"@
                &&& u.2 is None
                &&& u.5.len() == 0
                &&& !u.6
                &&& (host.len() >= 9 && host.skip(host.len() - 9) == ".1drv.com"@
                    || host.len() >= 15 && host.skip(host.len() - 15) == ".sharepoint.com"@
                    || host.len() >= 17 && host.skip(host.len() - 17) == ".storage.live.com"@)
            },
            None => false,
        },
        None => false,
    }
}

fn ends_with_text(s: &str, suffix: &str) -> (r: bool)
    ensures
        r == (s@.len() >= suffix@.len() && s@.skip(s@.len() - suffix@.len()) == suffix@),
{
    let a = crate::text::chars_of(s);
    let b = crate::text::chars_of(suffix);
    if a.len() < b.len() {
        return false;
    }
    let off = a.len() - b.len();
    let mut i: usize = 0;
    while i < b.len()
        invariant
            off + b@.len() == a@.len(),
            a@.len() <= usize::MAX,
            a@ == s@,
            b@ == suffix@,
            i <= b@.len(),
            forall|j: int| 0 <= j < i ==> a@[off + j] == b@[j],
        decreases b@.len() - i,
    {
        if a[off + i] != b[i] {
            assert(s@.skip(off as int)[i as int] != suffix@[i as int]);
            return false;
        }
        i = i + 1;
    }
    assert(s@.skip(off as int) =~= suffix@);
    true
}

pub fn check_download_url(value: &str) -> (r: Result<(), DriveError>)
    ensures
        r is Ok <==> is_trusted_download(value@),
        r is Err ==> r == Err::<(), DriveError>(DriveError::InvalidResponse),
{
    proof {
        reveal_strlit("https");
        reveal_strlit(".1drv.com");
        reveal_strlit(".sharepoint.com");
        reveal_strlit(".storage.live.com");
    }
    let url = match parse_url(value) {
        Some(u) => u,
        None => return Err(DriveError::InvalidResponse),
    };
    let host = match &url.host {
        Some(h) => h,
        None => return Err(DriveError::InvalidResponse),
    };
    if !same_text(url.scheme.as_str(), "https") || url.port.is_some() || bytes_of(url.username.as_str()).len() != 0
        || url.has_password
        || !(ends_with_text(host.as_str(), ".1drv.com") || ends_with_text(host.as_str(), ".sharepoint.com")
            || ends_with_text(host.as_str(), ".storage.live.com")) {
        proof {
            broadcast use vstd::utf8::group_utf8_lib;
        }
        return Err(DriveError::InvalidResponse);
    }
    proof {
        broadcast use vstd::utf8::group_utf8_lib;
    }
    Ok(())
}

/// The OAuth client, authorization endpoint, token endpoint and scope of a
/// provider.
pub fn endpoints(provider: Provider) -> (r: (&'static str, &'static str, &'static str, &'static str))
    ensures
        provider == Provider::OneDrive ==> r.0@ == "18435542-f783-44d8-9c63-c92e18bb46cb"@
            && r.1@ == "https://login.microsoftonline.com/common/oauth2/v2.0/authorize"@
            && r.2@ == "https://login.microsoftonline.com/common/oauth2/v2.0/token"@
            && r.3@ == "offline_access Files.ReadWrite"@,
        provider == Provider::GoogleDrive ==> r.0@ == "60346833173-iu18a5o5ki37208rijd998e0gltihrvj.apps.googleusercontent.com"@
            && r.1@ == "https://accounts.google.com/o/oauth2/v2/auth"@
            && r.2@ == "https://oauth2.googleapis.com/token"@
            && r.3@ == "https://www.googleapis.com/auth/drive.file"@,
{
    match provider {
        Provider::OneDrive => (
            "18435542-f783-44d8-9c63-c92e18bb46cb",
            "https://login.microsoftonline.com/common/oauth2/v2.0/authorize",
            "https://login.microsoftonline.com/common/oauth2/v2.0/token",
            "offline_access Files.ReadWrite",
        ),
        Provider::GoogleDrive => (
            "60346833173-iu18a5o5ki37208rijd998e0gltihrvj.apps.googleusercontent.com",
            "https://accounts.google.com/o/oauth2/v2/auth",
            "https://oauth2.googleapis.com/token",
            "https://www.googleapis.com/auth/drive.file",
        ),
    }
}

/// The index of a stored credential: which generation of chunks is current
/// and how many there are.
pub struct CredentialHead {
    pub generation: String,
    pub chunks: usize,
}

/// A head is usable when its generation is a valid ID and it names 1 to 33
/// chunks (a credential of at most 64 KiB in 2000-byte chunks).
pub fn valid_head(head: &CredentialHead) -> (r: bool)
    ensures
        r == (is_valid_id(encode_utf8(head.generation@)) && 1 <= head.chunks <= 33),
{
    proof {
        broadcast use vstd::utf8::group_utf8_lib;
    }
    valid_id(head.generation.as_str()) && 1 <= head.chunks && head.chunks <= 33
}

/// The credential-store name of chunk `index` of a generation:
/// `{id}-{generation}-{index}`.
pub fn chunk_id(id: &str, head: &CredentialHead, index: usize) -> (r: String)
    ensures
        r@ == id@ + seq!['-'] + head.generation@ + seq!['-'] + crate::form::decimal(index as nat),
{
    let mut out = id.to_owned();
    push_char(&mut out, '-');
    push_text(&mut out, head.generation.as_str());
    push_char(&mut out, '-');
    let n = crate::form::format_u64(index as u64);
    push_text(&mut out, n.as_str());
    out
}

/// The credential-store name of chunk `index` of a generation.
pub open spec fn chunk_name(id: Seq<char>, generation: Seq<char>, index: nat) -> Seq<char> {
    id + seq!['-'] + generation + seq!['-'] + crate::form::decimal(index)
}

#[verifier::external_type_specification]
#[verifier::external_body]
pub struct ExKeyringEntry(keyring::Entry);

/// What the platform credential store answered to a deletion.
#[derive(Clone, Copy, Debug, PartialEq, Eq, Structural)]
pub enum DeleteOutcome {
    Deleted,
    Absent,
    Failed,
}

/// `keyring::Entry::new(service, user)`: a handle on one credential of the
/// platform store, or `None` where the platform refuses the names. Which of
/// the two comes back is the platform's decision, so nothing is stated.
#[verifier::external_body]
fn keyring_entry(service: &str, user: &str) -> (r: Option<keyring::Entry>) {
    keyring::Entry::new(service, user).ok()
}

/// `keyring::Entry::delete_credential`: `Absent` for its `NoEntry` error,
/// `Failed` for any other error. The answer rests on the platform store, so
/// nothing is stated of it.
#[verifier::external_body]
fn keyring_delete(entry: &keyring::Entry) -> (r: DeleteOutcome) {
    match entry.delete_credential() {
        Ok(()) => DeleteOutcome::Deleted,
        Err(keyring::Error::NoEntry) => DeleteOutcome::Absent,
        Err(_) => DeleteOutcome::Failed,
    }
}

/// `keyring::Entry::get_secret`: the stored bytes, or `None` on any error.
/// What the store holds is not stated.
#[verifier::external_body]
fn keyring_get_secret(entry: &keyring::Entry) -> (r: Option<Vec<u8>>) {
    entry.get_secret().ok()
}

/// `keyring::Entry::set_secret`: whether the store accepted the bytes.
/// The store's answer is not stated.
#[verifier::external_body]
fn keyring_set_secret(entry: &keyring::Entry, secret: &[u8]) -> (r: bool) {
    entry.set_secret(secret).is_ok()
}

/// `keyring::Entry::set_password`: whether the store accepted the text.
/// The store's answer is not stated.
#[verifier::external_body]
fn keyring_set_password(entry: &keyring::Entry, password: &str) -> (r: bool) {
    entry.set_password(password).is_ok()
}

/// The service name under which this application's credentials are stored.
pub open spec fn credential_service() -> Seq<char> {
    "TAR Vault Sync OAuth"@
}

/// A handle on one credential of the platform store, with the service and
/// user names it was opened under.
pub struct StoreEntry {
    handle: keyring::Entry,
    service: String,
    user: String,
}

impl StoreEntry {
    /// The service name handed to the store.
    pub closed spec fn service(&self) -> Seq<char> {
        self.service@
    }

    /// The user name handed to the store.
    pub closed spec fn user(&self) -> Seq<char> {
        self.user@
    }

    /// Reads the stored bytes, `None` on any store error.
    pub(crate) fn get_secret(&self) -> Option<Vec<u8>> {
        keyring_get_secret(&self.handle)
    }

    /// Stores bytes; whether the store accepted them.
    pub(crate) fn set_secret(&self, secret: &[u8]) -> bool {
        keyring_set_secret(&self.handle, secret)
    }

    /// Stores text; whether the store accepted it.
    pub(crate) fn set_password(&self, password: &str) -> bool {
        keyring_set_password(&self.handle, password)
    }
}

/// The store entry of one credential of this application, opened under the
/// application's service name with the credential's ID as the user; an
/// invalid ID is refused before the store is asked.
pub fn credential_entry(id: &str) -> (r: Result<StoreEntry, DriveError>)
    ensures
        !is_valid_id(utf8_of(id)) ==> (r matches Err(e) && e == DriveError::InvalidInput),
        is_valid_id(utf8_of(id)) ==> (r is Ok || (r matches Err(e) && e == DriveError::CredentialStore)),
        r matches Ok(e) ==> e.service() == credential_service() && e.user() == id@,
{
    if !valid_id(id) {
        return Err(DriveError::InvalidInput);
    }
    let service = "TAR Vault Sync OAuth";
    proof {
        reveal_strlit("TAR Vault Sync OAuth");
    }
    match keyring_entry(service, id) {
        Some(e) => Ok(StoreEntry { handle: e, service: service.to_owned(), user: id.to_owned() }),
        None => Err(DriveError::CredentialStore),
    }
}

/// What the answer to a deletion means: a credential that is not there
/// counts as deleted, and any other failure is the store's.
pub fn delete_answer(outcome: DeleteOutcome) -> (r: Result<(), DriveError>)
    ensures
        r == match outcome {
            DeleteOutcome::Failed => Err::<(), DriveError>(DriveError::CredentialStore),
            _ => Ok::<(), DriveError>(()),
        },
{
    match outcome {
        DeleteOutcome::Deleted | DeleteOutcome::Absent => Ok(()),
        DeleteOutcome::Failed => Err(DriveError::CredentialStore),
    }
}

/// The names of the chunks of a generation, in order.
pub fn chunk_names(id: &str, head: &CredentialHead) -> (r: Vec<String>)
    ensures
        r@.len() == head.chunks,
        forall|i: int| 0 <= i < r@.len() ==> (#[trigger] r@[i])@ == chunk_name(id@, head.generation@, i as nat),
{
    let mut names: Vec<String> = Vec::new();
    let mut index: usize = 0;
    while index < head.chunks
        invariant
            index <= head.chunks,
            names@.len() == index,
            forall|i: int| 0 <= i < index ==> (#[trigger] names@[i])@ == chunk_name(id@, head.generation@, i as nat),
        decreases head.chunks - index,
    {
        names.push(chunk_id(id, head, index));
        index = index + 1;
    }
    names
}

/// Deletes one credential of this application from the platform store; one
/// that is not there counts as deleted. An invalid ID is refused before the
/// store is asked; otherwise the store's failure is reported as such.
pub fn remove_entry(id: &str) -> (r: Result<(), DriveError>)
    ensures
        !is_valid_id(utf8_of(id)) ==> r == Err::<(), DriveError>(DriveError::InvalidInput),
        is_valid_id(utf8_of(id)) ==> (r is Ok || r == Err::<(), DriveError>(DriveError::CredentialStore)),
{
    let entry = credential_entry(id)?;
    delete_answer(keyring_delete(&entry.handle))
}

/// Deletes the chunks of a credential generation in order, stopping at the
/// first failure.
pub fn remove_chunks(id: &str, head: &CredentialHead) -> (r: Result<(), DriveError>)
    ensures
        r matches Err(e) ==> e == DriveError::InvalidInput || e == DriveError::CredentialStore,
        r is Ok ==> forall|i: nat| i < head.chunks ==> is_valid_id(
            encode_utf8(#[trigger] chunk_name(id@, head.generation@, i)),
        ),
        r == Err::<(), DriveError>(DriveError::InvalidInput) ==> exists|i: nat| i < head.chunks
            && !is_valid_id(encode_utf8(#[trigger] chunk_name(id@, head.generation@, i))),
        head.chunks > 0 && !is_valid_id(encode_utf8(chunk_name(id@, head.generation@, 0)))
            ==> r == Err::<(), DriveError>(DriveError::InvalidInput),
{
    proof {
        broadcast use vstd::utf8::group_utf8_lib;
    }
    let names = chunk_names(id, head);
    let mut index: usize = 0;
    while index < head.chunks
        invariant
            index <= head.chunks,
            names@.len() == head.chunks,
            forall|i: int| 0 <= i < names@.len() ==> (#[trigger] names@[i])@ == chunk_name(id@, head.generation@, i as nat),
            forall|i: nat| i < index ==> is_valid_id(
                encode_utf8(#[trigger] chunk_name(id@, head.generation@, i)),
            ),
        decreases head.chunks - index,
    {
        let name_text = names[index].as_str();
        assert(names@[index as int]@ == chunk_name(id@, head.generation@, index as nat));
        proof {
            broadcast use vstd::utf8::group_utf8_lib;
            assert(utf8_of(name_text) == encode_utf8(chunk_name(id@, head.generation@, index as nat)));
            if index > 0 {
                assert(is_valid_id(encode_utf8(chunk_name(id@, head.generation@, 0nat))));
            }
        }
        let step = remove_entry(name_text);
        match step {
            Ok(()) => {},
            Err(e) => {
                assert(e == DriveError::InvalidInput ==> !is_valid_id(encode_utf8(chunk_name(id@, head.generation@, index as nat))));
                return Err(e);
            },
        }
        index = index + 1;
    }
    proof {
        if head.chunks > 0 {
            assert(is_valid_id(encode_utf8(chunk_name(id@, head.generation@, 0nat))));
        }
    }
    Ok(())
}

/// Forgets a stored credential: the chunks of its current generation, if
/// the store holds a head, and then the head itself.
pub fn disconnect(id: &str, head: Option<&CredentialHead>) -> (r: Result<(), DriveError>)
    ensures
        r matches Err(e) ==> e == DriveError::InvalidInput || e == DriveError::CredentialStore,
        r is Ok ==> is_valid_id(utf8_of(id)),
        head is None && !is_valid_id(utf8_of(id)) ==> r == Err::<(), DriveError>(DriveError::InvalidInput),
{
    if let Some(h) = head {
        remove_chunks(id, h)?;
    }
    remove_entry(id)
}

/// How often `key` occurs among the pairs.
pub open spec fn key_count(pairs: Seq<(Seq<char>, Seq<char>)>, key: Seq<char>) -> nat
    decreases pairs.len(),
{
    if pairs.len() == 0 {
        0
    } else {
        key_count(pairs.drop_last(), key) + (if pairs.last().0 == key { 1nat } else { 0nat })
    }
}

/// The value of the only pair with `key`, if there is exactly one.
pub open spec fn single_value(pairs: Seq<(Seq<char>, Seq<char>)>, key: Seq<char>) -> Option<Seq<char>>
    decreases pairs.len(),
{
    if pairs.len() == 0 {
        None
    } else if pairs.last().0 == key {
        Some(pairs.last().1)
    } else {
        single_value(pairs.drop_last(), key)
    }
}

/// What the loopback callback accepts: a request target `/?query` whose
/// query holds each of `state`, `error`, `code` and `picked_file_ids` at
/// most once, the expected state, no error, a non-empty code, and a valid
/// picked file ID if any.
pub open spec fn callback_outcome(target: Seq<char>, state: Seq<char>) -> Result<(Seq<char>, Option<Seq<char>>), DriveError> {
    if !(target.len() >= 2 && target[0] == '/' && target[1] == '?') {
        Err(DriveError::Authorization)
    } else {
        match parsed_query("http://127.0.0.1"@ + target) {
            None => Err(DriveError::Authorization),
            Some(p) => if key_count(p, "state"@) > 1 || single_value(p, "state"@) != Some(state)
                || key_count(p, "error"@) > 1 || single_value(p, "error"@) is Some
                || key_count(p, "code"@) > 1 || !(single_value(p, "code"@) matches Some(c) && c.len() > 0)
                || key_count(p, "picked_file_ids"@) > 1 {
                Err(DriveError::Authorization)
            } else {
                let picked = single_value(p, "picked_file_ids"@);
                if picked matches Some(x) && !is_valid_id(encode_utf8(x)) {
                    Err(DriveError::InvalidInput)
                } else {
                    Ok((single_value(p, "code"@)->0, picked))
                }
            },
        }
    }
}

fn single(pairs: &Vec<(String, String)>, key: &str) -> (r: Result<Option<String>, DriveError>)
    ensures
        key_count(pairs_view(pairs@), key@) > 1 ==> r == Err::<Option<String>, DriveError>(DriveError::Authorization),
        key_count(pairs_view(pairs@), key@) <= 1 ==> (r matches Ok(v) && opt_view(v) == single_value(pairs_view(pairs@), key@)),
{
    let mut count: usize = 0;
    let mut found: Option<String> = None;
    let mut i: usize = 0;
    while i < pairs.len()
        invariant
            i <= pairs@.len(),
            count <= 1,
            count == key_count(pairs_view(pairs@.take(i as int)), key@),
            opt_view(found) == single_value(pairs_view(pairs@.take(i as int)), key@),
        decreases pairs@.len() - i,
    {
        assert(pairs_view(pairs@.take(i as int + 1)).drop_last() =~= pairs_view(pairs@.take(i as int)));
        assert(pairs_view(pairs@.take(i as int + 1)).last() == (pairs@[i as int].0@, pairs@[i as int].1@));
        if same_text(pairs[i].0.as_str(), key) {
            if count == 1 {
                proof {
                    lemma_key_count_grows(pairs_view(pairs@), key@, i as int + 1);
                    assert(pairs_view(pairs@).take(i as int + 1) =~= pairs_view(pairs@.take(i as int + 1)));
                }
                return Err(DriveError::Authorization);
            }
            count = 1;
            found = Some(pairs[i].1.clone());
        }
        i = i + 1;
    }
    assert(pairs@.take(pairs@.len() as int) =~= pairs@);
    Ok(found)
}

proof fn lemma_key_count_grows(p: Seq<(Seq<char>, Seq<char>)>, key: Seq<char>, i: int)
    requires
        0 <= i <= p.len(),
    ensures
        key_count(p.take(i), key) <= key_count(p, key),
    decreases p.len() - i,
{
    if i < p.len() {
        lemma_key_count_grows(p, key, i + 1);
        assert(p.take(i + 1).drop_last() =~= p.take(i));
    } else {
        assert(p.take(i) =~= p);
    }
}

/// Checks the request target of the OAuth loopback callback against the
/// expected state and returns the authorization code and picked file.
pub fn callback(target: &str, state: &str) -> (r: Result<(String, Option<String>), DriveError>)
    ensures
        match callback_outcome(target@, state@) {
            Ok((code, picked)) => r matches Ok((c, p)) && c@ == code && opt_view(p) == picked,
            Err(e) => r == Err::<(String, Option<String>), DriveError>(e),
        },
{
    proof {
        reveal_strlit("http://127.0.0.1");
        reveal_strlit("state");
        reveal_strlit("error");
        reveal_strlit("code");
        reveal_strlit("picked_file_ids");
    }
    let t = crate::text::chars_of(target);
    if !(t.len() >= 2 && t[0] == '/' && t[1] == '?') {
        return Err(DriveError::Authorization);
    }
    let mut full = String::new();
    push_text(&mut full, "http://127.0.0.1");
    push_text(&mut full, target);
    let pairs = match query_pairs(full.as_str()) {
        Some(p) => p,
        None => return Err(DriveError::Authorization),
    };
    let st = match single(&pairs, "state") {
        Ok(v) => v,
        Err(e) => return Err(e),
    };
    let state_ok = match &st {
        Some(v) => same_text(v.as_str(), state),
        None => false,
    };
    if !state_ok {
        return Err(DriveError::Authorization);
    }
    match single(&pairs, "error") {
        Ok(None) => {},
        _ => return Err(DriveError::Authorization),
    }
    let code = match single(&pairs, "code") {
        Ok(Some(c)) => c,
        _ => return Err(DriveError::Authorization),
    };
    if crate::text::is_empty_text(code.as_str()) {
        return Err(DriveError::Authorization);
    }
    let picked = match single(&pairs, "picked_file_ids") {
        Ok(p) => p,
        Err(e) => return Err(e),
    };
    match &picked {
        Some(p) => {
            proof {
                broadcast use vstd::utf8::group_utf8_lib;
            }
            if !valid_id(p.as_str()) {
                return Err(DriveError::InvalidInput);
            }
        },
        None => {},
    }
    Ok((code, picked))
}

/// The version lookup keeps the newest version whatever order the items
/// are listed in: after scanning items on top of an earlier result, the
/// result is one of the items (or the earlier result), its creation time is
/// no smaller than that of every item and of the earlier result, and when
/// it is not ambiguous no other version shares its creation time.
pub proof fn law_newest_version_wins(latest: Option<(Seq<char>, Attributes)>, ambiguous: bool, items: Seq<VersionItem>)
    ensures
        ({
            let (l, a) = scan_items(latest, ambiguous, items);
            &&& (latest is Some || items.len() > 0) ==> l is Some
            &&& l matches Some(n) ==> {
                &&& forall|i: int| 0 <= i < items.len() ==> (#[trigger] items[i]).attributes.created <= n.1.created
                &&& latest matches Some(o) ==> o.1.created <= n.1.created
                &&& Some(n) == latest || exists|i: int| 0 <= i < items.len() && n == (#[trigger] items[i].id@, items[i].attributes)
                &&& !a ==> forall|i: int| 0 <= i < items.len() && (#[trigger] items[i]).attributes.created == n.1.created
                    ==> items[i].id@ == n.0
                &&& !a ==> (latest matches Some(o) ==> (o.1.created == n.1.created ==> o.0 == n.0))
            }
        }),
    decreases items.len(),
{
    if items.len() > 0 {
        let init = items.drop_last();
        law_newest_version_wins(latest, ambiguous, init);
        let prev = scan_items(latest, ambiguous, init);
        let x = items.last();
        let n = items.len() - 1;
        assert(x == items[n]);
        assert forall|i: int| 0 <= i < init.len() implies init[i] == items[i] by {}
        let (l, a) = scan_items(latest, ambiguous, items);
        match prev.0 {
            Some(old) => {
                if x.attributes.created < old.1.created {
                    assert(l == prev.0);
                } else if x.attributes.created == old.1.created {
                    assert(l == prev.0);
                } else {
                    assert(l == Some((x.id@, x.attributes)));
                    assert(forall|i: int| 0 <= i < init.len() ==> (#[trigger] init[i]).attributes.created <= old.1.created);
                }
            },
            None => {
                assert(init.len() == 0 && latest is None);
            },
        }
    }
}

} // verus!
