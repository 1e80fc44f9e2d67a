//! Validation of a decoded configuration: labels, schedules, and the targets
//! each binding may write. Paths are Unix-style: `/` separates components and
//! empty and `.` components are dropped, as `std::path::Path` reads them.
//! Whether a path resolves inside the approved root on disk is decided by the
//! caller and handed in as the list of confirmed paths.
use crate::domain::{
    is_safe_label, safe_label, Binding, Config, DockerInputKind, ErrorCategory, StoreKind,
    StructuredFormat, TargetSpec, SCHEMA_VERSION,
};
use crate::cloud::{is_valid_azure_source, valid_source};
use crate::ledger::{has_name, name_position};
use crate::text::{
    ascii_alnum, bytes_of, chars_of, is_alnum, same_text, split_first, split_once_char, utf8_of,
};
use vstd::prelude::*;
use vstd::utf8::encode_utf8;

verus! {

/// A byte of a Docker variable name: an ASCII letter, digit or `_`.
pub open spec fn is_name_byte(b: u8) -> bool {
    is_alnum(b) || b == 0x5f
}

/// A non-empty Docker variable name.
pub open spec fn is_valid_name(s: Seq<u8>) -> bool {
    s.len() > 0 && forall|i: int| 0 <= i < s.len() ==> is_name_byte(#[trigger] s[i])
}

fn valid_name(s: &str) -> (r: bool)
    ensures
        r == is_valid_name(utf8_of(s)),
{
    let b = bytes_of(s);
    if b.len() == 0 {
        return false;
    }
    let mut i: usize = 0;
    while i < b.len()
        invariant
            i <= b@.len(),
            b@ == utf8_of(s),
            forall|j: int| 0 <= j < i ==> is_name_byte(#[trigger] b@[j]),
        decreases b@.len() - i,
    {
        if !(ascii_alnum(b[i]) || b[i] == 0x5f) {
            return false;
        }
        i = i + 1;
    }
    true
}

/// A byte of a dotenv or properties key.
pub open spec fn is_key_byte(b: u8) -> bool {
    is_alnum(b) || b == 0x5f || b == 0x2e || b == 0x2d
}

/// The key rule of each structured format: dotenv and properties keys are
/// non-empty runs of letters, digits, `_`, `.` and `-`; JSON and YAML keys are
/// pointers: a `/` followed by at least one more byte, on a single line.
pub open spec fn is_valid_field_key(key: Seq<u8>, format: StructuredFormat) -> bool {
    match format {
        StructuredFormat::DotEnv | StructuredFormat::Properties => key.len() > 0 && forall|i: int|
            0 <= i < key.len() ==> is_key_byte(#[trigger] key[i]),
        StructuredFormat::Json | StructuredFormat::Yaml => {
            &&& key.len() > 1
            &&& key[0] == 0x2f
            &&& forall|i: int| 0 <= i < key.len() ==> #[trigger] key[i] != 0x0a && key[i] != 0x0d
        },
    }
}

pub fn valid_field_key(key: &str, format: &StructuredFormat) -> (r: bool)
    ensures
        r == is_valid_field_key(utf8_of(key), *format),
{
    let b = bytes_of(key);
    match format {
        StructuredFormat::DotEnv | StructuredFormat::Properties => {
            if b.len() == 0 {
                return false;
            }
            let mut i: usize = 0;
            while i < b.len()
                invariant
                    i <= b@.len(),
                    b@ == utf8_of(key),
                    *format == StructuredFormat::DotEnv || *format == StructuredFormat::Properties,
                    forall|j: int| 0 <= j < i ==> is_key_byte(#[trigger] b@[j]),
                decreases b@.len() - i,
            {
                let c = b[i];
                if !(ascii_alnum(c) || c == 0x5f || c == 0x2e || c == 0x2d) {
                    assert(!is_key_byte(b@[i as int]));
                    return false;
                }
                i = i + 1;
            }
            true
        },
        StructuredFormat::Json | StructuredFormat::Yaml => {
            if b.len() <= 1 || b[0] != 0x2f {
                return false;
            }
            let mut i: usize = 0;
            while i < b.len()
                invariant
                    i <= b@.len(),
                    b@ == utf8_of(key),
                    b@.len() > 1 && b@[0] == 0x2f,
                    *format == StructuredFormat::Json || *format == StructuredFormat::Yaml,
                    forall|j: int| 0 <= j < i ==> #[trigger] b@[j] != 0x0a && b@[j] != 0x0d,
                decreases b@.len() - i,
            {
                if b[i] == 0x0a || b[i] == 0x0d {
                    return false;
                }
                i = i + 1;
            }
            true
        },
    }
}

/// A byte of a Git host: an ASCII letter, digit, `.`, `-` or `:`.
pub open spec fn is_host_byte(b: u8) -> bool {
    is_alnum(b) || b == 0x2e || b == 0x2d || b == 0x3a
}

/// A host of 1 to 253 bytes, each a letter, digit, `.`, `-` or `:`.
pub open spec fn is_safe_host(h: Seq<u8>) -> bool {
    0 < h.len() <= 253 && forall|i: int| 0 <= i < h.len() ==> is_host_byte(#[trigger] h[i])
}

pub fn safe_host(host: &str) -> (r: bool)
    ensures
        r == is_safe_host(utf8_of(host)),
{
    let b = bytes_of(host);
    if b.len() == 0 || b.len() > 253 {
        return false;
    }
    let mut i: usize = 0;
    while i < b.len()
        invariant
            i <= b@.len(),
            b@ == utf8_of(host),
            forall|j: int| 0 <= j < i ==> is_host_byte(#[trigger] b@[j]),
        decreases b@.len() - i,
    {
        let c = b[i];
        if !(ascii_alnum(c) || c == 0x2e || c == 0x2d || c == 0x3a) {
            return false;
        }
        i = i + 1;
    }
    true
}

/// A byte allowed inside a Git path component.
pub open spec fn is_git_path_byte(b: u8) -> bool {
    is_alnum(b) || b == 0x2e || b == 0x5f || b == 0x2d
}

/// Position `i` of `p` starts a component (it is first, or follows a `/`).
pub open spec fn starts_part(p: Seq<u8>, i: int) -> bool {
    i == 0 || p[i - 1] == 0x2f
}

/// Position `i` of `p` ends a component (it is last, or precedes a `/`).
pub open spec fn ends_part(p: Seq<u8>, i: int) -> bool {
    i == p.len() - 1 || p[i + 1] == 0x2f
}

/// A relative Git path of 1 to 512 bytes whose `/`-separated components are
/// all non-empty, neither `.` nor `..`, and made of letters, digits, `.`, `_`
/// and `-`.
pub open spec fn is_safe_git_path(p: Seq<u8>) -> bool {
    &&& 0 < p.len() <= 512
    &&& p[0] != 0x2f
    &&& p[p.len() - 1] != 0x2f
    &&& forall|i: int| 0 <= i < p.len() ==> (#[trigger] p[i] == 0x2f || is_git_path_byte(p[i]))
    &&& forall|i: int| 0 <= i < p.len() - 1 ==> !(#[trigger] p[i] == 0x2f && p[i + 1] == 0x2f)
    &&& forall|i: int| 0 <= i < p.len() ==> !(#[trigger] p[i] == 0x2e && starts_part(p, i) && ends_part(p, i))
    &&& forall|i: int| 0 <= i < p.len() - 1 ==> !(#[trigger] p[i] == 0x2e && p[i + 1] == 0x2e && starts_part(p, i) && ends_part(p, i + 1))
}

pub open spec fn is_safe_git_path_opt(p: Option<Seq<u8>>) -> bool {
    match p {
        None => true,
        Some(q) => is_safe_git_path(q),
    }
}

pub fn safe_git_path(path: Option<&str>) -> (r: bool)
    ensures
        r == is_safe_git_path_opt(match path {
            Some(p) => Some(utf8_of(p)),
            None => None,
        }),
{
    let p = match path {
        None => return true,
        Some(p) => bytes_of(p),
    };
    let n = p.len();
    if n == 0 || n > 512 || p[0] == 0x2f || p[n - 1] == 0x2f {
        return false;
    }
    let mut i: usize = 0;
    while i < n
        invariant
            path matches Some(q) && utf8_of(q) == p@,
            n == p@.len(),
            0 < n <= 512,
            p@[0] != 0x2f,
            p@[n - 1] != 0x2f,
            i <= n,
            forall|j: int| 0 <= j < i ==> (#[trigger] p@[j] == 0x2f || is_git_path_byte(p@[j])),
            forall|j: int| 0 <= j < i && j < n - 1 ==> !(#[trigger] p@[j] == 0x2f && p@[j + 1] == 0x2f),
            forall|j: int| 0 <= j < i ==> !(#[trigger] p@[j] == 0x2e && starts_part(p@, j) && ends_part(p@, j)),
            forall|j: int| 0 <= j < i && j < n - 1 ==> !(#[trigger] p@[j] == 0x2e && p@[j + 1] == 0x2e && starts_part(p@, j) && ends_part(p@, j + 1)),
        decreases n - i,
    {
        let c = p[i];
        if !(c == 0x2f || ascii_alnum(c) || c == 0x2e || c == 0x5f || c == 0x2d) {
            assert(!(p@[i as int] == 0x2f || is_git_path_byte(p@[i as int])));
            return false;
        }
        if c == 0x2f && i + 1 < n && p[i + 1] == 0x2f {
            assert(p@[i as int] == 0x2f && p@[i + 1] == 0x2f);
            return false;
        }
        let first = i == 0 || p[i - 1] == 0x2f;
        let last = i + 1 == n || p[i + 1] == 0x2f;
        if c == 0x2e && first && last {
            assert(p@[i as int] == 0x2e && starts_part(p@, i as int) && ends_part(p@, i as int));
            return false;
        }
        if c == 0x2e && i + 1 < n && p[i + 1] == 0x2e && first && (i + 2 == n || p[i + 2] == 0x2f) {
            assert(p@[i as int] == 0x2e && p@[i + 1] == 0x2e && starts_part(p@, i as int) && ends_part(p@, i + 1));
            return false;
        }
        i = i + 1;
    }
    true
}

/// A Git username of 1 to 128 visible ASCII bytes other than `=` and `\`.
pub open spec fn is_safe_git_username(s: Seq<u8>) -> bool {
    0 < s.len() <= 128 && forall|i: int| 0 <= i < s.len() ==> {
        let b = #[trigger] s[i];
        0x21 <= b <= 0x7e && b != 0x3d && b != 0x5c
    }
}

pub fn safe_git_username(name: &str) -> (r: bool)
    ensures
        r == is_safe_git_username(utf8_of(name)),
{
    let b = bytes_of(name);
    if b.len() == 0 || b.len() > 128 {
        return false;
    }
    let mut i: usize = 0;
    while i < b.len()
        invariant
            i <= b@.len(),
            b@ == utf8_of(name),
            forall|j: int| 0 <= j < i ==> {
                let c = #[trigger] b@[j];
                0x21 <= c <= 0x7e && c != 0x3d && c != 0x5c
            },
        decreases b@.len() - i,
    {
        let c = b[i];
        if !(0x21 <= c && c <= 0x7e && c != 0x3d && c != 0x5c) {
            return false;
        }
        i = i + 1;
    }
    true
}

/// A component that `Path::components` keeps: not empty and not `.`.
pub open spec fn kept(part: Seq<char>) -> Seq<Seq<char>> {
    if part.len() == 0 || part == seq!['.'] {
        seq![]
    } else {
        seq![part]
    }
}

/// Reading a path left to right: the components finished so far and the one
/// being read.
pub open spec fn scan_path(p: Seq<char>) -> (Seq<Seq<char>>, Seq<char>)
    decreases p.len(),
{
    if p.len() == 0 {
        (seq![], seq![])
    } else {
        let prev = scan_path(p.drop_last());
        if p.last() == '/' {
            (prev.0 + kept(prev.1), seq![])
        } else {
            (prev.0, prev.1.push(p.last()))
        }
    }
}

/// The named components of a path.
pub open spec fn path_parts(p: Seq<char>) -> Seq<Seq<char>> {
    scan_path(p).0 + kept(scan_path(p).1)
}

/// `Path::starts_with` for an absolute `path`: the root has no components, or
/// it is absolute and its components begin the path's.
pub open spec fn is_under(path: Seq<char>, root: Seq<char>) -> bool {
    root.len() == 0 || {
        &&& root[0] == '/'
        &&& path_parts(root).len() <= path_parts(path).len()
        &&& forall|i: int| 0 <= i < path_parts(root).len() ==> #[trigger] path_parts(root)[i] == path_parts(path)[i]
    }
}

/// The textual part of the scope rule: an absolute path under the root with
/// no `..` component.
pub open spec fn is_lexically_scoped(path: Seq<char>, root: Seq<char>) -> bool {
    &&& path.len() > 0
    &&& path[0] == '/'
    &&& is_under(path, root)
    &&& forall|i: int| 0 <= i < path_parts(path).len() ==> #[trigger] path_parts(path)[i] != seq!['.', '.']
}

/// A target path is in scope: it passes the textual rule and the caller
/// confirmed that it resolves inside the approved root and is no symlink.
pub open spec fn is_scoped(path: Seq<char>, root: Seq<char>, confirmed: Seq<String>) -> bool {
    is_lexically_scoped(path, root) && has_name(confirmed, path)
}

pub open spec fn views(s: Seq<Vec<char>>) -> Seq<Seq<char>> {
    s.map_values(|v: Vec<char>| v@)
}

fn push_kept(done: &mut Vec<Vec<char>>, part: Vec<char>)
    ensures
        views(final(done)@) == views(old(done)@) + kept(part@),
{
    if part.len() == 0 || (part.len() == 1 && part[0] == '.') {
        assert(views(done@) =~= views(done@) + kept(part@)) by {
            if part@.len() == 1 {
                assert(part@ =~= seq!['.']);
            }
        }
        return;
    }
    let ghost before = done@;
    assert(part@ != seq!['.']) by {
        if part@ == seq!['.'] {
            assert(part@.len() == 1 && part@[0] == '.');
        }
    }
    done.push(part);
    assert(views(done@) =~= views(before) + kept(part@));
}

/// The named components of `p`.
pub(crate) fn components_of(p: &str) -> (r: Vec<Vec<char>>)
    ensures
        views(r@) == path_parts(p@),
{
    let chars = chars_of(p);
    let mut done: Vec<Vec<char>> = Vec::new();
    let mut cur: Vec<char> = Vec::new();
    let mut i: usize = 0;
    while i < chars.len()
        invariant
            i <= chars@.len(),
            chars@ == p@,
            (views(done@), cur@) == scan_path(chars@.take(i as int)),
        decreases chars@.len() - i,
    {
        assert(chars@.take(i as int + 1).drop_last() =~= chars@.take(i as int));
        if chars[i] == '/' {
            let finished = cur;
            push_kept(&mut done, finished);
            cur = Vec::new();
        } else {
            cur.push(chars[i]);
        }
        i = i + 1;
    }
    assert(chars@.take(chars@.len() as int) =~= chars@);
    push_kept(&mut done, cur);
    done
}

fn same_chars(a: &Vec<char>, b: &Vec<char>) -> (r: bool)
    ensures
        r == (a@ == b@),
{
    if a.len() != b.len() {
        return false;
    }
    let mut i: usize = 0;
    while i < a.len()
        invariant
            a@.len() == b@.len(),
            i <= a@.len(),
            forall|j: int| 0 <= j < i ==> a@[j] == b@[j],
        decreases a@.len() - i,
    {
        if a[i] != b[i] {
            return false;
        }
        i = i + 1;
    }
    assert(a@ =~= b@);
    true
}

/// The path has a `..` component.
pub open spec fn has_parent_step(p: Seq<char>) -> bool {
    exists|i: int| 0 <= i < path_parts(p).len() && #[trigger] path_parts(p)[i] == seq!['.', '.']
}

/// Whether the path has a `..` component.
pub fn has_parent_component(p: &str) -> (r: bool)
    ensures
        r == has_parent_step(p@),
{
    let parts = components_of(p);
    let mut i: usize = 0;
    while i < parts.len()
        invariant
            views(parts@) == path_parts(p@),
            i <= parts@.len(),
            forall|j: int| 0 <= j < i ==> #[trigger] path_parts(p@)[j] != seq!['.', '.'],
        decreases parts@.len() - i,
    {
        assert(views(parts@)[i as int] == parts@[i as int]@);
        if parts[i].len() == 2 && parts[i][0] == '.' && parts[i][1] == '.' {
            assert(parts@[i as int]@ =~= seq!['.', '.']);
            return true;
        }
        assert(parts@[i as int]@ != seq!['.', '.']) by {
            if parts@[i as int]@ == seq!['.', '.'] {
                assert(parts@[i as int]@.len() == 2);
            }
        }
        i = i + 1;
    }
    false
}

/// `Path::starts_with` of the root, for an absolute path.
pub fn under_root(path: &str, root: &str) -> (r: bool)
    ensures
        r == is_under(path@, root@),
{
    let parts = components_of(path);
    let rc = chars_of(root);
    if rc.len() == 0 {
        return true;
    }
    if rc[0] != '/' {
        return false;
    }
    let rparts = components_of(root);
    if rparts.len() > parts.len() {
        return false;
    }
    let mut k: usize = 0;
    while k < rparts.len()
        invariant
            views(parts@) == path_parts(path@),
            views(rparts@) == path_parts(root@),
            rparts@.len() <= parts@.len(),
            k <= rparts@.len(),
            forall|j: int| 0 <= j < k ==> #[trigger] path_parts(root@)[j] == path_parts(path@)[j],
        decreases rparts@.len() - k,
    {
        assert(views(parts@)[k as int] == parts@[k as int]@);
        assert(views(rparts@)[k as int] == rparts@[k as int]@);
        if !same_chars(&rparts[k], &parts[k]) {
            return false;
        }
        k = k + 1;
    }
    true
}

/// The textual part of the scope rule for a target path.
pub fn lexically_scoped(path: &str, root: &str) -> (r: bool)
    ensures
        r == is_lexically_scoped(path@, root@),
{
    let pc = chars_of(path);
    if pc.len() == 0 || pc[0] != '/' {
        return false;
    }
    if has_parent_component(path) {
        return false;
    }
    under_root(path, root)
}

/// The full scope rule for a target path.
pub fn valid_scoped_path(path: &str, root: &str, confirmed: &Vec<String>) -> (r: bool)
    ensures
        r == is_scoped(path@, root@, confirmed@),
{
    lexically_scoped(path, root) && name_position(confirmed, path).is_some()
}

/// The key rule of a Docker target: an env-file variable name with a safe
/// service and an in-scope compose file, or `service:VARIABLE` for a compose
/// environment.
pub open spec fn is_valid_docker_key(key: Seq<char>, input: DockerInputKind, root: Seq<char>, confirmed: Seq<String>) -> bool {
    match input {
        DockerInputKind::EnvFile { compose_path, service } => {
            &&& is_valid_name(encode_utf8(key))
            &&& is_safe_label(service@)
            &&& is_scoped(compose_path@, root, confirmed)
        },
        DockerInputKind::ComposeEnvironment => match split_first(key, ':') {
            Some((service, variable)) => is_safe_label(service) && is_valid_name(encode_utf8(variable)),
            None => false,
        },
    }
}

pub fn valid_docker_key(key: &str, input: &DockerInputKind, root: &str, confirmed: &Vec<String>) -> (r: bool)
    ensures
        r == is_valid_docker_key(key@, *input, root@, confirmed@),
{
    match input {
        DockerInputKind::EnvFile { compose_path, service } => {
            valid_name(key) && safe_label(service.as_str()) && valid_scoped_path(compose_path.as_str(), root, confirmed)
        },
        DockerInputKind::ComposeEnvironment => match split_once_char(key, ':') {
            Some((service, variable)) => safe_label(service.as_str()) && valid_name(variable.as_str()),
            None => false,
        },
    }
}

/// What a binding may write.
pub open spec fn is_valid_target(t: TargetSpec, root: Seq<char>, confirmed: Seq<String>) -> bool {
    match t {
        TargetSpec::Fake { slot } => is_safe_label(slot@),
        TargetSpec::WholeFile { path } => is_scoped(path@, root, confirmed),
        TargetSpec::StructuredField { path, key, format } => is_scoped(path@, root, confirmed)
            && is_valid_field_key(encode_utf8(key@), format),
        TargetSpec::DockerInput { path, key, input } => is_scoped(path@, root, confirmed)
            && is_valid_docker_key(key@, input, root, confirmed),
        TargetSpec::GitCredential { protocol, host, path, username } => {
            &&& protocol@ == "https"@
            &&& is_safe_host(encode_utf8(host@))
            &&& is_safe_git_path_opt(match path {
                Some(p) => Some(encode_utf8(p@)),
                None => None,
            })
            &&& is_safe_git_username(encode_utf8(username@))
        },
    }
}

/// One binding's rule: safe labels, an interval of 1 s to 24 h, a valid
/// target, and a pairing of source and target the agent supports: the fake
/// store only with the fake target, otherwise the local vault or Azure Key
/// Vault, whose source must name a valid Key Vault secret.
pub open spec fn is_valid_binding(b: Binding, root: Seq<char>, confirmed: Seq<String>) -> bool {
    &&& is_safe_label(b.id@)
    &&& is_safe_label(b.source.connection@)
    &&& is_safe_label(b.source.entry@)
    &&& 1 <= b.schedule.interval_seconds <= 86400
    &&& is_valid_target(b.target, root, confirmed)
    &&& (b.source.store == StoreKind::Fake) == (b.target is Fake)
    &&& (b.source.store == StoreKind::Fake || b.source.store == StoreKind::LocalVault
        || b.source.store == StoreKind::Azure)
    &&& (b.source.store == StoreKind::Azure ==> is_valid_azure_source(b.source))
}

/// The configuration rule: the current schema, valid bindings, distinct IDs.
pub open spec fn is_valid_config(c: Config, root: Seq<char>, confirmed: Seq<String>) -> bool {
    &&& c.version == SCHEMA_VERSION
    &&& forall|i: int| 0 <= i < c.bindings@.len() ==> is_valid_binding(#[trigger] c.bindings@[i], root, confirmed)
    &&& forall|i: int, j: int| 0 <= i < c.bindings@.len() && 0 <= j < c.bindings@.len() && i != j
        ==> #[trigger] c.bindings@[i].id@ != #[trigger] c.bindings@[j].id@
}

fn valid_target(t: &TargetSpec, root: &str, confirmed: &Vec<String>) -> (r: bool)
    ensures
        r == is_valid_target(*t, root@, confirmed@),
{
    match t {
        TargetSpec::Fake { slot } => safe_label(slot.as_str()),
        TargetSpec::WholeFile { path } => valid_scoped_path(path.as_str(), root, confirmed),
        TargetSpec::StructuredField { path, key, format } => valid_scoped_path(path.as_str(), root, confirmed)
            && valid_field_key(key.as_str(), format),
        TargetSpec::DockerInput { path, key, input } => valid_scoped_path(path.as_str(), root, confirmed)
            && valid_docker_key(key.as_str(), input, root, confirmed),
        TargetSpec::GitCredential { protocol, host, path, username } => {
            let https = "https";
            proof {
                reveal_strlit("https");
            }
            let p = match path {
                Some(p) => Some(p.as_str()),
                None => None,
            };
            same_text(protocol.as_str(), https) && safe_host(host.as_str()) && safe_git_path(p)
                && safe_git_username(username.as_str())
        },
    }
}

fn valid_binding(b: &Binding, root: &str, confirmed: &Vec<String>) -> (r: bool)
    ensures
        r == is_valid_binding(*b, root@, confirmed@),
{
    let fake_store = match b.source.store {
        StoreKind::Fake => true,
        _ => false,
    };
    let fake_target = match b.target {
        TargetSpec::Fake { .. } => true,
        _ => false,
    };
    let supported = match b.source.store {
        StoreKind::Fake | StoreKind::LocalVault | StoreKind::Azure => true,
        _ => false,
    };
    let azure = match b.source.store {
        StoreKind::Azure => true,
        _ => false,
    };
    safe_label(b.id.as_str()) && safe_label(b.source.connection.as_str()) && safe_label(b.source.entry.as_str())
        && 1 <= b.schedule.interval_seconds && b.schedule.interval_seconds <= 86400
        && valid_target(&b.target, root, confirmed) && fake_store == fake_target && supported
        && (!azure || valid_source(&b.source))
}

/// Checks a decoded configuration against the approved root and the paths the
/// caller confirmed on disk, and hands it back when it passes.
pub fn validate_config(config: Config, root: &str, confirmed: &Vec<String>) -> (r: Result<Config, ErrorCategory>)
    ensures
        r is Ok <==> is_valid_config(config, root@, confirmed@),
        r matches Ok(c) ==> c == config,
        r is Err ==> r == Err::<Config, ErrorCategory>(ErrorCategory::InvalidConfig),
{
    if config.version != SCHEMA_VERSION {
        return Err(ErrorCategory::InvalidConfig);
    }
    let mut ids: Vec<String> = Vec::new();
    let mut i: usize = 0;
    while i < config.bindings.len()
        invariant
            i <= config.bindings@.len(),
            config.version == SCHEMA_VERSION,
            ids@.len() == i,
            forall|j: int| 0 <= j < i ==> #[trigger] ids@[j]@ == config.bindings@[j].id@,
            forall|j: int| 0 <= j < i ==> is_valid_binding(#[trigger] config.bindings@[j], root@, confirmed@),
            forall|a: int, b: int| 0 <= a < i && 0 <= b < i && a != b ==> #[trigger] config.bindings@[a].id@ != #[trigger] config.bindings@[b].id@,
        decreases config.bindings@.len() - i,
    {
        let b = &config.bindings[i];
        if !valid_binding(b, root, confirmed) {
            return Err(ErrorCategory::InvalidConfig);
        }
        if name_position(&ids, b.id.as_str()).is_some() {
            proof {
                let k = choose|k: int| 0 <= k < ids@.len() && #[trigger] ids@[k]@ == b.id@;
                assert(config.bindings@[k].id@ == config.bindings@[i as int].id@);
            }
            return Err(ErrorCategory::InvalidConfig);
        }
        let ghost before = ids@;
        ids.push(b.id.clone());
        proof {
            assert forall|j: int| 0 <= j < i + 1 implies #[trigger] ids@[j]@ == config.bindings@[j].id@ by {
                if j < i {
                    assert(ids@[j] == before[j]);
                }
            }
            assert forall|a: int, c: int| 0 <= a < i + 1 && 0 <= c < i + 1 && a != c implies #[trigger] config.bindings@[a].id@ != #[trigger] config.bindings@[c].id@ by {
                if a == i && c < i {
                    assert(before[c]@ == config.bindings@[c].id@);
                } else if c == i && a < i {
                    assert(before[a]@ == config.bindings@[a].id@);
                }
            }
        }
        i = i + 1;
    }
    Ok(config)
}

/// The paths of a target that the scope rule asks the caller to resolve.
pub open spec fn target_paths(t: TargetSpec) -> Seq<Seq<char>> {
    match t {
        TargetSpec::WholeFile { path } => seq![path@],
        TargetSpec::StructuredField { path, .. } => seq![path@],
        TargetSpec::DockerInput { path, input, .. } => match input {
            DockerInputKind::EnvFile { compose_path, .. } => seq![path@, compose_path@],
            DockerInputKind::ComposeEnvironment => seq![path@],
        },
        _ => seq![],
    }
}

/// The paths of all bindings' targets, binding by binding.
pub open spec fn config_paths(bs: Seq<Binding>) -> Seq<Seq<char>>
    decreases bs.len(),
{
    if bs.len() == 0 {
        seq![]
    } else {
        config_paths(bs.drop_last()) + target_paths(bs.last().target)
    }
}

/// Every path the caller must resolve on disk before the configuration is
/// validated.
pub fn paths_to_confirm(config: &Config) -> (r: Vec<String>)
    ensures
        r@.map_values(|s: String| s@) == config_paths(config.bindings@),
{
    let mut out: Vec<String> = Vec::new();
    let mut i: usize = 0;
    while i < config.bindings.len()
        invariant
            i <= config.bindings@.len(),
            out@.map_values(|s: String| s@) == config_paths(config.bindings@.take(i as int)),
        decreases config.bindings@.len() - i,
    {
        let ghost before = out@;
        assert(config.bindings@.take(i as int + 1).drop_last() =~= config.bindings@.take(i as int));
        match &config.bindings[i].target {
            TargetSpec::WholeFile { path } => {
                out.push(path.clone());
            },
            TargetSpec::StructuredField { path, .. } => {
                out.push(path.clone());
            },
            TargetSpec::DockerInput { path, input, .. } => {
                out.push(path.clone());
                match input {
                    DockerInputKind::EnvFile { compose_path, .. } => {
                        out.push(compose_path.clone());
                    },
                    DockerInputKind::ComposeEnvironment => {},
                }
            },
            _ => {},
        }
        assert(out@.map_values(|s: String| s@) =~= before.map_values(|s: String| s@) + target_paths(config.bindings@[i as int].target));
        i = i + 1;
    }
    assert(config.bindings@.take(config.bindings@.len() as int) =~= config.bindings@);
    out
}

} // verus!
