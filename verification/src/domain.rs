//! Typed contracts shared by the sources, targets, engine and stores.
//! Paths are carried as UTF-8 strings.
use crate::text::{ascii_alnum, bytes_of, is_alnum, utf8_of};
use vstd::prelude::*;
use vstd::utf8::encode_utf8;

verus! {

pub const SCHEMA_VERSION: u32 = 1;

#[derive(Clone, Copy, Debug, PartialEq, Eq, Structural)]
pub enum StoreKind {
    Fake,
    LocalVault,
    Azure,
    Aws,
    Google,
    OneDrive,
    GoogleDrive,
    Git,
}

#[derive(Clone, Copy, Debug, PartialEq, Eq, Structural)]
pub enum SecretType {
    Text,
    Json,
    Binary,
    Certificate,
    PrivateKey,
}

#[derive(Clone, Debug, PartialEq, Eq)]
pub struct SourceRef {
    pub store: StoreKind,
    pub connection: String,
    pub entry: String,
}

#[derive(Clone, Copy, Debug, PartialEq, Eq, Structural)]
pub enum StructuredFormat {
    DotEnv,
    Json,
    Yaml,
    Properties,
}

#[derive(Clone, Debug, PartialEq, Eq)]
pub enum DockerInputKind {
    ComposeEnvironment,
    EnvFile { compose_path: String, service: String },
}

#[allow(inconsistent_fields)]
#[derive(Clone, Debug, PartialEq, Eq)]
pub enum TargetSpec {
    Fake { slot: String },
    WholeFile { path: String },
    StructuredField { path: String, key: String, format: StructuredFormat },
    DockerInput { path: String, key: String, input: DockerInputKind },
    GitCredential { protocol: String, host: String, path: Option<String>, username: String },
}

/// What two concurrent syncs must not write at the same time: one file, one
/// Git credential, or one fake slot.
#[derive(Clone, Debug, PartialEq, Eq, Hash)]
pub enum TargetIdentity {
    File(String),
    GitCredential(String, String, Option<String>),
    Fake(String),
}

/// `id` names the place that target `t` writes.
pub open spec fn identifies(t: TargetSpec, id: TargetIdentity) -> bool {
    match (t, id) {
        (TargetSpec::WholeFile { path }, TargetIdentity::File(p)) => p@ == path@,
        (TargetSpec::StructuredField { path, .. }, TargetIdentity::File(p)) => p@ == path@,
        (TargetSpec::DockerInput { path, .. }, TargetIdentity::File(p)) => p@ == path@,
        (TargetSpec::GitCredential { protocol, host, path, .. }, TargetIdentity::GitCredential(a, b, c)) => {
            &&& a@ == protocol@
            &&& b@ == host@
            &&& match (c, path) {
                (Some(x), Some(y)) => x@ == y@,
                (None, None) => true,
                _ => false,
            }
        },
        (TargetSpec::Fake { slot }, TargetIdentity::Fake(s)) => s@ == slot@,
        _ => false,
    }
}

impl TargetSpec {
    /// The place this target writes.
    pub fn identity(&self) -> (r: TargetIdentity)
        ensures
            identifies(*self, r),
    {
        match self {
            TargetSpec::WholeFile { path } => TargetIdentity::File(path.clone()),
            TargetSpec::StructuredField { path, .. } => TargetIdentity::File(path.clone()),
            TargetSpec::DockerInput { path, .. } => TargetIdentity::File(path.clone()),
            TargetSpec::GitCredential { protocol, host, path, .. } => {
                let p = match path {
                    Some(p) => Some(p.clone()),
                    None => None,
                };
                TargetIdentity::GitCredential(protocol.clone(), host.clone(), p)
            },
            TargetSpec::Fake { slot } => TargetIdentity::Fake(slot.clone()),
        }
    }
}

#[derive(Clone, Copy, Debug, PartialEq, Eq, Structural)]
pub enum MissingTargetPolicy {
    Alert,
    Recreate,
    Disable,
}

#[derive(Clone, Copy, Debug, PartialEq, Eq, Structural)]
pub struct Schedule {
    pub interval_seconds: u64,
}

#[derive(Clone, Debug, PartialEq, Eq)]
pub struct Binding {
    pub id: String,
    pub source: SourceRef,
    pub secret_type: SecretType,
    pub target: TargetSpec,
    pub missing_target: MissingTargetPolicy,
    pub schedule: Schedule,
}

#[derive(Clone, Debug, PartialEq, Eq)]
pub struct Config {
    pub version: u32,
    pub bindings: Vec<Binding>,
}

#[derive(Clone, Debug, PartialEq, Eq)]
pub struct SourceVersion(pub String);

#[derive(Clone, Copy, Debug, PartialEq, Eq, Structural)]
pub enum ErrorCategory {
    InvalidConfig,
    Source,
    VersionConflict,
    Target,
    State,
    Unauthorized,
}

#[derive(Clone, Copy, Debug, PartialEq, Eq, Structural)]
pub enum SyncOutcome {
    Unchanged,
    Applied,
    RestartRequired,
    Disabled,
    Failed(ErrorCategory),
}

#[derive(Clone, Copy, Debug, PartialEq, Eq, Structural)]
pub struct RedactedStatus {
    pub timestamp: u64,
    pub outcome: SyncOutcome,
}

#[derive(Clone, Copy, Debug, PartialEq, Eq, Structural)]
pub enum EventOperation {
    Sync,
    AcknowledgeRestart,
    Enable,
}

/// One redacted event record: no payload, path or provider text.
#[derive(Clone, Debug, PartialEq, Eq)]
pub struct Event {
    pub timestamp: u64,
    pub binding_id: String,
    pub operation: EventOperation,
    pub source_kind: StoreKind,
    pub outcome: SyncOutcome,
}

#[derive(Clone, Copy, Debug, PartialEq, Eq, Structural)]
pub enum ModuleKind {
    Store,
    Target,
}

pub enum ModuleSetting {
    Source(SourceRef),
    Target(TargetSpec),
}

impl ErrorCategory {
    /// The category's name, as it is shown to users.
    pub fn name(&self) -> (r: &'static str)
        ensures
            r@ == error_category_name(*self),
    {
        match self {
            ErrorCategory::InvalidConfig => "InvalidConfig",
            ErrorCategory::Source => "Source",
            ErrorCategory::VersionConflict => "VersionConflict",
            ErrorCategory::Target => "Target",
            ErrorCategory::State => "State",
            ErrorCategory::Unauthorized => "Unauthorized",
        }
    }
}

pub open spec fn error_category_name(e: ErrorCategory) -> Seq<char> {
    match e {
        ErrorCategory::InvalidConfig => "InvalidConfig"@,
        ErrorCategory::Source => "Source"@,
        ErrorCategory::VersionConflict => "VersionConflict"@,
        ErrorCategory::Target => "Target"@,
        ErrorCategory::State => "State"@,
        ErrorCategory::Unauthorized => "Unauthorized"@,
    }
}

/// Transient secret bytes with their declared type.
pub struct SecretPayload {
    bytes: Vec<u8>,
    pub kind: SecretType,
}

impl SecretPayload {
    pub closed spec fn bytes(&self) -> Seq<u8> {
        self.bytes@
    }

    pub closed spec fn declared_kind(&self) -> SecretType {
        self.kind
    }

    /// The payload's declared secret type.
    pub fn secret_type(&self) -> (k: SecretType)
        ensures
            k == self.declared_kind(),
    {
        self.kind
    }

    pub fn new(bytes: Vec<u8>, kind: SecretType) -> (p: Self)
        ensures
            p.bytes() == bytes@,
            p.declared_kind() == kind,
    {
        SecretPayload { bytes, kind }
    }

    pub fn as_bytes(&self) -> (b: &[u8])
        ensures
            b@ == self.bytes(),
    {
        self.bytes.as_slice()
    }
}

/// Bytes allowed in binding, connection and entry labels.
pub open spec fn is_label_byte(b: u8) -> bool {
    is_alnum(b) || b == 0x2d || b == 0x5f || b == 0x2e
}

/// A non-empty text of at most `max` bytes, each a letter, digit, `-`, `_` or `.`.
pub open spec fn is_safe_token(s: Seq<u8>, max: int) -> bool {
    &&& 0 < s.len() <= max
    &&& forall|i: int| 0 <= i < s.len() ==> is_label_byte(#[trigger] s[i])
}

pub open spec fn is_safe_label(s: Seq<char>) -> bool {
    is_safe_token(encode_utf8(s), 64)
}

pub open spec fn is_safe_version(s: Seq<char>) -> bool {
    is_safe_token(encode_utf8(s), 128)
}

fn safe_token(v: &str, max: usize) -> (r: bool)
    ensures
        r == is_safe_token(utf8_of(v), max as int),
{
    let b = bytes_of(v);
    if b.len() == 0 || b.len() > max {
        return false;
    }
    let mut i: usize = 0;
    while i < b.len()
        invariant
            i <= b@.len(),
            b@ == utf8_of(v),
            0 < b@.len() <= max,
            forall|j: int| 0 <= j < i ==> is_label_byte(#[trigger] b@[j]),
        decreases b@.len() - i,
    {
        let c = b[i];
        if !(ascii_alnum(c) || c == 0x2d || c == 0x5f || c == 0x2e) {
            assert(!is_label_byte(b@[i as int]));
            return false;
        }
        i = i + 1;
    }
    true
}

/// A label for bindings, connections, entries and modules.
pub fn safe_label(v: &str) -> (r: bool)
    ensures
        r == is_safe_label(v@),
{
    safe_token(v, 64)
}

/// A version identifier that may be recorded in local state.
pub fn safe_version(v: &str) -> (r: bool)
    ensures
        r == is_safe_version(v@),
{
    safe_token(v, 128)
}

/// A wait: whole seconds plus milliseconds below one second.
#[derive(Clone, Copy, Debug, PartialEq, Eq)]
pub struct Delay {
    pub secs: u64,
    pub millis: u32,
}

impl Delay {
    pub open spec fn total_millis(&self) -> int {
        self.secs * 1000 + self.millis
    }

    pub fn as_millis(&self) -> (r: u128)
        ensures
            r == self.total_millis(),
    {
        self.secs as u128 * 1000 + self.millis as u128
    }

    pub fn as_secs(&self) -> (r: u64)
        ensures
            r == self.secs,
    {
        self.secs
    }
}

/// `2^min(attempt, 8)`, capped at 300 seconds.
pub open spec fn backoff_seconds(attempt: u32) -> int {
    let e: nat = if attempt < 8 { attempt as nat } else { 8 };
    let p = vstd::arithmetic::power2::pow2(e);
    if p < 300 { p as int } else { 300 }
}

/// The wait before retry `attempt`: exponential backoff with a cap plus up to
/// half a second of jitter taken from `seed`.
pub fn retry_delay(attempt: u32, seed: u64) -> (d: Delay)
    ensures
        d.secs == backoff_seconds(attempt),
        d.millis == seed % 501,
        d.total_millis() == backoff_seconds(attempt) * 1000 + seed % 501,
{
    let e: u32 = if attempt < 8 { attempt } else { 8 };
    let mut base: u64 = 1;
    let mut i: u32 = 0;
    proof {
        vstd::arithmetic::power2::lemma2_to64();
    }
    while i < e
        invariant
            i <= e <= 8,
            base == vstd::arithmetic::power2::pow2(i as nat),
        decreases e - i,
    {
        proof {
            vstd::arithmetic::power2::lemma_pow2_adds(i as nat, 1);
            vstd::arithmetic::power2::lemma2_to64();
            vstd::arithmetic::power2::lemma_pow2_strictly_increases(i as nat, 8);
        }
        base = base * 2;
        i = i + 1;
    }
    let secs: u64 = if base < 300 { base } else { 300 };
    Delay { secs, millis: (seed % 501) as u32 }
}

/// Two optional texts hold the same characters.
pub open spec fn same_opt_text(a: Option<String>, b: Option<String>) -> bool {
    match (a, b) {
        (Some(x), Some(y)) => x@ == y@,
        (None, None) => true,
        _ => false,
    }
}

/// Two targets write the same place in the same way.
pub open spec fn same_target(a: TargetSpec, b: TargetSpec) -> bool {
    match (a, b) {
        (TargetSpec::Fake { slot: x }, TargetSpec::Fake { slot: y }) => x@ == y@,
        (TargetSpec::WholeFile { path: x }, TargetSpec::WholeFile { path: y }) => x@ == y@,
        (TargetSpec::StructuredField { path: p1, key: k1, format: f1 }, TargetSpec::StructuredField { path: p2, key: k2, format: f2 }) =>
            p1@ == p2@ && k1@ == k2@ && f1 == f2,
        (TargetSpec::DockerInput { path: p1, key: k1, input: i1 }, TargetSpec::DockerInput { path: p2, key: k2, input: i2 }) =>
            p1@ == p2@ && k1@ == k2@ && match (i1, i2) {
                (DockerInputKind::ComposeEnvironment, DockerInputKind::ComposeEnvironment) => true,
                (DockerInputKind::EnvFile { compose_path: c1, service: s1 }, DockerInputKind::EnvFile { compose_path: c2, service: s2 }) =>
                    c1@ == c2@ && s1@ == s2@,
                _ => false,
            },
        (TargetSpec::GitCredential { protocol: a1, host: h1, path: p1, username: u1 }, TargetSpec::GitCredential { protocol: a2, host: h2, path: p2, username: u2 }) =>
            a1@ == a2@ && h1@ == h2@ && same_opt_text(p1, p2) && u1@ == u2@,
        _ => false,
    }
}

/// Two bindings say the same thing, field by field.
pub open spec fn same_binding(a: Binding, b: Binding) -> bool {
    &&& a.id@ == b.id@
    &&& a.source.store == b.source.store
    &&& a.source.connection@ == b.source.connection@
    &&& a.source.entry@ == b.source.entry@
    &&& a.secret_type == b.secret_type
    &&& same_target(a.target, b.target)
    &&& a.missing_target == b.missing_target
    &&& a.schedule == b.schedule
}

/// The text of an optional string.
pub open spec fn opt_text(o: Option<String>) -> Option<Seq<char>> {
    match o {
        Some(x) => Some(x@),
        None => None,
    }
}

/// A target as plain values: which kind of target it is, the text of each
/// of its fields in declaration order, and its format where it has one.
pub open spec fn target_fields(t: TargetSpec) -> (nat, Seq<Option<Seq<char>>>, Option<StructuredFormat>) {
    match t {
        TargetSpec::Fake { slot } => (0, seq![Some(slot@)], None),
        TargetSpec::WholeFile { path } => (1, seq![Some(path@)], None),
        TargetSpec::StructuredField { path, key, format } => (2, seq![Some(path@), Some(key@)], Some(format)),
        TargetSpec::DockerInput { path, key, input } => match input {
            DockerInputKind::ComposeEnvironment => (3, seq![Some(path@), Some(key@)], None),
            DockerInputKind::EnvFile { compose_path, service } =>
                (4, seq![Some(path@), Some(key@), Some(compose_path@), Some(service@)], None),
        },
        TargetSpec::GitCredential { protocol, host, path, username } =>
            (5, seq![Some(protocol@), Some(host@), opt_text(path), Some(username@)], None),
    }
}

/// A binding as plain values, every field of it.
pub open spec fn binding_fields(b: Binding) -> (
    Seq<char>,
    StoreKind,
    Seq<char>,
    Seq<char>,
    SecretType,
    (nat, Seq<Option<Seq<char>>>, Option<StructuredFormat>),
    MissingTargetPolicy,
    Schedule,
) {
    (b.id@, b.source.store, b.source.connection@, b.source.entry@, b.secret_type, target_fields(b.target), b.missing_target, b.schedule)
}

/// Two bindings are judged the same exactly when they agree on every field:
/// a different path, key, format, Compose file, service, host, repository
/// path or user name of the target makes them different.
pub proof fn law_same_binding_is_field_equality(a: Binding, b: Binding)
    ensures
        same_binding(a, b) <==> binding_fields(a) == binding_fields(b),
{
    let ta = target_fields(a.target);
    let tb = target_fields(b.target);
    assert(same_target(a.target, b.target) <==> ta == tb) by {
        if ta == tb {
            assert(ta.1.len() == tb.1.len());
            assert forall|i: int| 0 <= i < ta.1.len() implies ta.1[i] == tb.1[i] by {}
            match (a.target, b.target) {
                (TargetSpec::Fake { .. }, TargetSpec::Fake { .. }) => { assert(ta.1[0] == tb.1[0]); },
                (TargetSpec::WholeFile { .. }, TargetSpec::WholeFile { .. }) => { assert(ta.1[0] == tb.1[0]); },
                (TargetSpec::StructuredField { .. }, TargetSpec::StructuredField { .. }) => {
                    assert(ta.1[0] == tb.1[0] && ta.1[1] == tb.1[1]);
                },
                (TargetSpec::DockerInput { input: i1, .. }, TargetSpec::DockerInput { input: i2, .. }) => {
                    assert(ta.1[0] == tb.1[0] && ta.1[1] == tb.1[1]);
                    match (i1, i2) {
                        (DockerInputKind::EnvFile { .. }, DockerInputKind::EnvFile { .. }) => {
                            assert(ta.1[2] == tb.1[2] && ta.1[3] == tb.1[3]);
                        },
                        _ => {},
                    }
                },
                (TargetSpec::GitCredential { .. }, TargetSpec::GitCredential { .. }) => {
                    assert(ta.1[0] == tb.1[0] && ta.1[1] == tb.1[1] && ta.1[2] == tb.1[2] && ta.1[3] == tb.1[3]);
                },
                _ => {},
            }
        }
        if same_target(a.target, b.target) {
            match (a.target, b.target) {
                (TargetSpec::DockerInput { input: i1, .. }, TargetSpec::DockerInput { input: i2, .. }) => {
                    match (i1, i2) {
                        (DockerInputKind::EnvFile { .. }, DockerInputKind::EnvFile { .. }) => {
                            assert(ta.1 =~= tb.1);
                        },
                        _ => {
                            assert(ta.1 =~= tb.1);
                        },
                    }
                },
                _ => {
                    assert(ta.1 =~= tb.1);
                },
            }
        }
    }
}

} // verus!
