//! The binding editor's model: the labels it shows, the form a binding is
//! edited in, and the decimal text of a check interval.
use crate::domain::{
    Binding, Config, DockerInputKind, ErrorCategory, MissingTargetPolicy, Schedule, SecretType, SourceRef,
    StoreKind, StructuredFormat, SyncOutcome, TargetSpec,
};
use crate::domain::same_binding;
use crate::text::{bytes_of, chars_of, push_char, same_text};
use vstd::prelude::*;

verus! {

/// The decimal digit character for `d < 10`.
pub open spec fn digit_char(d: int) -> char {
    (48 + d) as char
}

/// The decimal text of `n`, without sign or leading zeros.
pub open spec fn decimal(n: nat) -> Seq<char>
    decreases n,
{
    if n < 10 {
        seq![digit_char(n as int)]
    } else {
        decimal(n / 10).push(digit_char((n % 10) as int))
    }
}

/// The value of a run of decimal digits.
pub open spec fn digits_value(s: Seq<char>) -> nat
    decreases s.len(),
{
    if s.len() == 0 {
        0
    } else {
        digits_value(s.drop_last()) * 10 + ((s.last() as nat) - 48) as nat
    }
}

pub open spec fn all_digits(s: Seq<char>) -> bool {
    forall|i: int| 0 <= i < s.len() ==> '0' <= #[trigger] s[i] <= '9'
}

/// What `u64::from_str` accepts: an optional `+`, then at least one ASCII
/// digit, with a value that fits in 64 bits.
pub open spec fn parsed_u64(s: Seq<char>) -> Option<u64> {
    let d = if s.len() > 0 && s[0] == '+' { s.skip(1) } else { s };
    if d.len() > 0 && all_digits(d) && digits_value(d) <= u64::MAX {
        Some(digits_value(d) as u64)
    } else {
        None
    }
}

fn push_decimal(s: &mut String, n: u64)
    ensures
        final(s)@ == old(s)@ + decimal(n as nat),
    decreases n,
{
    if n >= 10 {
        push_decimal(s, n / 10);
    }
    let d = (n % 10) as u8;
    push_char(s, (48u8 + d) as char);
    assert(final(s)@ =~= old(s)@ + decimal(n as nat)) by {
        if n >= 10 {
            assert(decimal(n as nat) == decimal((n / 10) as nat).push(digit_char((n % 10) as int)));
        }
    }
}

/// The decimal text of `n`, as `u64::to_string` writes it.
pub fn format_u64(n: u64) -> (s: String)
    ensures
        s@ == decimal(n as nat),
{
    let mut s = String::new();
    push_decimal(&mut s, n);
    assert(s@ =~= decimal(n as nat));
    s
}

proof fn lemma_digits_value_grows(s: Seq<char>, i: int)
    requires
        all_digits(s),
        0 <= i <= s.len(),
    ensures
        digits_value(s.take(i)) <= digits_value(s),
    decreases s.len() - i,
{
    if i < s.len() {
        lemma_digits_value_grows(s, i + 1);
        assert(s.take(i + 1).drop_last() =~= s.take(i));
    } else {
        assert(s.take(i) =~= s);
    }
}

/// `u64::from_str` on decimal text.
pub fn parse_u64(text: &str) -> (r: Option<u64>)
    ensures
        r == parsed_u64(text@),
{
    let s = chars_of(text);
    let start: usize = if s.len() > 0 && s[0] == '+' { 1 } else { 0 };
    let ghost d = if s@.len() > 0 && s@[0] == '+' { s@.skip(1) } else { s@ };
    assert(d =~= s@.skip(start as int));
    if start >= s.len() {
        return None;
    }
    let mut acc: u64 = 0;
    let mut i: usize = start;
    while i < s.len()
        invariant
            s@ == text@,
            start <= i <= s@.len(),
            d == s@.skip(start as int),
            d == (if text@.len() > 0 && text@[0] == '+' { text@.skip(1) } else { text@ }),
            forall|j: int| 0 <= j < i - start ==> '0' <= #[trigger] d[j] <= '9',
            acc == digits_value(d.take(i - start)),
        decreases s@.len() - i,
    {
        let c = s[i];
        assert(d[i - start] == c);
        if c < '0' || c > '9' {
            assert(!all_digits(d));
            return None;
        }
        assert(d.take(i - start + 1).drop_last() =~= d.take(i - start));
        let v = (c as u32 - 48) as u64;
        if acc > 1844674407370955161 || (acc == 1844674407370955161 && v > 5) {
            proof {
                let k = i - start + 1;
                assert(digits_value(d.take(k)) > u64::MAX);
                if all_digits(d) {
                    lemma_digits_value_grows(d, k);
                }
            }
            return None;
        }
        acc = acc * 10 + v;
        i = i + 1;
    }
    assert(d.take(d.len() as int) =~= d);
    Some(acc)
}

proof fn lemma_decimal_digits(n: nat)
    ensures
        decimal(n).len() > 0,
        all_digits(decimal(n)),
        digits_value(decimal(n)) == n,
    decreases n,
{
    let r = (n % 10) as int;
    assert(digit_char(r) as nat == 48 + r);
    if n >= 10 {
        lemma_decimal_digits(n / 10);
        let d = decimal(n / 10).push(digit_char(r));
        assert(d.drop_last() =~= decimal(n / 10));
        assert(digits_value(d) == digits_value(decimal(n / 10)) * 10 + r);
    } else {
        let d = seq![digit_char(n as int)];
        assert(d.drop_last() =~= Seq::<char>::empty());
        assert(digits_value(Seq::<char>::empty()) == 0);
        assert(d.last() == digit_char(n as int));
        assert(digits_value(d) == n);
    }
}

/// The text of an interval reads back as the same interval.
pub proof fn law_interval_text_round_trip(n: u64)
    ensures
        parsed_u64(decimal(n as nat)) == Some(n),
{
    lemma_decimal_digits(n as nat);
    assert(decimal(n as nat)[0] != '+');
}

/// The target kinds the binding editor offers.
#[derive(Clone, Copy, Debug, PartialEq, Eq, Structural)]
pub enum TargetChoice {
    WholeFile,
    DotEnv,
    Json,
    Yaml,
    Properties,
    DockerCompose,
    DockerEnvFile,
    GitCredential,
}

pub open spec fn target_choice_label(c: TargetChoice) -> Seq<char> {
    match c {
        TargetChoice::WholeFile => "Whole file"@,
        TargetChoice::DotEnv => ".env variable"@,
        TargetChoice::Json => "JSON field"@,
        TargetChoice::Yaml => "YAML field"@,
        TargetChoice::Properties => "Properties field"@,
        TargetChoice::DockerCompose => "Docker Compose environment"@,
        TargetChoice::DockerEnvFile => "Docker env_file"@,
        TargetChoice::GitCredential => "Git Credential Manager"@,
    }
}

impl TargetChoice {
    /// Every choice, in the order the editor lists them.
    pub fn all() -> (r: [TargetChoice; 8])
        ensures
            r@ == seq![TargetChoice::WholeFile, TargetChoice::DotEnv, TargetChoice::Json, TargetChoice::Yaml,
                TargetChoice::Properties, TargetChoice::DockerCompose, TargetChoice::DockerEnvFile,
                TargetChoice::GitCredential],
    {
        let r = [
            TargetChoice::WholeFile,
            TargetChoice::DotEnv,
            TargetChoice::Json,
            TargetChoice::Yaml,
            TargetChoice::Properties,
            TargetChoice::DockerCompose,
            TargetChoice::DockerEnvFile,
            TargetChoice::GitCredential,
        ];
        assert(r@ =~= seq![TargetChoice::WholeFile, TargetChoice::DotEnv, TargetChoice::Json, TargetChoice::Yaml,
            TargetChoice::Properties, TargetChoice::DockerCompose, TargetChoice::DockerEnvFile,
            TargetChoice::GitCredential]);
        r
    }

    pub fn label(self) -> (r: &'static str)
        ensures
            r@ == target_choice_label(self),
    {
        match self {
            TargetChoice::WholeFile => "Whole file",
            TargetChoice::DotEnv => ".env variable",
            TargetChoice::Json => "JSON field",
            TargetChoice::Yaml => "YAML field",
            TargetChoice::Properties => "Properties field",
            TargetChoice::DockerCompose => "Docker Compose environment",
            TargetChoice::DockerEnvFile => "Docker env_file",
            TargetChoice::GitCredential => "Git Credential Manager",
        }
    }
}

pub open spec fn secret_type_text(kind: SecretType) -> Seq<char> {
    match kind {
        SecretType::Text => "Text"@,
        SecretType::Json => "JSON"@,
        SecretType::Binary => "Binary"@,
        SecretType::Certificate => "Certificate"@,
        SecretType::PrivateKey => "Private key"@,
    }
}

pub fn secret_type_label(kind: &SecretType) -> (r: &'static str)
    ensures
        r@ == secret_type_text(*kind),
{
    match kind {
        SecretType::Text => "Text",
        SecretType::Json => "JSON",
        SecretType::Binary => "Binary",
        SecretType::Certificate => "Certificate",
        SecretType::PrivateKey => "Private key",
    }
}

pub open spec fn outcome_text(outcome: SyncOutcome) -> Seq<char> {
    match outcome {
        SyncOutcome::Unchanged => "Up to date"@,
        SyncOutcome::Applied => "Synced"@,
        SyncOutcome::RestartRequired => "Restart required"@,
        SyncOutcome::Disabled => "Disabled"@,
        SyncOutcome::Failed(category) => match category {
            ErrorCategory::InvalidConfig => "Invalid configuration"@,
            ErrorCategory::Source => "Source unavailable"@,
            ErrorCategory::VersionConflict => "Version conflict"@,
            ErrorCategory::Target => "Target error"@,
            ErrorCategory::State => "State error"@,
            ErrorCategory::Unauthorized => "Access denied"@,
        },
    }
}

pub fn outcome_label(outcome: &SyncOutcome) -> (r: &'static str)
    ensures
        r@ == outcome_text(*outcome),
{
    match outcome {
        SyncOutcome::Unchanged => "Up to date",
        SyncOutcome::Applied => "Synced",
        SyncOutcome::RestartRequired => "Restart required",
        SyncOutcome::Disabled => "Disabled",
        SyncOutcome::Failed(category) => match category {
            ErrorCategory::InvalidConfig => "Invalid configuration",
            ErrorCategory::Source => "Source unavailable",
            ErrorCategory::VersionConflict => "Version conflict",
            ErrorCategory::Target => "Target error",
            ErrorCategory::State => "State error",
            ErrorCategory::Unauthorized => "Access denied",
        },
    }
}

pub open spec fn policy_text(policy: MissingTargetPolicy) -> Seq<char> {
    match policy {
        MissingTargetPolicy::Alert => "Alert"@,
        MissingTargetPolicy::Recreate => "Recreate"@,
        MissingTargetPolicy::Disable => "Disable binding"@,
    }
}

pub fn policy_label(policy: &MissingTargetPolicy) -> (r: &'static str)
    ensures
        r@ == policy_text(*policy),
{
    match policy {
        MissingTargetPolicy::Alert => "Alert",
        MissingTargetPolicy::Recreate => "Recreate",
        MissingTargetPolicy::Disable => "Disable binding",
    }
}

pub open spec fn target_text(target: TargetSpec) -> Seq<char> {
    match target {
        TargetSpec::WholeFile { .. } => "File"@,
        TargetSpec::StructuredField { .. } => "Field"@,
        TargetSpec::DockerInput { .. } => "Docker"@,
        TargetSpec::GitCredential { .. } => "Git"@,
        TargetSpec::Fake { .. } => "Fake"@,
    }
}

pub fn target_label(target: &TargetSpec) -> (r: &'static str)
    ensures
        r@ == target_text(*target),
{
    match target {
        TargetSpec::WholeFile { .. } => "File",
        TargetSpec::StructuredField { .. } => "Field",
        TargetSpec::DockerInput { .. } => "Docker",
        TargetSpec::GitCredential { .. } => "Git",
        TargetSpec::Fake { .. } => "Fake",
    }
}

/// The binding editor's fields, as text where the user types.
pub struct BindingForm {
    pub previous_id: Option<String>,
    pub source_kind: StoreKind,
    pub connection: String,
    pub id: String,
    pub entry: String,
    pub secret_type: SecretType,
    pub target_kind: TargetChoice,
    pub path: String,
    pub key: String,
    pub compose_path: String,
    pub service: String,
    pub host: String,
    pub git_path: String,
    pub username: String,
    pub policy: MissingTargetPolicy,
    pub interval: String,
}

/// A new binding: a local-vault text secret written to a whole file, checked
/// every 60 seconds, alerting when the target is missing.
pub open spec fn is_blank_form(f: BindingForm) -> bool {
    &&& f.previous_id is None
    &&& f.source_kind == StoreKind::LocalVault
    &&& f.connection@ == Seq::<char>::empty()
    &&& f.id@ == Seq::<char>::empty()
    &&& f.entry@ == Seq::<char>::empty()
    &&& f.secret_type == SecretType::Text
    &&& f.target_kind == TargetChoice::WholeFile
    &&& f.path@ == Seq::<char>::empty()
    &&& f.key@ == Seq::<char>::empty()
    &&& f.compose_path@ == Seq::<char>::empty()
    &&& f.service@ == Seq::<char>::empty()
    &&& f.host@ == Seq::<char>::empty()
    &&& f.git_path@ == Seq::<char>::empty()
    &&& f.username@ == Seq::<char>::empty()
    &&& f.policy == MissingTargetPolicy::Alert
    &&& f.interval@ == "60"@
}

impl Default for BindingForm {
    fn default() -> (r: Self)
        ensures
            is_blank_form(r),
    {
        let interval = "60";
        proof {
            reveal_strlit("60");
        }
        BindingForm {
            previous_id: None,
            source_kind: StoreKind::LocalVault,
            connection: String::new(),
            id: String::new(),
            entry: String::new(),
            secret_type: SecretType::Text,
            target_kind: TargetChoice::WholeFile,
            path: String::new(),
            key: String::new(),
            compose_path: String::new(),
            service: String::new(),
            host: String::new(),
            git_path: String::new(),
            username: String::new(),
            policy: MissingTargetPolicy::Alert,
            interval: interval.to_owned(),
        }
    }
}

/// The editor's choice for a target.
pub open spec fn choice_of(t: TargetSpec) -> TargetChoice {
    match t {
        TargetSpec::StructuredField { format, .. } => match format {
            StructuredFormat::DotEnv => TargetChoice::DotEnv,
            StructuredFormat::Json => TargetChoice::Json,
            StructuredFormat::Yaml => TargetChoice::Yaml,
            StructuredFormat::Properties => TargetChoice::Properties,
        },
        TargetSpec::DockerInput { input, .. } => match input {
            DockerInputKind::ComposeEnvironment => TargetChoice::DockerCompose,
            DockerInputKind::EnvFile { .. } => TargetChoice::DockerEnvFile,
        },
        TargetSpec::GitCredential { .. } => TargetChoice::GitCredential,
        _ => TargetChoice::WholeFile,
    }
}

/// The form shows binding `b`: its own fields, the fields its target uses,
/// and blanks for the rest.
pub open spec fn shows(f: BindingForm, b: Binding) -> bool {
    &&& f.previous_id matches Some(o) && o@ == b.id@
    &&& f.source_kind == b.source.store
    &&& f.connection@ == b.source.connection@
    &&& f.id@ == b.id@
    &&& f.entry@ == b.source.entry@
    &&& f.secret_type == b.secret_type
    &&& f.policy == b.missing_target
    &&& f.interval@ == decimal(b.schedule.interval_seconds as nat)
    &&& f.target_kind == choice_of(b.target)
    &&& f.path@ == (match b.target {
        TargetSpec::WholeFile { path } => path@,
        TargetSpec::StructuredField { path, .. } => path@,
        TargetSpec::DockerInput { path, .. } => path@,
        _ => Seq::<char>::empty(),
    })
    &&& f.key@ == (match b.target {
        TargetSpec::StructuredField { key, .. } => key@,
        TargetSpec::DockerInput { key, .. } => key@,
        _ => Seq::<char>::empty(),
    })
    &&& f.compose_path@ == (match b.target {
        TargetSpec::DockerInput { input: DockerInputKind::EnvFile { compose_path, .. }, .. } => compose_path@,
        _ => Seq::<char>::empty(),
    })
    &&& f.service@ == (match b.target {
        TargetSpec::DockerInput { input: DockerInputKind::EnvFile { service, .. }, .. } => service@,
        _ => Seq::<char>::empty(),
    })
    &&& f.host@ == (match b.target {
        TargetSpec::GitCredential { host, .. } => host@,
        _ => Seq::<char>::empty(),
    })
    &&& f.git_path@ == (match b.target {
        TargetSpec::GitCredential { path: Some(p), .. } => p@,
        _ => Seq::<char>::empty(),
    })
    &&& f.username@ == (match b.target {
        TargetSpec::GitCredential { username, .. } => username@,
        _ => Seq::<char>::empty(),
    })
}

/// The target the form describes.
pub open spec fn form_target(f: BindingForm, t: TargetSpec) -> bool {
    match f.target_kind {
        TargetChoice::WholeFile => t matches TargetSpec::WholeFile { path } && path@ == f.path@,
        TargetChoice::DotEnv => t matches TargetSpec::StructuredField { path, key, format }
            && path@ == f.path@ && key@ == f.key@ && format == StructuredFormat::DotEnv,
        TargetChoice::Json => t matches TargetSpec::StructuredField { path, key, format }
            && path@ == f.path@ && key@ == f.key@ && format == StructuredFormat::Json,
        TargetChoice::Yaml => t matches TargetSpec::StructuredField { path, key, format }
            && path@ == f.path@ && key@ == f.key@ && format == StructuredFormat::Yaml,
        TargetChoice::Properties => t matches TargetSpec::StructuredField { path, key, format }
            && path@ == f.path@ && key@ == f.key@ && format == StructuredFormat::Properties,
        TargetChoice::DockerCompose => t matches TargetSpec::DockerInput { path, key, input }
            && path@ == f.path@ && key@ == f.key@ && input == DockerInputKind::ComposeEnvironment,
        TargetChoice::DockerEnvFile => t matches TargetSpec::DockerInput { path, key, input: DockerInputKind::EnvFile { compose_path, service } }
            && path@ == f.path@ && key@ == f.key@ && compose_path@ == f.compose_path@ && service@ == f.service@,
        TargetChoice::GitCredential => t matches TargetSpec::GitCredential { protocol, host, path, username }
            && protocol@ == "https"@ && host@ == f.host@ && username@ == f.username@
            && (if f.git_path@.len() == 0 { path is None } else { path matches Some(p) && p@ == f.git_path@ }),
    }
}

/// The binding the form describes, with its interval read from the text.
/// A local-vault source always uses the `local` connection.
pub open spec fn form_binding(f: BindingForm, b: Binding, interval: u64) -> bool {
    &&& b.id@ == f.id@
    &&& b.source.store == f.source_kind
    &&& b.source.connection@ == (if f.source_kind == StoreKind::LocalVault { "local"@ } else { f.connection@ })
    &&& b.source.entry@ == f.entry@
    &&& b.secret_type == f.secret_type
    &&& form_target(f, b.target)
    &&& b.missing_target == f.policy
    &&& b.schedule.interval_seconds == interval
}

impl BindingForm {
    /// The form for editing an existing binding.
    pub fn from_binding(binding: &Binding) -> (f: Self)
        ensures
            shows(f, *binding),
    {
        let mut form = BindingForm::default();
        form.previous_id = Some(binding.id.clone());
        form.source_kind = binding.source.store;
        form.connection = binding.source.connection.clone();
        form.id = binding.id.clone();
        form.entry = binding.source.entry.clone();
        form.secret_type = binding.secret_type;
        form.policy = binding.missing_target;
        form.interval = format_u64(binding.schedule.interval_seconds);
        match &binding.target {
            TargetSpec::WholeFile { path } => {
                form.target_kind = TargetChoice::WholeFile;
                form.path = path.clone();
            },
            TargetSpec::StructuredField { path, key, format } => {
                form.path = path.clone();
                form.key = key.clone();
                form.target_kind = match format {
                    StructuredFormat::DotEnv => TargetChoice::DotEnv,
                    StructuredFormat::Json => TargetChoice::Json,
                    StructuredFormat::Yaml => TargetChoice::Yaml,
                    StructuredFormat::Properties => TargetChoice::Properties,
                };
            },
            TargetSpec::DockerInput { path, key, input } => {
                form.path = path.clone();
                form.key = key.clone();
                match input {
                    DockerInputKind::ComposeEnvironment => {
                        form.target_kind = TargetChoice::DockerCompose;
                    },
                    DockerInputKind::EnvFile { compose_path, service } => {
                        form.target_kind = TargetChoice::DockerEnvFile;
                        form.compose_path = compose_path.clone();
                        form.service = service.clone();
                    },
                }
            },
            TargetSpec::GitCredential { host, path, username, .. } => {
                form.target_kind = TargetChoice::GitCredential;
                form.host = host.clone();
                form.git_path = match path {
                    Some(p) => p.clone(),
                    None => String::new(),
                };
                form.username = username.clone();
            },
            TargetSpec::Fake { .. } => {},
        }
        form
    }

    /// The binding the form describes; refused when the interval is not a
    /// number.
    pub fn binding(&self) -> (r: Result<Binding, &'static str>)
        ensures
            r is Ok <==> parsed_u64(self.interval@) is Some,
            r matches Err(m) ==> m@ == "Enter a valid check interval."@,
            r matches Ok(b) ==> form_binding(*self, b, parsed_u64(self.interval@)->0),
    {
        let target = match self.target_kind {
            TargetChoice::WholeFile => TargetSpec::WholeFile { path: self.path.clone() },
            TargetChoice::DotEnv => TargetSpec::StructuredField { path: self.path.clone(), key: self.key.clone(), format: StructuredFormat::DotEnv },
            TargetChoice::Json => TargetSpec::StructuredField { path: self.path.clone(), key: self.key.clone(), format: StructuredFormat::Json },
            TargetChoice::Yaml => TargetSpec::StructuredField { path: self.path.clone(), key: self.key.clone(), format: StructuredFormat::Yaml },
            TargetChoice::Properties => TargetSpec::StructuredField { path: self.path.clone(), key: self.key.clone(), format: StructuredFormat::Properties },
            TargetChoice::DockerCompose => TargetSpec::DockerInput {
                path: self.path.clone(),
                key: self.key.clone(),
                input: DockerInputKind::ComposeEnvironment,
            },
            TargetChoice::DockerEnvFile => TargetSpec::DockerInput {
                path: self.path.clone(),
                key: self.key.clone(),
                input: DockerInputKind::EnvFile { compose_path: self.compose_path.clone(), service: self.service.clone() },
            },
            TargetChoice::GitCredential => {
                let https = "https";
                proof {
                    reveal_strlit("https");
                }
                let path = if bytes_of(self.git_path.as_str()).len() == 0 {
                    None
                } else {
                    Some(self.git_path.clone())
                };
                TargetSpec::GitCredential { protocol: https.to_owned(), host: self.host.clone(), path, username: self.username.clone() }
            },
        };
        let interval_seconds = match parse_u64(self.interval.as_str()) {
            Some(n) => n,
            None => {
                let m = "Enter a valid check interval.";
                proof {
                    reveal_strlit("Enter a valid check interval.");
                }
                return Err(m);
            },
        };
        let local = "local";
        proof {
            reveal_strlit("local");
        }
        let connection = match self.source_kind {
            StoreKind::LocalVault => local.to_owned(),
            _ => self.connection.clone(),
        };
        Ok(Binding {
            id: self.id.clone(),
            source: SourceRef { store: self.source_kind, connection, entry: self.source_entry() },
            secret_type: self.secret_type,
            target,
            missing_target: self.policy,
            schedule: Schedule { interval_seconds },
        })
    }

    fn source_entry(&self) -> (e: String)
        ensures
            e@ == self.entry@,
    {
        self.entry.clone()
    }
}

/// Editing and saving unchanged gives back the binding, for every binding the
/// editor can express: a Git credential over https with no empty repository
/// path, and a local-vault source on the `local` connection.
pub proof fn law_form_round_trip(b: Binding, f: BindingForm, back: Binding)
    requires
        shows(f, b),
        !(b.target is Fake),
        b.target matches TargetSpec::GitCredential { protocol, path, .. } ==> protocol@ == "https"@
            && (path matches Some(p) ==> p@.len() > 0),
        b.source.store == StoreKind::LocalVault ==> b.source.connection@ == "local"@,
        form_binding(f, back, parsed_u64(f.interval@)->0),
    ensures
        parsed_u64(f.interval@) is Some,
        same_binding(back, b),
{
    law_interval_text_round_trip(b.schedule.interval_seconds);
}

/// The secret type a command-line answer names.
pub open spec fn secret_type_named(s: Seq<char>) -> Option<SecretType> {
    if s == "text"@ {
        Some(SecretType::Text)
    } else if s == "json"@ {
        Some(SecretType::Json)
    } else if s == "binary"@ {
        Some(SecretType::Binary)
    } else if s == "certificate"@ {
        Some(SecretType::Certificate)
    } else if s == "private_key"@ {
        Some(SecretType::PrivateKey)
    } else {
        None
    }
}

pub fn parse_secret_type(s: &str) -> (r: Option<SecretType>)
    ensures
        r == secret_type_named(s@),
{
    proof {
        reveal_strlit("text");
        reveal_strlit("json");
        reveal_strlit("binary");
        reveal_strlit("certificate");
        reveal_strlit("private_key");
    }
    if same_text(s, "text") {
        Some(SecretType::Text)
    } else if same_text(s, "json") {
        Some(SecretType::Json)
    } else if same_text(s, "binary") {
        Some(SecretType::Binary)
    } else if same_text(s, "certificate") {
        Some(SecretType::Certificate)
    } else if same_text(s, "private_key") {
        Some(SecretType::PrivateKey)
    } else {
        None
    }
}

/// The missing-target policy a command-line answer names.
pub open spec fn policy_named(s: Seq<char>) -> Option<MissingTargetPolicy> {
    if s == "alert"@ {
        Some(MissingTargetPolicy::Alert)
    } else if s == "recreate"@ {
        Some(MissingTargetPolicy::Recreate)
    } else if s == "disable"@ {
        Some(MissingTargetPolicy::Disable)
    } else {
        None
    }
}

pub fn parse_policy(s: &str) -> (r: Option<MissingTargetPolicy>)
    ensures
        r == policy_named(s@),
{
    proof {
        reveal_strlit("alert");
        reveal_strlit("recreate");
        reveal_strlit("disable");
    }
    if same_text(s, "alert") {
        Some(MissingTargetPolicy::Alert)
    } else if same_text(s, "recreate") {
        Some(MissingTargetPolicy::Recreate)
    } else if same_text(s, "disable") {
        Some(MissingTargetPolicy::Disable)
    } else {
        None
    }
}

/// The target kind a command-line answer names.
pub open spec fn target_choice_named(s: Seq<char>) -> Option<TargetChoice> {
    if s == "whole_file"@ {
        Some(TargetChoice::WholeFile)
    } else if s == "dotenv"@ {
        Some(TargetChoice::DotEnv)
    } else if s == "json"@ {
        Some(TargetChoice::Json)
    } else if s == "yaml"@ {
        Some(TargetChoice::Yaml)
    } else if s == "properties"@ {
        Some(TargetChoice::Properties)
    } else if s == "docker_compose"@ {
        Some(TargetChoice::DockerCompose)
    } else if s == "docker_env_file"@ {
        Some(TargetChoice::DockerEnvFile)
    } else if s == "git_credential"@ {
        Some(TargetChoice::GitCredential)
    } else {
        None
    }
}

pub fn parse_target_choice(s: &str) -> (r: Option<TargetChoice>)
    ensures
        r == target_choice_named(s@),
{
    proof {
        reveal_strlit("whole_file");
        reveal_strlit("dotenv");
        reveal_strlit("json");
        reveal_strlit("yaml");
        reveal_strlit("properties");
        reveal_strlit("docker_compose");
        reveal_strlit("docker_env_file");
        reveal_strlit("git_credential");
    }
    if same_text(s, "whole_file") {
        Some(TargetChoice::WholeFile)
    } else if same_text(s, "dotenv") {
        Some(TargetChoice::DotEnv)
    } else if same_text(s, "json") {
        Some(TargetChoice::Json)
    } else if same_text(s, "yaml") {
        Some(TargetChoice::Yaml)
    } else if same_text(s, "properties") {
        Some(TargetChoice::Properties)
    } else if same_text(s, "docker_compose") {
        Some(TargetChoice::DockerCompose)
    } else if same_text(s, "docker_env_file") {
        Some(TargetChoice::DockerEnvFile)
    } else if same_text(s, "git_credential") {
        Some(TargetChoice::GitCredential)
    } else {
        None
    }
}

/// Adds a command-line binding to a configuration whose bindings all read
/// the local vault; a configuration using another store is left alone.
pub fn append_vault_binding(config: Config, binding: Binding) -> (r: Result<Config, &'static str>)
    ensures
        r is Ok <==> forall|i: int| 0 <= i < config.bindings@.len() ==> (#[trigger] config.bindings@[i]).source.store == StoreKind::LocalVault,
        r matches Err(m) ==> m@ == "existing config uses a different store"@,
        r matches Ok(c) ==> c.version == config.version && c.bindings@ == config.bindings@.push(binding),
{
    let mut i: usize = 0;
    while i < config.bindings.len()
        invariant
            i <= config.bindings@.len(),
            forall|j: int| 0 <= j < i ==> (#[trigger] config.bindings@[j]).source.store == StoreKind::LocalVault,
        decreases config.bindings@.len() - i,
    {
        match config.bindings[i].source.store {
            StoreKind::LocalVault => {},
            _ => {
                let m = "existing config uses a different store";
                proof {
                    reveal_strlit("existing config uses a different store");
                }
                return Err(m);
            },
        }
        i = i + 1;
    }
    let mut config = config;
    config.bindings.push(binding);
    Ok(config)
}

} // verus!
