//! The rules the desktop window applies when it saves a configuration:
//! which sources it may bind, and which bindings a new configuration
//! changes, so that their recorded state can be forgotten.
use crate::cloud::{is_valid_azure_source, valid_source};
use crate::domain::{
    same_binding, same_opt_text, same_target, Binding, Config, DockerInputKind, SecretType,
    StoreKind, TargetSpec,
};
use crate::engine::find_binding;
use crate::ledger::{has_name, insert_name, unique_names};
use crate::text::same_text;
use vstd::prelude::*;

verus! {

/// The window binds the local vault, on its `local` connection, and text
/// secrets of Azure Key Vault under a valid vault and secret name.
pub open spec fn desktop_binding_allowed(b: Binding) -> bool {
    ||| (b.source.store == StoreKind::Azure && b.secret_type == SecretType::Text && is_valid_azure_source(b.source))
    ||| (b.source.store == StoreKind::LocalVault && b.source.connection@ == "local"@)
}

/// Why the window refuses to save a configuration before it is checked.
#[derive(Clone, Copy, Debug, PartialEq, Eq, Structural)]
pub enum SaveRefusal {
    /// A sync is running; bindings may not change under it.
    SyncPending,
    /// The configuration file changed since the window read it.
    ChangedElsewhere,
}

impl SaveRefusal {
    /// What the window shows for the refusal.
    pub fn message(&self) -> (r: &'static str)
        ensures
            r@ == save_refusal_text(*self),
    {
        match self {
            SaveRefusal::SyncPending => "Wait for the current sync to finish before changing bindings.",
            SaveRefusal::ChangedElsewhere => "Configuration changed in another process. Reopen this window before saving.",
        }
    }
}

pub open spec fn save_refusal_text(r: SaveRefusal) -> Seq<char> {
    match r {
        SaveRefusal::SyncPending => "Wait for the current sync to finish before changing bindings."@,
        SaveRefusal::ChangedElsewhere => "Configuration changed in another process. Reopen this window before saving."@,
    }
}

/// A save waits for a running sync to finish.
pub fn check_no_pending_sync(sync_pending: bool) -> (r: Result<(), SaveRefusal>)
    ensures
        r == if sync_pending { Err::<(), SaveRefusal>(SaveRefusal::SyncPending) } else { Ok::<(), SaveRefusal>(()) },
{
    if sync_pending {
        Err(SaveRefusal::SyncPending)
    } else {
        Ok(())
    }
}

/// A save goes through only while the configuration file holds what the
/// window read (both absent, or the same bytes); otherwise another process
/// changed it.
pub fn check_unchanged_on_disk(on_disk: Option<&[u8]>, loaded: Option<&[u8]>) -> (r: Result<(), SaveRefusal>)
    ensures
        r == if (match (on_disk, loaded) {
            (None, None) => true,
            (Some(a), Some(b)) => a@ == b@,
            _ => false,
        }) {
            Ok::<(), SaveRefusal>(())
        } else {
            Err::<(), SaveRefusal>(SaveRefusal::ChangedElsewhere)
        },
{
    let same = match (on_disk, loaded) {
        (None, None) => true,
        (Some(a), Some(b)) => crate::text::same_bytes(a, b),
        _ => false,
    };
    if same {
        Ok(())
    } else {
        Err(SaveRefusal::ChangedElsewhere)
    }
}

/// Every binding of the configuration is one the window may bind.
pub fn desktop_bindings_allowed(config: &Config) -> (r: bool)
    ensures
        r == forall|i: int| 0 <= i < config.bindings@.len() ==> desktop_binding_allowed(#[trigger] config.bindings@[i]),
{
    let mut i: usize = 0;
    while i < config.bindings.len()
        invariant
            i <= config.bindings@.len(),
            forall|j: int| 0 <= j < i ==> desktop_binding_allowed(#[trigger] config.bindings@[j]),
        decreases config.bindings@.len() - i,
    {
        let b = &config.bindings[i];
        let s = &b.source;
        let ok = match s.store {
            StoreKind::Azure => b.secret_type == SecretType::Text && valid_source(s),
            StoreKind::LocalVault => {
                proof {
                    reveal_strlit("local");
                }
                same_text(s.connection.as_str(), "local")
            },
            _ => false,
        };
        if !ok {
            return false;
        }
        i = i + 1;
    }
    true
}

/// The first binding with this ID, as a lookup by ID finds it.
pub open spec fn first_with_id(bs: Seq<Binding>, id: Seq<char>) -> Option<Binding>
    decreases bs.len(),
{
    if bs.len() == 0 {
        None
    } else if bs[0].id@ == id {
        Some(bs[0])
    } else {
        first_with_id(bs.drop_first(), id)
    }
}

/// Both lookups found nothing, or both found bindings that say the same.
pub open spec fn same_entry(a: Option<Binding>, b: Option<Binding>) -> bool {
    match (a, b) {
        (None, None) => true,
        (Some(x), Some(y)) => same_binding(x, y),
        _ => false,
    }
}

/// The binding with ID `id` is not the same in the two configurations.
pub open spec fn binding_changed(before: Config, after: Config, id: Seq<char>) -> bool {
    !same_entry(first_with_id(before.bindings@, id), first_with_id(after.bindings@, id))
}

proof fn lemma_first_found(bs: Seq<Binding>, id: Seq<char>, i: int)
    requires
        0 <= i < bs.len(),
        bs[i].id@ == id,
        forall|j: int| 0 <= j < i ==> bs[j].id@ != id,
    ensures
        first_with_id(bs, id) == Some(bs[i]),
    decreases i,
{
    if i > 0 {
        lemma_first_found(bs.drop_first(), id, i - 1);
    }
}

proof fn lemma_first_absent(bs: Seq<Binding>, id: Seq<char>)
    requires
        forall|j: int| 0 <= j < bs.len() ==> bs[j].id@ != id,
    ensures
        first_with_id(bs, id) is None,
    decreases bs.len(),
{
    if bs.len() > 0 {
        lemma_first_absent(bs.drop_first(), id);
    }
}

/// The first binding with ID `id`, by a search from the front.
fn lookup<'a>(config: &'a Config, id: &str) -> (r: Option<&'a Binding>)
    ensures
        match (r, first_with_id(config.bindings@, id@)) {
            (Some(b), Some(c)) => *b == c,
            (None, None) => true,
            _ => false,
        },
{
    match find_binding(config, id) {
        Some(i) => {
            proof {
                lemma_first_found(config.bindings@, id@, i as int);
            }
            Some(&config.bindings[i])
        },
        None => {
            proof {
                lemma_first_absent(config.bindings@, id@);
            }
            None
        },
    }
}

fn same_optional_text(a: &Option<String>, b: &Option<String>) -> (r: bool)
    ensures
        r == same_opt_text(*a, *b),
{
    match (a, b) {
        (Some(x), Some(y)) => same_text(x.as_str(), y.as_str()),
        (None, None) => true,
        _ => false,
    }
}

fn same_target_spec(a: &TargetSpec, b: &TargetSpec) -> (r: bool)
    ensures
        r == same_target(*a, *b),
{
    match (a, b) {
        (TargetSpec::Fake { slot: x }, TargetSpec::Fake { slot: y }) => same_text(x.as_str(), y.as_str()),
        (TargetSpec::WholeFile { path: x }, TargetSpec::WholeFile { path: y }) => same_text(x.as_str(), y.as_str()),
        (
            TargetSpec::StructuredField { path: p1, key: k1, format: f1 },
            TargetSpec::StructuredField { path: p2, key: k2, format: f2 },
        ) => same_text(p1.as_str(), p2.as_str()) && same_text(k1.as_str(), k2.as_str()) && *f1 == *f2,
        (
            TargetSpec::DockerInput { path: p1, key: k1, input: i1 },
            TargetSpec::DockerInput { path: p2, key: k2, input: i2 },
        ) => {
            let inputs = match (i1, i2) {
                (DockerInputKind::ComposeEnvironment, DockerInputKind::ComposeEnvironment) => true,
                (
                    DockerInputKind::EnvFile { compose_path: c1, service: s1 },
                    DockerInputKind::EnvFile { compose_path: c2, service: s2 },
                ) => same_text(c1.as_str(), c2.as_str()) && same_text(s1.as_str(), s2.as_str()),
                _ => false,
            };
            same_text(p1.as_str(), p2.as_str()) && same_text(k1.as_str(), k2.as_str()) && inputs
        },
        (
            TargetSpec::GitCredential { protocol: a1, host: h1, path: p1, username: u1 },
            TargetSpec::GitCredential { protocol: a2, host: h2, path: p2, username: u2 },
        ) => same_text(a1.as_str(), a2.as_str()) && same_text(h1.as_str(), h2.as_str())
            && same_optional_text(p1, p2) && same_text(u1.as_str(), u2.as_str()),
        _ => false,
    }
}

/// Field-by-field comparison of two bindings.
pub fn same_binding_fields(a: &Binding, b: &Binding) -> (r: bool)
    ensures
        r == same_binding(*a, *b),
{
    same_text(a.id.as_str(), b.id.as_str()) && a.source.store == b.source.store
        && same_text(a.source.connection.as_str(), b.source.connection.as_str())
        && same_text(a.source.entry.as_str(), b.source.entry.as_str())
        && a.secret_type == b.secret_type && same_target_spec(&a.target, &b.target)
        && a.missing_target == b.missing_target
        && a.schedule.interval_seconds == b.schedule.interval_seconds
}

fn changed(before: &Config, after: &Config, id: &str) -> (r: bool)
    ensures
        r == binding_changed(*before, *after, id@),
{
    match (lookup(before, id), lookup(after, id)) {
        (None, None) => false,
        (Some(x), Some(y)) => !same_binding_fields(x, y),
        _ => true,
    }
}

/// Some binding among the first `n` of `bs` has ID `k`.
pub open spec fn listed(bs: Seq<Binding>, n: int, k: Seq<char>) -> bool {
    exists|j: int| 0 <= j < n && #[trigger] bs[j].id@ == k
}

proof fn lemma_listed_step(bs: Seq<Binding>, n: int, k: Seq<char>)
    requires
        0 <= n < bs.len(),
    ensures
        listed(bs, n + 1, k) <==> (listed(bs, n, k) || bs[n].id@ == k),
{
    if listed(bs, n + 1, k) {
        let j = choose|j: int| 0 <= j < n + 1 && #[trigger] bs[j].id@ == k;
        if j < n {
            assert(listed(bs, n, k));
        }
    }
    if listed(bs, n, k) {
        let j = choose|j: int| 0 <= j < n && #[trigger] bs[j].id@ == k;
        assert(0 <= j < n + 1 && bs[j].id@ == k);
    }
    if bs[n].id@ == k {
        assert(0 <= n < n + 1 && bs[n].id@ == k);
    }
}

/// Adds each ID of `bs` whose binding changed, keeping `out` free of repeats.
fn collect_changed(before: &Config, after: &Config, bs: &Vec<Binding>, start: Vec<String>) -> (out: Vec<String>)
    requires
        unique_names(start@),
    ensures
        unique_names(out@),
        forall|k: Seq<char>| has_name(out@, k) <==> (has_name(start@, k) || (binding_changed(
            *before,
            *after,
            k,
        ) && listed(bs@, bs@.len() as int, k))),
{
    let mut out = start;
    let ghost start = out@;
    let mut i: usize = 0;
    while i < bs.len()
        invariant
            i <= bs@.len(),
            unique_names(out@),
            forall|k: Seq<char>| #![trigger has_name(out@, k)] has_name(out@, k) <==> (has_name(start, k) || (binding_changed(
                *before,
                *after,
                k,
            ) && listed(bs@, i as int, k))),
        decreases bs@.len() - i,
    {
        let id = bs[i].id.as_str();
        let ghost prev = out@;
        let c = changed(before, after, id);
        if c {
            insert_name(&mut out, bs[i].id.clone());
        }
        let ghost old_i = i as int;
        i = i + 1;
        proof {
            assert forall|k: Seq<char>| has_name(out@, k) <==> (has_name(start, k) || (binding_changed(
                *before,
                *after,
                k,
            ) && listed(bs@, i as int, k))) by {
                lemma_listed_step(bs@, old_i, k);
                if c {
                    assert(has_name(out@, k) <==> (has_name(prev, k) || k == bs@[old_i].id@));
                } else {
                    assert(out@ == prev);
                }
            }
        }
    }
    out
}

/// The IDs of the bindings that a new configuration adds, removes or
/// alters, each once: their recorded versions and status no longer apply.
pub fn changed_bindings(before: &Config, after: &Config) -> (r: Vec<String>)
    ensures
        unique_names(r@),
        forall|k: Seq<char>| has_name(r@, k) <==> binding_changed(*before, *after, k),
{
    let out = collect_changed(before, after, &before.bindings, Vec::new());
    let out = collect_changed(before, after, &after.bindings, out);
    assert forall|k: Seq<char>| binding_changed(*before, *after, k) implies has_name(out@, k) by {
        if !listed(before.bindings@, before.bindings@.len() as int, k) {
            lemma_first_absent(before.bindings@, k);
            if !listed(after.bindings@, after.bindings@.len() as int, k) {
                lemma_first_absent(after.bindings@, k);
            }
        }
    }
    out
}

/// Saving a configuration unchanged forgets the recorded state of no
/// binding.
pub proof fn law_unchanged_config_changes_nothing(config: Config, id: Seq<char>)
    ensures
        !binding_changed(config, config, id),
{
}

} // verus!
