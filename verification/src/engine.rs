//! The sync state machine. The caller performs each step (validate the target,
//! read metadata, read the value, apply, persist) and reports what happened;
//! every decision, and every change of the per-device state, is made here.
use crate::domain::{
    is_safe_label, is_safe_version, safe_label, safe_version, Binding, Config, ErrorCategory,
    MissingTargetPolicy, RedactedStatus, SecretType, SourceVersion, SyncOutcome, TargetSpec,
    SCHEMA_VERSION,
};
use crate::ledger::{
    has_key, has_name, insert_name, lemma_value_at, position, remove_key, remove_name,
    unique_keys, unique_names, upsert, value_of,
};
use crate::text::same_text;
use vstd::prelude::*;

verus! {

/// Per-device state: the last applied version, the last redacted status and
/// the disabled flag of each binding.
#[derive(Debug)]
pub struct State {
    pub version: u32,
    pub applied: Vec<(String, SourceVersion)>,
    pub status: Vec<(String, RedactedStatus)>,
    pub disabled: Vec<String>,
}

impl State {
    /// Each binding has at most one record of each kind.
    pub open spec fn wf(&self) -> bool {
        &&& unique_keys(self.applied@)
        &&& unique_keys(self.status@)
        &&& unique_names(self.disabled@)
    }

    pub open spec fn applied_version(&self, id: Seq<char>) -> Option<Seq<char>> {
        match value_of(self.applied@, id) {
            Some(v) => Some(v.0@),
            None => None,
        }
    }

    pub open spec fn status_of(&self, id: Seq<char>) -> Option<RedactedStatus> {
        value_of(self.status@, id)
    }

    pub open spec fn is_disabled(&self, id: Seq<char>) -> bool {
        has_name(self.disabled@, id)
    }

    /// The state of a device that has applied nothing yet.
    pub fn empty() -> (s: State)
        ensures
            s.wf(),
            s.version == SCHEMA_VERSION,
            forall|id: Seq<char>| s.applied_version(id) is None && s.status_of(id) is None
                && !s.is_disabled(id),
    {
        State { version: SCHEMA_VERSION, applied: Vec::new(), status: Vec::new(), disabled: Vec::new() }
    }
}

fn copy_version(v: &SourceVersion) -> (r: SourceVersion)
    ensures
        r == *v,
{
    SourceVersion(v.0.clone())
}

fn copy_string(s: &String) -> (r: String)
    ensures
        r == *s,
{
    s.clone()
}

fn copy_applied(v: &Vec<(String, SourceVersion)>) -> (r: Vec<(String, SourceVersion)>)
    ensures
        r@ == v@,
{
    let mut r: Vec<(String, SourceVersion)> = Vec::new();
    let mut i: usize = 0;
    while i < v.len()
        invariant
            i <= v@.len(),
            r@ == v@.take(i as int),
        decreases v@.len() - i,
    {
        r.push((copy_string(&v[i].0), copy_version(&v[i].1)));
        assert(r@ =~= v@.take(i as int + 1));
        i = i + 1;
    }
    assert(v@.take(v@.len() as int) =~= v@);
    r
}

fn copy_status(v: &Vec<(String, RedactedStatus)>) -> (r: Vec<(String, RedactedStatus)>)
    ensures
        r@ == v@,
{
    let mut r: Vec<(String, RedactedStatus)> = Vec::new();
    let mut i: usize = 0;
    while i < v.len()
        invariant
            i <= v@.len(),
            r@ == v@.take(i as int),
        decreases v@.len() - i,
    {
        r.push((copy_string(&v[i].0), v[i].1));
        assert(r@ =~= v@.take(i as int + 1));
        i = i + 1;
    }
    assert(v@.take(v@.len() as int) =~= v@);
    r
}

fn copy_names(v: &Vec<String>) -> (r: Vec<String>)
    ensures
        r@ == v@,
{
    let mut r: Vec<String> = Vec::new();
    let mut i: usize = 0;
    while i < v.len()
        invariant
            i <= v@.len(),
            r@ == v@.take(i as int),
        decreases v@.len() - i,
    {
        r.push(copy_string(&v[i]));
        assert(r@ =~= v@.take(i as int + 1));
        i = i + 1;
    }
    assert(v@.take(v@.len() as int) =~= v@);
    r
}

impl State {
    /// A copy of this state.
    pub fn duplicate(&self) -> (r: State)
        ensures
            r.version == self.version,
            r.applied@ == self.applied@,
            r.status@ == self.status@,
            r.disabled@ == self.disabled@,
    {
        State {
            version: self.version,
            applied: copy_applied(&self.applied),
            status: copy_status(&self.status),
            disabled: copy_names(&self.disabled),
        }
    }
}

/// The checks a state read from disk must pass.
pub open spec fn loadable_state(s: State) -> bool {
    &&& s.version == SCHEMA_VERSION
    &&& s.wf()
    &&& forall|i: int| 0 <= i < s.applied@.len() ==> is_safe_label(#[trigger] s.applied@[i].0@)
        && is_safe_version(s.applied@[i].1.0@)
    &&& forall|i: int| 0 <= i < s.status@.len() ==> is_safe_label(#[trigger] s.status@[i].0@)
    &&& forall|i: int| 0 <= i < s.disabled@.len() ==> is_safe_label(#[trigger] s.disabled@[i]@)
}

fn keys_distinct<V>(s: &Vec<(String, V)>) -> (r: bool)
    ensures
        r == unique_keys(s@),
{
    let mut i: usize = 0;
    while i < s.len()
        invariant
            i <= s@.len(),
            forall|a: int, b: int| 0 <= a < i && 0 <= b < s@.len() && a != b ==> #[trigger] s@[a].0@ != #[trigger] s@[b].0@,
        decreases s@.len() - i,
    {
        let mut j: usize = 0;
        while j < s.len()
            invariant
                i < s@.len(),
                j <= s@.len(),
                forall|a: int, b: int| 0 <= a < i && 0 <= b < s@.len() && a != b ==> #[trigger] s@[a].0@ != #[trigger] s@[b].0@,
                forall|b: int| 0 <= b < j && b != i ==> s@[i as int].0@ != #[trigger] s@[b].0@,
            decreases s@.len() - j,
        {
            if j != i && same_text(s[i].0.as_str(), s[j].0.as_str()) {
                return false;
            }
            j = j + 1;
        }
        i = i + 1;
    }
    true
}

fn names_distinct(s: &Vec<String>) -> (r: bool)
    ensures
        r == unique_names(s@),
{
    let mut i: usize = 0;
    while i < s.len()
        invariant
            i <= s@.len(),
            forall|a: int, b: int| 0 <= a < i && 0 <= b < s@.len() && a != b ==> #[trigger] s@[a]@ != #[trigger] s@[b]@,
        decreases s@.len() - i,
    {
        let mut j: usize = 0;
        while j < s.len()
            invariant
                i < s@.len(),
                j <= s@.len(),
                forall|a: int, b: int| 0 <= a < i && 0 <= b < s@.len() && a != b ==> #[trigger] s@[a]@ != #[trigger] s@[b]@,
                forall|b: int| 0 <= b < j && b != i ==> s@[i as int]@ != #[trigger] s@[b]@,
            decreases s@.len() - j,
        {
            if j != i && same_text(s[i].as_str(), s[j].as_str()) {
                return false;
            }
            j = j + 1;
        }
        i = i + 1;
    }
    true
}

/// Checks a state read from disk: the schema version, distinct keys (which the
/// map it was read from guarantees), safe labels and safe versions.
pub fn check_loaded_state(s: &State) -> (r: Result<(), ErrorCategory>)
    ensures
        r is Ok <==> loadable_state(*s),
        r is Err ==> r == Err::<(), ErrorCategory>(ErrorCategory::State),
{
    if s.version != SCHEMA_VERSION || !keys_distinct(&s.applied) || !keys_distinct(&s.status)
        || !names_distinct(&s.disabled) {
        return Err(ErrorCategory::State);
    }
    let mut i: usize = 0;
    while i < s.applied.len()
        invariant
            i <= s.applied@.len(),
            forall|j: int| 0 <= j < i ==> is_safe_label(#[trigger] s.applied@[j].0@) && is_safe_version(s.applied@[j].1.0@),
        decreases s.applied@.len() - i,
    {
        if !safe_label(s.applied[i].0.as_str()) || !safe_version(s.applied[i].1.0.as_str()) {
            return Err(ErrorCategory::State);
        }
        i = i + 1;
    }
    let mut i: usize = 0;
    while i < s.status.len()
        invariant
            i <= s.status@.len(),
            forall|j: int| 0 <= j < i ==> is_safe_label(#[trigger] s.status@[j].0@),
        decreases s.status@.len() - i,
    {
        if !safe_label(s.status[i].0.as_str()) {
            return Err(ErrorCategory::State);
        }
        i = i + 1;
    }
    let mut i: usize = 0;
    while i < s.disabled.len()
        invariant
            i <= s.disabled@.len(),
            forall|j: int| 0 <= j < i ==> is_safe_label(#[trigger] s.disabled@[j]@),
        decreases s.disabled@.len() - i,
    {
        if !safe_label(s.disabled[i].as_str()) {
            return Err(ErrorCategory::State);
        }
        i = i + 1;
    }
    Ok(())
}

pub open spec fn is_docker_target(t: TargetSpec) -> bool {
    t is DockerInput
}

pub fn docker_target(t: &TargetSpec) -> (r: bool)
    ensures
        r == is_docker_target(*t),
{
    match t {
        TargetSpec::DockerInput { .. } => true,
        _ => false,
    }
}

/// What the engine must do next for one sync run of one binding.
#[derive(Debug)]
pub enum SyncStep {
    /// Check the target's scope and type before any source access.
    ValidateTarget,
    /// Ask whether the target file is absent.
    CheckTarget,
    /// Read version metadata from the source.
    ReadVersion { target_missing: bool },
    /// Read the value of exactly this version.
    ReadValue { version: SourceVersion, target_missing: bool },
    /// Write the value to the target.
    Apply { version: SourceVersion },
    /// Persist the state with this version recorded as applied.
    Commit { version: SourceVersion },
    /// The run is over.
    Finish(SyncOutcome),
}

/// What happened when the engine performed a step.
#[derive(Debug)]
pub enum SyncEvent {
    Validated(Result<(), ErrorCategory>),
    Presence { missing: bool },
    Version(Result<SourceVersion, ErrorCategory>),
    /// The value was read; it carries the payload's declared type.
    Value(Result<SecretType, ErrorCategory>),
    Applied(Result<(), ErrorCategory>),
    Committed { persisted: bool },
}

/// The event reports on the step that was asked for.
pub open spec fn answers(step: SyncStep, event: SyncEvent) -> bool {
    match (step, event) {
        (SyncStep::ValidateTarget, SyncEvent::Validated(_)) => true,
        (SyncStep::CheckTarget, SyncEvent::Presence { .. }) => true,
        (SyncStep::ReadVersion { .. }, SyncEvent::Version(_)) => true,
        (SyncStep::ReadValue { .. }, SyncEvent::Value(_)) => true,
        (SyncStep::Apply { .. }, SyncEvent::Applied(_)) => true,
        (SyncStep::Commit { .. }, SyncEvent::Committed { .. }) => true,
        _ => false,
    }
}

/// The binding's last recorded outcome asks for a container restart.
pub open spec fn restart_pending(st: State, id: Seq<char>) -> bool {
    st.status_of(id) matches Some(s) && s.outcome == SyncOutcome::RestartRequired
}

/// The outcome of a run that found the applied version unchanged.
pub open spec fn unchanged_outcome(b: Binding, st: State) -> SyncOutcome {
    if is_docker_target(b.target) && restart_pending(st, b.id@) {
        SyncOutcome::RestartRequired
    } else {
        SyncOutcome::Unchanged
    }
}

/// The outcome of a run that applied and recorded a new version.
pub open spec fn applied_outcome(b: Binding) -> SyncOutcome {
    if is_docker_target(b.target) {
        SyncOutcome::RestartRequired
    } else {
        SyncOutcome::Applied
    }
}

/// The next step of a run, given what the current step reported.
pub open spec fn next_step(b: Binding, st: State, step: SyncStep, event: SyncEvent) -> SyncStep {
    match (step, event) {
        (SyncStep::ValidateTarget, SyncEvent::Validated(r)) => match r {
            Ok(_) => SyncStep::CheckTarget,
            Err(e) => SyncStep::Finish(SyncOutcome::Failed(e)),
        },
        (SyncStep::CheckTarget, SyncEvent::Presence { missing }) => if !missing {
            SyncStep::ReadVersion { target_missing: false }
        } else {
            match b.missing_target {
                MissingTargetPolicy::Alert => SyncStep::Finish(SyncOutcome::Failed(ErrorCategory::Target)),
                MissingTargetPolicy::Disable => SyncStep::Finish(SyncOutcome::Disabled),
                MissingTargetPolicy::Recreate => SyncStep::ReadVersion { target_missing: true },
            }
        },
        (SyncStep::ReadVersion { target_missing }, SyncEvent::Version(r)) => match r {
            Err(e) => SyncStep::Finish(SyncOutcome::Failed(e)),
            Ok(v) => if !is_safe_version(v.0@) {
                SyncStep::Finish(SyncOutcome::Failed(ErrorCategory::VersionConflict))
            } else if !target_missing && st.applied_version(b.id@) == Some(v.0@) {
                SyncStep::Finish(unchanged_outcome(b, st))
            } else {
                SyncStep::ReadValue { version: v, target_missing }
            },
        },
        (SyncStep::ReadValue { version, .. }, SyncEvent::Value(r)) => match r {
            Err(e) => SyncStep::Finish(SyncOutcome::Failed(e)),
            Ok(kind) => if kind != b.secret_type {
                SyncStep::Finish(SyncOutcome::Failed(ErrorCategory::VersionConflict))
            } else {
                SyncStep::Apply { version }
            },
        },
        (SyncStep::Apply { version }, SyncEvent::Applied(r)) => match r {
            Err(e) => SyncStep::Finish(SyncOutcome::Failed(e)),
            Ok(_) => SyncStep::Commit { version },
        },
        (SyncStep::Commit { .. }, SyncEvent::Committed { persisted }) => if persisted {
            SyncStep::Finish(applied_outcome(b))
        } else {
            SyncStep::Finish(SyncOutcome::Failed(ErrorCategory::State))
        },
        (s, _) => s,
    }
}

/// The first step of every run.
pub fn sync_start() -> (s: SyncStep)
    ensures
        s == SyncStep::ValidateTarget,
{
    SyncStep::ValidateTarget
}

fn restart_recorded(st: &State, id: &str) -> (r: bool)
    requires
        st.wf(),
    ensures
        r == restart_pending(*st, id@),
{
    match position(&st.status, id) {
        Some(i) => {
            proof {
                lemma_value_at(st.status@, i as int);
            }
            match st.status[i].1.outcome {
                SyncOutcome::RestartRequired => true,
                _ => false,
            }
        },
        None => false,
    }
}

fn applied_equals(st: &State, id: &str, v: &SourceVersion) -> (r: bool)
    requires
        st.wf(),
    ensures
        r == (st.applied_version(id@) == Some(v.0@)),
{
    match position(&st.applied, id) {
        Some(i) => {
            proof {
                lemma_value_at(st.applied@, i as int);
            }
            same_text(st.applied[i].1.0.as_str(), v.0.as_str())
        },
        None => false,
    }
}

/// Decides the next step of a run of `b` from what its current step reported.
pub fn sync_advance(b: &Binding, st: &State, step: SyncStep, event: SyncEvent) -> (r: SyncStep)
    requires
        st.wf(),
        answers(step, event),
    ensures
        r == next_step(*b, *st, step, event),
{
    match (step, event) {
        (SyncStep::ValidateTarget, SyncEvent::Validated(r)) => match r {
            Ok(_) => SyncStep::CheckTarget,
            Err(e) => SyncStep::Finish(SyncOutcome::Failed(e)),
        },
        (SyncStep::CheckTarget, SyncEvent::Presence { missing }) => if !missing {
            SyncStep::ReadVersion { target_missing: false }
        } else {
            match b.missing_target {
                MissingTargetPolicy::Alert => SyncStep::Finish(SyncOutcome::Failed(ErrorCategory::Target)),
                MissingTargetPolicy::Disable => SyncStep::Finish(SyncOutcome::Disabled),
                MissingTargetPolicy::Recreate => SyncStep::ReadVersion { target_missing: true },
            }
        },
        (SyncStep::ReadVersion { target_missing }, SyncEvent::Version(r)) => match r {
            Err(e) => SyncStep::Finish(SyncOutcome::Failed(e)),
            Ok(v) => if !safe_version(v.0.as_str()) {
                SyncStep::Finish(SyncOutcome::Failed(ErrorCategory::VersionConflict))
            } else if !target_missing && applied_equals(st, b.id.as_str(), &v) {
                if docker_target(&b.target) && restart_recorded(st, b.id.as_str()) {
                    SyncStep::Finish(SyncOutcome::RestartRequired)
                } else {
                    SyncStep::Finish(SyncOutcome::Unchanged)
                }
            } else {
                SyncStep::ReadValue { version: v, target_missing }
            },
        },
        (SyncStep::ReadValue { version, .. }, SyncEvent::Value(r)) => match r {
            Err(e) => SyncStep::Finish(SyncOutcome::Failed(e)),
            Ok(kind) => if kind != b.secret_type {
                SyncStep::Finish(SyncOutcome::Failed(ErrorCategory::VersionConflict))
            } else {
                SyncStep::Apply { version }
            },
        },
        (SyncStep::Apply { version }, SyncEvent::Applied(r)) => match r {
            Err(e) => SyncStep::Finish(SyncOutcome::Failed(e)),
            Ok(_) => SyncStep::Commit { version },
        },
        (SyncStep::Commit { .. }, SyncEvent::Committed { persisted }) => if persisted {
            if docker_target(&b.target) {
                SyncStep::Finish(SyncOutcome::RestartRequired)
            } else {
                SyncStep::Finish(SyncOutcome::Applied)
            }
        } else {
            SyncStep::Finish(SyncOutcome::Failed(ErrorCategory::State))
        },
        (s, _) => s,
    }
}

/// A disabled binding is not synced until it is enabled again.
pub fn is_disabled(st: &State, id: &str) -> (r: bool)
    requires
        st.wf(),
    ensures
        r == st.is_disabled(id@),
{
    match crate::ledger::name_position(&st.disabled, id) {
        Some(_) => true,
        None => false,
    }
}

/// The state with `version` recorded as applied for `id`; nothing else changes.
pub fn commit_version(st: &State, id: &str, version: &SourceVersion) -> (r: State)
    requires
        st.wf(),
    ensures
        r.wf(),
        r.version == st.version,
        r.applied_version(id@) == Some(version.0@),
        forall|k: Seq<char>| k != id@ ==> r.applied_version(k) == st.applied_version(k),
        r.status@ == st.status@,
        r.disabled@ == st.disabled@,
{
    let mut next = st.duplicate();
    upsert(&mut next.applied, id.to_owned(), copy_version(version));
    next
}

/// The state after a run of `id` ended with `outcome` at `timestamp`: the
/// status is replaced, a disabled outcome also disables the binding, and the
/// applied versions do not change.
pub fn record_outcome(st: &State, id: &str, outcome: SyncOutcome, timestamp: u64) -> (r: State)
    requires
        st.wf(),
    ensures
        r.wf(),
        r.version == st.version,
        r.applied@ == st.applied@,
        r.status_of(id@) == Some(RedactedStatus { timestamp, outcome }),
        forall|k: Seq<char>| k != id@ ==> r.status_of(k) == st.status_of(k),
        forall|k: Seq<char>| r.is_disabled(k) <==> (st.is_disabled(k) || (k == id@ && outcome
            == SyncOutcome::Disabled)),
{
    let mut next = st.duplicate();
    upsert(&mut next.status, id.to_owned(), RedactedStatus { timestamp, outcome });
    if outcome == SyncOutcome::Disabled {
        insert_name(&mut next.disabled, id.to_owned());
    }
    next
}

/// Clears a pending restart notice of a Docker binding. Any other binding, or
/// one with no pending notice, is refused.
pub fn acknowledge_restart(b: &Binding, st: &State, timestamp: u64) -> (r: Result<State, ErrorCategory>)
    requires
        st.wf(),
    ensures
        (is_docker_target(b.target) && restart_pending(*st, b.id@)) <==> r is Ok,
        r is Err ==> r matches Err(ErrorCategory::InvalidConfig),
        r matches Ok(n) ==> {
            &&& n.wf()
            &&& n.version == st.version
            &&& n.applied@ == st.applied@
            &&& n.disabled@ == st.disabled@
            &&& n.status_of(b.id@) == Some(RedactedStatus { timestamp, outcome: SyncOutcome::Unchanged })
            &&& forall|k: Seq<char>| k != b.id@ ==> n.status_of(k) == st.status_of(k)
        },
{
    if !docker_target(&b.target) || !restart_recorded(st, b.id.as_str()) {
        return Err(ErrorCategory::InvalidConfig);
    }
    let mut next = st.duplicate();
    upsert(&mut next.status, copy_string(&b.id), RedactedStatus { timestamp, outcome: SyncOutcome::Unchanged });
    Ok(next)
}

/// Re-enables a disabled binding; a binding that is not disabled is refused.
pub fn enable_binding(st: &State, id: &str) -> (r: Result<State, ErrorCategory>)
    requires
        st.wf(),
    ensures
        st.is_disabled(id@) <==> r is Ok,
        r is Err ==> r matches Err(ErrorCategory::InvalidConfig),
        r matches Ok(n) ==> {
            &&& n.wf()
            &&& n.version == st.version
            &&& n.applied@ == st.applied@
            &&& n.status@ == st.status@
            &&& forall|k: Seq<char>| n.is_disabled(k) <==> (st.is_disabled(k) && k != id@)
        },
{
    let mut next = st.duplicate();
    if !remove_name(&mut next.disabled, id) {
        return Err(ErrorCategory::InvalidConfig);
    }
    Ok(next)
}

/// Forgets everything recorded for the given bindings.
pub fn invalidate_bindings(st: &State, ids: &Vec<String>) -> (r: State)
    requires
        st.wf(),
    ensures
        r.wf(),
        r.version == st.version,
        forall|k: Seq<char>| #[trigger] has_name(ids@, k) ==> r.applied_version(k) is None
            && r.status_of(k) is None && !r.is_disabled(k),
        forall|k: Seq<char>| !has_name(ids@, k) ==> r.applied_version(k) == st.applied_version(k)
            && r.status_of(k) == st.status_of(k) && (r.is_disabled(k) <==> st.is_disabled(k)),
{
    let mut next = st.duplicate();
    let mut i: usize = 0;
    while i < ids.len()
        invariant
            i <= ids@.len(),
            next.wf(),
            next.version == st.version,
            forall|k: Seq<char>| #[trigger] has_name(ids@.take(i as int), k) ==> next.applied_version(k) is None
                && next.status_of(k) is None && !next.is_disabled(k),
            forall|k: Seq<char>| !#[trigger] has_name(ids@.take(i as int), k) ==> next.applied_version(k)
                == st.applied_version(k) && next.status_of(k) == st.status_of(k) && (next.is_disabled(k)
                <==> st.is_disabled(k)),
        decreases ids@.len() - i,
    {
        let id = ids[i].as_str();
        let ghost prev = next;
        remove_key(&mut next.applied, id);
        remove_key(&mut next.status, id);
        remove_name(&mut next.disabled, id);
        let ghost t = ids@.take(i as int + 1);
        assert forall|k: Seq<char>| has_name(t, k) <==> (has_name(ids@.take(i as int), k) || k == ids@[i as int]@) by {
            if has_name(t, k) {
                let j = choose|j: int| 0 <= j < t.len() && #[trigger] t[j]@ == k;
                if j < i {
                    assert(ids@.take(i as int)[j]@ == k);
                }
            }
            if has_name(ids@.take(i as int), k) {
                let j = choose|j: int| 0 <= j < i && #[trigger] ids@.take(i as int)[j]@ == k;
                assert(t[j]@ == k);
            }
            if k == ids@[i as int]@ {
                assert(t[i as int]@ == k);
            }
        }
        assert forall|k: Seq<char>| has_name(t, k) implies next.applied_version(k) is None
            && next.status_of(k) is None && !next.is_disabled(k) by {
            if k != ids@[i as int]@ {
                assert(has_name(ids@.take(i as int), k));
                assert(prev.applied_version(k) is None && prev.status_of(k) is None && !prev.is_disabled(k));
            }
        }
        assert forall|k: Seq<char>| !has_name(t, k) implies next.applied_version(k)
            == st.applied_version(k) && next.status_of(k) == st.status_of(k) && (next.is_disabled(k)
            <==> st.is_disabled(k)) by {
            assert(!has_name(ids@.take(i as int), k));
            assert(k != ids@[i as int]@);
        }
        i = i + 1;
    }
    assert(ids@.take(ids@.len() as int) =~= ids@);
    assert forall|k: Seq<char>| #[trigger] has_name(ids@, k) implies next.applied_version(k) is None
        && next.status_of(k) is None && !next.is_disabled(k) by {
        assert(has_name(ids@.take(ids@.len() as int), k));
    }
    assert forall|k: Seq<char>| !has_name(ids@, k) implies next.applied_version(k) == st.applied_version(k)
        && next.status_of(k) == st.status_of(k) && (next.is_disabled(k) <==> st.is_disabled(k)) by {
        assert(!has_name(ids@.take(ids@.len() as int), k));
    }
    next
}

/// Metadata first: a value is read only right after its version was read,
/// is safe, and differs from the applied version (or the target is missing).
pub proof fn law_value_read_only_for_changed_version(b: Binding, st: State, step: SyncStep, event: SyncEvent)
    requires
        answers(step, event),
    ensures
        next_step(b, st, step, event) matches SyncStep::ReadValue { version, target_missing } ==> {
            &&& step == (SyncStep::ReadVersion { target_missing })
            &&& event == SyncEvent::Version(Ok(version))
            &&& is_safe_version(version.0@)
            &&& (target_missing || st.applied_version(b.id@) != Some(version.0@))
        },
{
}

/// An unchanged version on a present target ends the run without reading the value.
pub proof fn law_unchanged_version_skips_value(b: Binding, st: State, v: SourceVersion)
    requires
        is_safe_version(v.0@),
        st.applied_version(b.id@) == Some(v.0@),
    ensures
        next_step(b, st, SyncStep::ReadVersion { target_missing: false }, SyncEvent::Version(Ok(v)))
            == SyncStep::Finish(unchanged_outcome(b, st)),
        unchanged_outcome(b, st) == SyncOutcome::Unchanged || unchanged_outcome(b, st)
            == SyncOutcome::RestartRequired,
{
}

/// A target is written only with a value of the binding's declared type, of
/// the version that was checked.
pub proof fn law_apply_only_checked_value(b: Binding, st: State, step: SyncStep, event: SyncEvent)
    requires
        answers(step, event),
    ensures
        next_step(b, st, step, event) matches SyncStep::Apply { version } ==> {
            &&& step matches SyncStep::ReadValue { version: checked, .. } && checked == version
            &&& event == SyncEvent::Value(Ok(b.secret_type))
        },
{
}

/// A version is recorded as applied only after the target write succeeded.
pub proof fn law_commit_only_after_successful_apply(b: Binding, st: State, step: SyncStep, event: SyncEvent)
    requires
        answers(step, event),
    ensures
        next_step(b, st, step, event) matches SyncStep::Commit { version } ==> {
            &&& step == (SyncStep::Apply { version })
            &&& event matches SyncEvent::Applied(Ok(_))
        },
{
}

/// A missing target is handled by the binding's policy before any source access.
pub proof fn law_missing_target_policy(b: Binding, st: State)
    ensures
        next_step(b, st, SyncStep::CheckTarget, SyncEvent::Presence { missing: true }) == match b.missing_target {
            MissingTargetPolicy::Alert => SyncStep::Finish(SyncOutcome::Failed(ErrorCategory::Target)),
            MissingTargetPolicy::Disable => SyncStep::Finish(SyncOutcome::Disabled),
            MissingTargetPolicy::Recreate => SyncStep::ReadVersion { target_missing: true },
        },
        next_step(b, st, SyncStep::CheckTarget, SyncEvent::Presence { missing: false })
            == (SyncStep::ReadVersion { target_missing: false }),
{
}

/// Once a version is committed for a binding, checking the same version again
/// reads no value: a changed version is retrieved and applied once.
pub proof fn law_committed_version_is_not_fetched_again(b: Binding, before: State, after: State, v: SourceVersion)
    requires
        is_safe_version(v.0@),
        after.applied_version(b.id@) == Some(v.0@),
    ensures
        next_step(b, after, SyncStep::ReadVersion { target_missing: false }, SyncEvent::Version(Ok(v))) is Finish,
{
}

/// Every run ends: each step leads to a later step or to `Finish`, and
/// `Finish` is final.
pub open spec fn step_rank(step: SyncStep) -> nat {
    match step {
        SyncStep::ValidateTarget => 6,
        SyncStep::CheckTarget => 5,
        SyncStep::ReadVersion { .. } => 4,
        SyncStep::ReadValue { .. } => 3,
        SyncStep::Apply { .. } => 2,
        SyncStep::Commit { .. } => 1,
        SyncStep::Finish(_) => 0,
    }
}

pub proof fn law_runs_terminate(b: Binding, st: State, step: SyncStep, event: SyncEvent)
    requires
        answers(step, event),
    ensures
        step_rank(next_step(b, st, step, event)) < step_rank(step),
{
}

/// Where a run that started with `ValidateTarget` stands after the events
/// reported so far, in order.
pub open spec fn run_step(b: Binding, st: State, events: Seq<SyncEvent>) -> SyncStep
    decreases events.len(),
{
    if events.len() == 0 {
        SyncStep::ValidateTarget
    } else {
        next_step(b, st, run_step(b, st, events.drop_last()), events.last())
    }
}

/// Every event reported on the step the run stood at.
pub open spec fn answered_run(b: Binding, st: State, events: Seq<SyncEvent>) -> bool {
    forall|i: int| 0 <= i < events.len() ==> #[trigger] answers(run_step(b, st, events.take(i)), events[i])
}

proof fn lemma_run_rank(b: Binding, st: State, events: Seq<SyncEvent>)
    requires
        answered_run(b, st, events),
    ensures
        run_step(b, st, events) !is Finish ==> step_rank(run_step(b, st, events)) + events.len() == 6,
        run_step(b, st, events) is Finish ==> events.len() >= 1,
    decreases events.len(),
{
    if events.len() > 0 {
        let prefix = events.drop_last();
        assert forall|i: int| 0 <= i < prefix.len() implies #[trigger] answers(run_step(b, st, prefix.take(i)), prefix[i]) by {
            assert(prefix.take(i) =~= events.take(i));
            assert(answers(run_step(b, st, events.take(i)), events[i]));
        }
        lemma_run_rank(b, st, prefix);
        let n = events.len() - 1;
        assert(events.take(n) =~= prefix);
        assert(answers(run_step(b, st, events.take(n)), events[n]));
    }
}

/// A run writes the state only after the whole metadata-first path: the
/// target passed its checks, the source reported version `v` (safe, and new
/// unless the target was missing), the value of that version was read with
/// the binding's declared type, and the target write succeeded. The commit
/// records exactly that version.
pub proof fn law_commit_follows_the_checked_path(b: Binding, st: State, events: Seq<SyncEvent>, v: SourceVersion)
    requires
        answered_run(b, st, events),
        run_step(b, st, events) == (SyncStep::Commit { version: v }),
    ensures
        events.len() == 5,
        events[0] matches SyncEvent::Validated(Ok(_)),
        events[1] matches SyncEvent::Presence { missing } && (!missing || b.missing_target == MissingTargetPolicy::Recreate),
        events[2] == SyncEvent::Version(Ok(v)),
        is_safe_version(v.0@),
        events[1] matches SyncEvent::Presence { missing } && (missing || st.applied_version(b.id@) != Some(v.0@)),
        events[3] == SyncEvent::Value(Ok(b.secret_type)),
        events[4] matches SyncEvent::Applied(Ok(_)),
{
    lemma_run_rank(b, st, events);
    let e = events;
    assert(e.take(0) =~= Seq::<SyncEvent>::empty());
    assert(e.take(1).drop_last() =~= e.take(0));
    assert(e.take(2).drop_last() =~= e.take(1));
    assert(e.take(3).drop_last() =~= e.take(2));
    assert(e.take(4).drop_last() =~= e.take(3));
    assert(e.drop_last() =~= e.take(4));
    assert(e.take(1).last() == e[0]);
    assert(e.take(2).last() == e[1]);
    assert(e.take(3).last() == e[2]);
    assert(e.take(4).last() == e[3]);
    assert(answers(run_step(b, st, e.take(0)), e[0]));
    assert(answers(run_step(b, st, e.take(1)), e[1]));
    assert(answers(run_step(b, st, e.take(2)), e[2]));
    assert(answers(run_step(b, st, e.take(3)), e[3]));
    assert(answers(run_step(b, st, e.take(4)), e[4]));
    let s1 = run_step(b, st, e.take(1));
    let s2 = run_step(b, st, e.take(2));
    let s3 = run_step(b, st, e.take(3));
    let s4 = run_step(b, st, e.take(4));
    assert(s1 == SyncStep::CheckTarget);
    assert(s2 is ReadVersion);
    assert(s3 is ReadValue);
    assert(s4 is Apply);
}

/// A run of a disabled binding ends at once, as disabled; any other run
/// goes ahead.
pub fn run_gate(st: &State, id: &str) -> (r: Option<SyncOutcome>)
    requires
        st.wf(),
    ensures
        r == if st.is_disabled(id@) { Some(SyncOutcome::Disabled) } else { None::<SyncOutcome> },
{
    if is_disabled(st, id) {
        Some(SyncOutcome::Disabled)
    } else {
        None
    }
}

/// What a finished run reports: its outcome once the state was recorded and
/// then the event logged; a failure to record either is a state failure.
pub fn run_result(outcome: SyncOutcome, recorded: bool, logged: bool) -> (r: SyncOutcome)
    ensures
        r == if recorded && logged { outcome } else { SyncOutcome::Failed(ErrorCategory::State) },
{
    if recorded && logged {
        outcome
    } else {
        SyncOutcome::Failed(ErrorCategory::State)
    }
}

/// The position of the binding with the given ID.
pub fn find_binding(config: &Config, id: &str) -> (r: Option<usize>)
    ensures
        match r {
            Some(i) => i < config.bindings@.len() && config.bindings@[i as int].id@ == id@
                && forall|j: int| 0 <= j < i ==> config.bindings@[j].id@ != id@,
            None => forall|i: int| 0 <= i < config.bindings@.len() ==> config.bindings@[i].id@ != id@,
        },
{
    let mut i: usize = 0;
    while i < config.bindings.len()
        invariant
            i <= config.bindings@.len(),
            forall|j: int| 0 <= j < i ==> config.bindings@[j].id@ != id@,
        decreases config.bindings@.len() - i,
    {
        if same_text(config.bindings[i].id.as_str(), id) {
            return Some(i);
        }
        i = i + 1;
    }
    None
}

} // verus!
