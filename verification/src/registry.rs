//! Module registration and the settings screens the host mounts on demand.
use crate::domain::{
    is_safe_label, safe_label, ErrorCategory, ModuleKind, ModuleSetting, SecretType, SourceRef,
    StoreKind, TargetSpec,
};
use crate::text::{same_text, split_first, split_once_char};
use std::sync::Arc;
use vstd::prelude::*;

verus! {

/// A module's settings screen: a stable ID, its capabilities, its rendered
/// surface and its own validation of what the user entered. Modules
/// implement it; the registry records what a screen declares when it is
/// registered. A verified screen defines the spec functions that its
/// methods answer by; left undefined, they promise nothing.
pub trait SettingsScreen: Send + Sync {
    /// The module ID the screen declares.
    closed spec fn declared_id(&self) -> Seq<char> {
        vstd::pervasive::arbitrary()
    }

    /// Whether the module is a store or a target.
    closed spec fn declared_kind(&self) -> ModuleKind {
        vstd::pervasive::arbitrary()
    }

    /// The secret types the module supports.
    closed spec fn declared_types(&self) -> Seq<SecretType> {
        vstd::pervasive::arbitrary()
    }

    /// The screen's rendered surface.
    closed spec fn declared_render(&self) -> Seq<char> {
        vstd::pervasive::arbitrary()
    }

    /// `r` is what the screen answers to `input`.
    closed spec fn accepts(&self, input: Seq<char>, r: Result<ModuleSetting, ErrorCategory>) -> bool {
        vstd::pervasive::arbitrary()
    }

    fn module_id(&self) -> (r: &'static str)
        ensures
            r@ == self.declared_id(),
    ;

    fn kind(&self) -> (r: ModuleKind)
        ensures
            r == self.declared_kind(),
    ;

    fn supported_types(&self) -> (r: &'static [SecretType])
        ensures
            r@ == self.declared_types(),
    ;

    fn render(&self) -> (r: &'static str)
        ensures
            r@ == self.declared_render(),
    ;

    fn configure(&self, input: &str) -> (r: Result<ModuleSetting, ErrorCategory>)
        ensures
            self.accepts(input@, r),
    ;
}

/// `Vec::push` of a screen handle coerced to a trait object, a coercion
/// Verus cannot yet follow: the vector grows by one and keeps its earlier
/// handles, and the new handle dispatches to the screen itself, so it
/// answers every input as the screen does.
#[verifier::external_body]
fn push_screen<S: SettingsScreen + 'static>(v: &mut Vec<(Arc<dyn SettingsScreen + 'static>, ScreenInfo)>, s: Arc<S>, info: ScreenInfo)
    ensures
        final(v)@.len() == old(v)@.len() + 1,
        final(v)@.last().1 == info,
        forall|i: int| 0 <= i < old(v)@.len() ==> final(v)@[i] == old(v)@[i],
        forall|input: Seq<char>, r: Result<ModuleSetting, ErrorCategory>|
            #[trigger] final(v)@.last().0.accepts(input, r) == s.accepts(input, r),
{
    v.push((s, info))
}

/// What a screen declared when it was registered.
#[derive(Clone, Copy)]
pub struct ScreenInfo {
    pub id: &'static str,
    pub kind: ModuleKind,
    pub types: &'static [SecretType],
    pub render: &'static str,
}

/// The registered screens, at most one per module ID, with what each
/// declared.
pub struct ModuleRegistry {
    screens: Vec<(Arc<dyn SettingsScreen + 'static>, ScreenInfo)>,
}

impl ModuleRegistry {
    /// What the registered screens declared, in registration order.
    pub closed spec fn infos(&self) -> Seq<ScreenInfo> {
        self.screens@.map_values(|e: (Arc<dyn SettingsScreen + 'static>, ScreenInfo)| e.1)
    }

    /// `r` is what the screen at position `i` answers to `input`.
    pub closed spec fn answers(&self, i: int, input: Seq<char>, r: Result<ModuleSetting, ErrorCategory>) -> bool {
        self.screens@[i].0.accepts(input, r)
    }

    /// The position of the screen registered under `id`.
    pub open spec fn screen_with(&self, id: Seq<char>) -> Option<int> {
        if exists|i: int| 0 <= i < self.infos().len() && (#[trigger] self.infos()[i]).id@ == id {
            Some(choose|i: int| 0 <= i < self.infos().len() && (#[trigger] self.infos()[i]).id@ == id)
        } else {
            None
        }
    }

    /// No two screens share a module ID.
    pub open spec fn ids_unique(infos: Seq<ScreenInfo>) -> bool {
        forall|i: int, j: int| 0 <= i < j < infos.len() ==> (#[trigger] infos[i]).id@ != (#[trigger] infos[j]).id@
    }

    #[verifier::type_invariant]
    closed spec fn well_formed(&self) -> bool {
        Self::ids_unique(self.infos())
    }

    pub fn new() -> (r: Self)
        ensures
            r.infos().len() == 0,
    {
        let r = ModuleRegistry { screens: Vec::new() };
        assert(r.infos() =~= Seq::<ScreenInfo>::empty());
        r
    }

    fn position(&self, id: &str) -> (r: Option<usize>)
        ensures
            match r {
                Some(i) => i < self.infos().len() && self.infos()[i as int].id@ == id@,
                None => forall|i: int| 0 <= i < self.infos().len() ==> (#[trigger] self.infos()[i]).id@ != id@,
            },
    {
        let mut i: usize = 0;
        while i < self.screens.len()
            invariant
                i <= self.screens@.len(),
                forall|j: int| 0 <= j < i ==> (#[trigger] self.infos()[j]).id@ != id@,
            decreases self.screens@.len() - i,
        {
            if same_text(self.screens[i].1.id, id) {
                return Some(i);
            }
            i = i + 1;
        }
        None
    }

    /// Adds a screen with what it declares; a screen whose ID is already
    /// registered is refused and leaves the registry unchanged.
    pub fn register<S: SettingsScreen + 'static>(&mut self, screen: Arc<S>) -> (r: Result<(), ErrorCategory>)
        ensures
            r is Err ==> r == Err::<(), ErrorCategory>(ErrorCategory::InvalidConfig)
                && final(self).infos() == old(self).infos(),
            r is Err <==> old(self).screen_with(screen.declared_id()) is Some,
            r is Ok ==> {
                &&& final(self).infos().len() == old(self).infos().len() + 1
                &&& final(self).infos().drop_last() == old(self).infos()
                &&& old(self).screen_with(final(self).infos().last().id@) is None
                &&& final(self).infos().last().id@ == screen.declared_id()
                &&& final(self).infos().last().kind == screen.declared_kind()
                &&& final(self).infos().last().types@ == screen.declared_types()
                &&& final(self).infos().last().render@ == screen.declared_render()
                &&& forall|i: int, input: Seq<char>, a: Result<ModuleSetting, ErrorCategory>|
                    0 <= i < old(self).infos().len() ==> #[trigger] final(self).answers(i, input, a) == old(self).answers(i, input, a)
                &&& forall|input: Seq<char>, a: Result<ModuleSetting, ErrorCategory>|
                    #[trigger] final(self).answers(old(self).infos().len() as int, input, a) == screen.accepts(input, a)
            },
    {
        proof {
            use_type_invariant(&*self);
        }
        let id = screen.module_id();
        match self.position(id) {
            Some(_) => Err(ErrorCategory::InvalidConfig),
            None => {
                let info = ScreenInfo {
                    id,
                    kind: screen.kind(),
                    types: screen.supported_types(),
                    render: screen.render(),
                };
                let ghost before = self.infos();
                let mut screens: Vec<(Arc<dyn SettingsScreen + 'static>, ScreenInfo)> = Vec::new();
                std::mem::swap(&mut screens, &mut self.screens);
                let ghost old_screens = screens@;
                push_screen(&mut screens, screen, info);
                let ghost infos = screens@.map_values(|e: (Arc<dyn SettingsScreen + 'static>, ScreenInfo)| e.1);
                proof {
                    assert(before =~= old_screens.map_values(|e: (Arc<dyn SettingsScreen + 'static>, ScreenInfo)| e.1));
                    assert(infos.drop_last() =~= before);
                    assert forall|i: int, j: int| 0 <= i < j < infos.len() implies (#[trigger] infos[i]).id@
                        != (#[trigger] infos[j]).id@ by {
                        if j < before.len() {
                            assert(infos[i] == before[i]);
                            assert(infos[j] == before[j]);
                            assert(before[i].id@ != before[j].id@);
                        } else {
                            assert(infos[i] == before[i]);
                        }
                    }
                }
                self.screens = screens;
                Ok(())
            },
        }
    }

    fn lookup(&self, id: &str) -> (r: Option<usize>)
        ensures
            match (r, self.screen_with(id@)) {
                (Some(a), Some(b)) => a == b && a < self.screens@.len() && self.screens@[a as int].1 == self.infos()[b],
                (None, None) => true,
                _ => false,
            },
    {
        proof {
            use_type_invariant(self);
        }
        match self.position(id) {
            Some(i) => {
                proof {
                    let k = choose|k: int| 0 <= k < self.infos().len() && (#[trigger] self.infos()[k]).id@ == id@;
                    if k < i {
                        assert(self.infos()[k].id@ != self.infos()[i as int].id@);
                    } else if k > i {
                        assert(self.infos()[i as int].id@ != self.infos()[k].id@);
                    }
                }
                Some(i)
            },
            None => None,
        }
    }

    /// The rendered settings surface of the module registered under `id`.
    pub fn mount(&self, id: &str) -> (r: Option<&'static str>)
        ensures
            match (r, self.screen_with(id@)) {
                (Some(text), Some(i)) => text@ == self.infos()[i].render@,
                (None, None) => true,
                _ => false,
            },
    {
        match self.lookup(id) {
            Some(i) => Some(self.screens[i].1.render),
            None => None,
        }
    }

    /// The kind and supported secret types of the module registered under `id`.
    pub fn capability(&self, id: &str) -> (r: Option<(ModuleKind, &'static [SecretType])>)
        ensures
            match (r, self.screen_with(id@)) {
                (Some((k, types)), Some(i)) => k == self.infos()[i].kind && types@ == self.infos()[i].types@,
                (None, None) => true,
                _ => false,
            },
    {
        match self.lookup(id) {
            Some(i) => Some((self.screens[i].1.kind, self.screens[i].1.types)),
            None => None,
        }
    }

    /// Hands `input` to the screen registered under `id`; an unknown ID is an
    /// invalid configuration. What a screen accepts is the screen's own decision.
    pub fn configure(&self, id: &str, input: &str) -> (r: Result<ModuleSetting, ErrorCategory>)
        ensures
            match self.screen_with(id@) {
                Some(i) => self.answers(i, input@, r),
                None => r == Err::<ModuleSetting, ErrorCategory>(ErrorCategory::InvalidConfig),
            },
    {
        match self.lookup(id) {
            Some(i) => self.screens[i].0.configure(input),
            None => Err(ErrorCategory::InvalidConfig),
        }
    }
}

/// Registering a screen whose ID is new makes it mountable: the registry
/// then answers for that ID with exactly what the screen declared, and every
/// other ID keeps its answer.
pub proof fn law_register_then_mount(before: ModuleRegistry, after: ModuleRegistry, other: Seq<char>)
    requires
        ModuleRegistry::ids_unique(before.infos()),
        after.infos().len() == before.infos().len() + 1,
        after.infos().drop_last() == before.infos(),
        before.screen_with(after.infos().last().id@) is None,
    ensures
        after.screen_with(after.infos().last().id@) == Some((after.infos().len() - 1) as int),
        other != after.infos().last().id@ ==> match (after.screen_with(other), before.screen_with(other)) {
            (Some(i), Some(j)) => after.infos()[i] == before.infos()[j],
            (None, None) => true,
            _ => false,
        },
{
    let n = before.infos().len() as int;
    let id = after.infos().last().id@;
    assert(after.infos()[n].id@ == id);
    if exists|i: int| 0 <= i < after.infos().len() && (#[trigger] after.infos()[i]).id@ == id && i != n {
        let i = choose|i: int| 0 <= i < after.infos().len() && (#[trigger] after.infos()[i]).id@ == id && i != n;
        assert(after.infos()[i] == before.infos()[i]);
    }
    if other != id {
        if before.screen_with(other) is Some {
            let j = before.screen_with(other)->0;
            assert(after.infos()[j] == before.infos()[j]);
        }
        if after.screen_with(other) is Some {
            let i = after.screen_with(other)->0;
            assert(i != n);
            assert(before.infos()[i] == after.infos()[i]);
        }
    }
}

/// What a `connection,entry` settings form yields: both halves must be safe labels.
pub open spec fn connection_entry(input: Seq<char>) -> Option<(Seq<char>, Seq<char>)> {
    match split_first(input, ',') {
        Some((c, e)) => if is_safe_label(c) && is_safe_label(e) {
            Some((c, e))
        } else {
            None
        },
        None => None,
    }
}

/// Parses `connection,entry` into a source reference on `store`.
pub fn configure_source(store: StoreKind, input: &str) -> (r: Result<ModuleSetting, ErrorCategory>)
    ensures
        match (r, connection_entry(input@)) {
            (Ok(ModuleSetting::Source(s)), Some((c, e))) => s.store == store && s.connection@ == c
                && s.entry@ == e,
            (Err(ErrorCategory::InvalidConfig), None) => true,
            _ => false,
        },
{
    match split_once_char(input, ',') {
        Some((connection, entry)) => {
            if !safe_label(connection.as_str()) || !safe_label(entry.as_str()) {
                return Err(ErrorCategory::InvalidConfig);
            }
            Ok(ModuleSetting::Source(SourceRef { store, connection, entry }))
        },
        None => Err(ErrorCategory::InvalidConfig),
    }
}

pub struct FakeStoreScreen;

impl SettingsScreen for FakeStoreScreen {
    open spec fn declared_id(&self) -> Seq<char> {
        "fake_store"@
    }

    open spec fn declared_kind(&self) -> ModuleKind {
        ModuleKind::Store
    }

    open spec fn declared_types(&self) -> Seq<SecretType> {
        seq![SecretType::Text]
    }

    open spec fn declared_render(&self) -> Seq<char> {
        "Fake store settings: connection,entry"@
    }

    open spec fn accepts(&self, input: Seq<char>, r: Result<ModuleSetting, ErrorCategory>) -> bool {
        match (r, connection_entry(input)) {
            (Ok(ModuleSetting::Source(s)), Some((c, e))) => s.store == StoreKind::Fake && s.connection@ == c && s.entry@ == e,
            (Err(ErrorCategory::InvalidConfig), None) => true,
            _ => false,
        }
    }

    fn module_id(&self) -> (r: &'static str)
        ensures
            r@ == "fake_store"@,
    {
        "fake_store"
    }

    fn kind(&self) -> (r: ModuleKind)
        ensures
            r == ModuleKind::Store,
    {
        ModuleKind::Store
    }

    fn supported_types(&self) -> (r: &'static [SecretType])
        ensures
            r@ == seq![SecretType::Text],
    {
        let r: &'static [SecretType] = &[SecretType::Text];
        assert(r@ =~= seq![SecretType::Text]);
        r
    }

    fn render(&self) -> (r: &'static str)
        ensures
            r@ == "Fake store settings: connection,entry"@,
    {
        "Fake store settings: connection,entry"
    }

    fn configure(&self, input: &str) -> (r: Result<ModuleSetting, ErrorCategory>)
        ensures
            match (r, connection_entry(input@)) {
                (Ok(ModuleSetting::Source(s)), Some((c, e))) => s.store == StoreKind::Fake
                    && s.connection@ == c && s.entry@ == e,
                (Err(ErrorCategory::InvalidConfig), None) => true,
                _ => false,
            },
    {
        configure_source(StoreKind::Fake, input)
    }
}

pub struct FakeTargetScreen;

impl SettingsScreen for FakeTargetScreen {
    open spec fn declared_id(&self) -> Seq<char> {
        "fake_target"@
    }

    open spec fn declared_kind(&self) -> ModuleKind {
        ModuleKind::Target
    }

    open spec fn declared_types(&self) -> Seq<SecretType> {
        seq![SecretType::Text]
    }

    open spec fn declared_render(&self) -> Seq<char> {
        "Fake target settings: slot"@
    }

    open spec fn accepts(&self, input: Seq<char>, r: Result<ModuleSetting, ErrorCategory>) -> bool {
        if is_safe_label(input) {
            r matches Ok(ModuleSetting::Target(TargetSpec::Fake { slot })) && slot@ == input
        } else {
            r == Err::<ModuleSetting, ErrorCategory>(ErrorCategory::InvalidConfig)
        }
    }

    fn module_id(&self) -> (r: &'static str)
        ensures
            r@ == "fake_target"@,
    {
        "fake_target"
    }

    fn kind(&self) -> (r: ModuleKind)
        ensures
            r == ModuleKind::Target,
    {
        ModuleKind::Target
    }

    fn supported_types(&self) -> (r: &'static [SecretType])
        ensures
            r@ == seq![SecretType::Text],
    {
        let r: &'static [SecretType] = &[SecretType::Text];
        assert(r@ =~= seq![SecretType::Text]);
        r
    }

    fn render(&self) -> (r: &'static str)
        ensures
            r@ == "Fake target settings: slot"@,
    {
        "Fake target settings: slot"
    }

    fn configure(&self, input: &str) -> (r: Result<ModuleSetting, ErrorCategory>)
        ensures
            is_safe_label(input@) ==> (r matches Ok(ModuleSetting::Target(TargetSpec::Fake { slot }))
                && slot@ == input@),
            !is_safe_label(input@) ==> r matches Err(ErrorCategory::InvalidConfig),
    {
        if !safe_label(input) {
            return Err(ErrorCategory::InvalidConfig);
        }
        Ok(ModuleSetting::Target(TargetSpec::Fake { slot: input.to_owned() }))
    }
}

} // verus!
