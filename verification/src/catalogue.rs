//! The device-local catalogue of source connections. It holds references
//! only, never credentials; reading and writing its file belongs to the
//! caller.
use crate::cloud::{
    is_name_byte, is_valid_id, is_valid_vault_name, valid_source, valid_vault_name, Provider, RemoteRef,
};
use crate::config::is_lexically_scoped;
use crate::domain::{is_safe_label, safe_label, ErrorCategory, SourceRef, StoreKind};
use crate::text::same_text;
use vstd::prelude::*;
use vstd::utf8::encode_utf8;

verus! {

/// Where a connection's vault lives.
pub enum Location {
    FileSystem { path: String },
    AzureKeyVault { vault_name: String },
    Drive { remote: RemoteRef },
}

pub open spec fn location_store(l: Location) -> StoreKind {
    match l {
        Location::FileSystem { .. } => StoreKind::LocalVault,
        Location::AzureKeyVault { .. } => StoreKind::Azure,
        Location::Drive { remote } => match remote.provider {
            Provider::OneDrive => StoreKind::OneDrive,
            Provider::GoogleDrive => StoreKind::GoogleDrive,
        },
    }
}

pub open spec fn location_label(l: Location) -> Seq<char> {
    match l {
        Location::FileSystem { .. } => "File System"@,
        Location::AzureKeyVault { .. } => "Azure Key Vault"@,
        Location::Drive { remote } => match remote.provider {
            Provider::OneDrive => "OneDrive"@,
            Provider::GoogleDrive => "Google Drive"@,
        },
    }
}

impl Location {
    pub fn store(&self) -> (r: StoreKind)
        ensures
            r == location_store(*self),
    {
        match self {
            Location::FileSystem { .. } => StoreKind::LocalVault,
            Location::AzureKeyVault { .. } => StoreKind::Azure,
            Location::Drive { remote } => remote.provider.store(),
        }
    }

    pub fn label(&self) -> (r: &'static str)
        ensures
            r@ == location_label(*self),
    {
        match self {
            Location::FileSystem { .. } => "File System",
            Location::AzureKeyVault { .. } => "Azure Key Vault",
            Location::Drive { remote } => remote.provider.label(),
        }
    }
}

/// A named source connection.
pub struct Connection {
    pub id: String,
    pub location: Location,
}

/// The catalogue holds at most this many connections.
pub const MAX_CONNECTIONS: usize = 64;

/// An absolute path without a `..` component.
pub open spec fn is_plain_absolute(path: Seq<char>) -> bool {
    is_lexically_scoped(path, seq![])
}

/// A connection the catalogue accepts: a safe ID other than `local`; a file
/// location at an absolute path without `..` that the caller found to be a
/// regular file (or nothing yet) in an existing folder (`file_ok`); an Azure
/// location named by its own ID; or a valid Drive reference.
pub open spec fn is_valid_connection(c: Connection, file_ok: bool) -> bool {
    &&& is_safe_label(c.id@)
    &&& c.id@ != "local"@
    &&& match c.location {
        Location::FileSystem { path } => is_plain_absolute(path@) && file_ok,
        Location::AzureKeyVault { vault_name } => c.id@ == vault_name@ && is_valid_vault_name(encode_utf8(vault_name@)),
        Location::Drive { remote } => is_valid_id(encode_utf8(remote.credential_id@)) && is_valid_id(encode_utf8(remote.file_id@)),
    }
}

/// Checks one connection.
pub fn validate(c: &Connection, file_ok: bool) -> (r: Result<(), ErrorCategory>)
    ensures
        r is Ok <==> is_valid_connection(*c, file_ok),
        r is Err ==> r == Err::<(), ErrorCategory>(ErrorCategory::InvalidConfig),
{
    proof {
        reveal_strlit("local");
        broadcast use vstd::utf8::group_utf8_lib;
    }
    if !safe_label(c.id.as_str()) || same_text(c.id.as_str(), "local") {
        return Err(ErrorCategory::InvalidConfig);
    }
    let ok = match &c.location {
        Location::FileSystem { path } => crate::config::lexically_scoped(path.as_str(), "") && file_ok,
        Location::AzureKeyVault { vault_name } => same_text(c.id.as_str(), vault_name.as_str())
            && valid_vault_name(vault_name.as_str()),
        Location::Drive { remote } => remote.validate(),
    };
    proof {
        reveal_strlit("");
    }
    if !ok {
        return Err(ErrorCategory::InvalidConfig);
    }
    Ok(())
}

/// The connections of a catalogue, at most one per ID.
pub struct Catalogue {
    connections: Vec<Connection>,
}

pub open spec fn ids_distinct(cs: Seq<Connection>) -> bool {
    forall|i: int, j: int| 0 <= i < cs.len() && 0 <= j < cs.len() && i != j ==> (#[trigger] cs[i]).id@ != (#[trigger] cs[j]).id@
}

impl Catalogue {
    pub closed spec fn connections(&self) -> Seq<Connection> {
        self.connections@
    }

    #[verifier::type_invariant]
    closed spec fn well_formed(&self) -> bool {
        &&& ids_distinct(self.connections@)
        &&& self.connections@.len() <= MAX_CONNECTIONS
    }

    /// The connection named `id`.
    pub open spec fn find(&self, id: Seq<char>) -> Option<Connection> {
        if exists|i: int| 0 <= i < self.connections().len() && (#[trigger] self.connections()[i]).id@ == id {
            Some(self.connections()[choose|i: int| 0 <= i < self.connections().len() && (#[trigger] self.connections()[i]).id@ == id])
        } else {
            None
        }
    }

    pub fn new() -> (c: Self)
        ensures
            c.connections().len() == 0,
    {
        Catalogue { connections: Vec::new() }
    }

    fn position(&self, id: &str) -> (r: Option<usize>)
        ensures
            match r {
                Some(i) => i < self.connections().len() && self.connections()[i as int].id@ == id@
                    && self.find(id@) == Some(self.connections()[i as int]),
                None => self.find(id@) is None,
            },
    {
        proof {
            use_type_invariant(self);
        }
        let mut i: usize = 0;
        while i < self.connections.len()
            invariant
                i <= self.connections@.len(),
                ids_distinct(self.connections@),
                forall|j: int| 0 <= j < i ==> (#[trigger] self.connections@[j]).id@ != id@,
            decreases self.connections@.len() - i,
        {
            if same_text(self.connections[i].id.as_str(), id) {
                proof {
                    let k = choose|k: int| 0 <= k < self.connections().len() && (#[trigger] self.connections()[k]).id@ == id@;
                    if k != i {
                        assert(self.connections@[k].id@ != self.connections@[i as int].id@);
                    }
                }
                return Some(i);
            }
            i = i + 1;
        }
        None
    }

    /// Builds a catalogue from a decoded file: format version 1, at most 64
    /// valid connections with distinct IDs. `files_ok[i]` is what the caller
    /// found on disk for connection `i`.
    pub fn open(version: u32, connections: Vec<Connection>, files_ok: &Vec<bool>) -> (r: Result<Catalogue, ErrorCategory>)
        requires
            files_ok@.len() == connections@.len(),
        ensures
            r is Ok <==> (version == 1 && connections@.len() <= MAX_CONNECTIONS && ids_distinct(connections@)
                && forall|i: int| 0 <= i < connections@.len() ==> is_valid_connection(#[trigger] connections@[i], files_ok@[i])),
            r is Err ==> r == Err::<Catalogue, ErrorCategory>(ErrorCategory::InvalidConfig),
            r matches Ok(c) ==> c.connections() == connections@,
    {
        if version != 1 || connections.len() > MAX_CONNECTIONS {
            return Err(ErrorCategory::InvalidConfig);
        }
        let mut i: usize = 0;
        while i < connections.len()
            invariant
                i <= connections@.len(),
                files_ok@.len() == connections@.len(),
                forall|j: int| 0 <= j < i ==> is_valid_connection(#[trigger] connections@[j], files_ok@[j]),
                forall|a: int, b: int| 0 <= a < i && 0 <= b < i && a != b ==> (#[trigger] connections@[a]).id@ != (#[trigger] connections@[b]).id@,
            decreases connections@.len() - i,
        {
            match validate(&connections[i], files_ok[i]) {
                Ok(()) => {},
                Err(e) => return Err(e),
            }
            let mut j: usize = 0;
            while j < i
                invariant
                    j <= i < connections@.len(),
                    forall|b: int| 0 <= b < j ==> connections@[b].id@ != connections@[i as int].id@,
                decreases i - j,
            {
                if same_text(connections[j].id.as_str(), connections[i].id.as_str()) {
                    return Err(ErrorCategory::InvalidConfig);
                }
                j = j + 1;
            }
            i = i + 1;
        }
        Ok(Catalogue { connections })
    }

    /// Adds a new connection.
    pub fn add(&mut self, c: Connection, file_ok: bool) -> (r: Result<(), ErrorCategory>)
        ensures
            r is Ok <==> (is_valid_connection(c, file_ok) && old(self).connections().len() < MAX_CONNECTIONS
                && old(self).find(c.id@) is None),
            r is Err ==> r == Err::<(), ErrorCategory>(ErrorCategory::InvalidConfig)
                && final(self).connections() == old(self).connections(),
            r is Ok ==> final(self).connections() == old(self).connections().push(c),
    {
        proof {
            use_type_invariant(&*self);
        }
        match validate(&c, file_ok) {
            Ok(()) => {},
            Err(e) => return Err(e),
        }
        if self.connections.len() >= MAX_CONNECTIONS || self.position(c.id.as_str()).is_some() {
            return Err(ErrorCategory::InvalidConfig);
        }
        let ghost before = self.connections@;
        let mut cs: Vec<Connection> = Vec::new();
        std::mem::swap(&mut cs, &mut self.connections);
        cs.push(c);
        proof {
            assert forall|a: int, b: int| 0 <= a < cs@.len() && 0 <= b < cs@.len() && a != b implies (#[trigger] cs@[a]).id@ != (#[trigger] cs@[b]).id@ by {
                if a < before.len() && b < before.len() {
                    assert(before[a].id@ != before[b].id@);
                } else if a == before.len() {
                    assert(cs@[b] == before[b]);
                    assert(self.find(cs@[a].id@) is None);
                } else {
                    assert(cs@[a] == before[a]);
                }
            }
        }
        self.connections = cs;
        Ok(())
    }

    /// Removes the connection named `id`.
    pub fn remove(&mut self, id: &str) -> (r: Result<(), ErrorCategory>)
        ensures
            r is Ok <==> old(self).find(id@) is Some,
            r is Err ==> r == Err::<(), ErrorCategory>(ErrorCategory::InvalidConfig)
                && final(self).connections() == old(self).connections(),
            r is Ok ==> final(self).find(id@) is None
                && forall|other: Seq<char>| other != id@ ==> #[trigger] final(self).find(other) == old(self).find(other),
    {
        proof {
            use_type_invariant(&*self);
        }
        let i = match self.position(id) {
            Some(i) => i,
            None => return Err(ErrorCategory::InvalidConfig),
        };
        let ghost before = self.connections@;
        let mut cs: Vec<Connection> = Vec::new();
        std::mem::swap(&mut cs, &mut self.connections);
        cs.remove(i);
        assert(cs@ =~= before.remove(i as int));
        proof {
            assert forall|a: int, b: int| 0 <= a < cs@.len() && 0 <= b < cs@.len() && a != b implies (#[trigger] cs@[a]).id@ != (#[trigger] cs@[b]).id@ by {
                let a2 = if a < i { a } else { a + 1 };
                let b2 = if b < i { b } else { b + 1 };
                assert(before[a2].id@ != before[b2].id@);
            }
        }
        self.connections = cs;
        proof {
            let after = self.connections@;
            if exists|k: int| 0 <= k < after.len() && (#[trigger] after[k]).id@ == id@ {
                let k = choose|k: int| 0 <= k < after.len() && (#[trigger] after[k]).id@ == id@;
                let k2 = if k < i { k } else { k + 1 };
                assert(before[k2].id@ == id@);
                assert(before[i as int].id@ == id@);
            }
            assert forall|other: Seq<char>| other != id@ implies #[trigger] self.find(other) == old(self).find(other) by {
                if exists|k: int| 0 <= k < before.len() && (#[trigger] before[k]).id@ == other {
                    let k = choose|k: int| 0 <= k < before.len() && (#[trigger] before[k]).id@ == other;
                    assert(k != i);
                    let k2 = if k < i { k } else { k - 1 };
                    assert(after[k2] == before[k]);
                    let f = choose|f: int| 0 <= f < after.len() && (#[trigger] after[f]).id@ == other;
                    let f2 = if f < i { f } else { f + 1 };
                    assert(after[f] == before[f2]);
                    if f2 != k {
                        assert(before[f2].id@ != before[k].id@);
                    }
                }
                if exists|f: int| 0 <= f < after.len() && (#[trigger] after[f]).id@ == other {
                    let f = choose|f: int| 0 <= f < after.len() && (#[trigger] after[f]).id@ == other;
                    let f2 = if f < i { f } else { f + 1 };
                    assert(before[f2].id@ == other);
                }
            }
        }
        Ok(())
    }

    /// Renews a Drive connection's credential without repointing it: the
    /// connection must exist, stay on Drive, and keep its provider and file.
    pub fn reconnect(&mut self, c: Connection, file_ok: bool) -> (r: Result<(), ErrorCategory>)
        ensures
            r is Err ==> r == Err::<(), ErrorCategory>(ErrorCategory::InvalidConfig)
                && final(self).connections() == old(self).connections(),
            r is Ok ==> {
                &&& is_valid_connection(c, file_ok)
                &&& old(self).find(c.id@) matches Some(prev) && prev.location matches Location::Drive { remote: p }
                    && c.location matches Location::Drive { remote: n } && p.provider == n.provider && p.file_id@ == n.file_id@
                &&& final(self).connections().len() == old(self).connections().len()
                &&& final(self).find(c.id@) == Some(c)
                &&& forall|other: Seq<char>| other != c.id@ ==> #[trigger] final(self).find(other) == old(self).find(other)
            },
    {
        proof {
            use_type_invariant(&*self);
        }
        match validate(&c, file_ok) {
            Ok(()) => {},
            Err(e) => return Err(e),
        }
        let i = match self.position(c.id.as_str()) {
            Some(i) => i,
            None => return Err(ErrorCategory::InvalidConfig),
        };
        let same = match (&self.connections[i].location, &c.location) {
            (Location::Drive { remote: p }, Location::Drive { remote: n }) => p.provider == n.provider
                && same_text(p.file_id.as_str(), n.file_id.as_str()),
            _ => false,
        };
        if !same {
            return Err(ErrorCategory::InvalidConfig);
        }
        let ghost before = self.connections@;
        let ghost cv = c;
        let mut cs: Vec<Connection> = Vec::new();
        std::mem::swap(&mut cs, &mut self.connections);
        cs.set(i, c);
        proof {
            assert forall|a: int, b: int| 0 <= a < cs@.len() && 0 <= b < cs@.len() && a != b implies (#[trigger] cs@[a]).id@ != (#[trigger] cs@[b]).id@ by {
                assert(before[a].id@ != before[b].id@);
            }
        }
        self.connections = cs;
        proof {
            let after = self.connections@;
            assert(after[i as int] == cv);
            let k = choose|k: int| 0 <= k < after.len() && (#[trigger] after[k]).id@ == cv.id@;
            if k != i {
                assert(after[k].id@ != after[i as int].id@);
            }
            assert forall|other: Seq<char>| other != cv.id@ implies #[trigger] self.find(other) == old(self).find(other) by {
                if exists|k: int| 0 <= k < before.len() && (#[trigger] before[k]).id@ == other {
                    let k = choose|k: int| 0 <= k < before.len() && (#[trigger] before[k]).id@ == other;
                    assert(k != i);
                    assert(after[k] == before[k]);
                    let f = choose|f: int| 0 <= f < after.len() && (#[trigger] after[f]).id@ == other;
                    assert(f != i);
                    if f != k {
                        assert(before[f].id@ != before[k].id@);
                    }
                }
                if exists|f: int| 0 <= f < after.len() && (#[trigger] after[f]).id@ == other {
                    let f = choose|f: int| 0 <= f < after.len() && (#[trigger] after[f]).id@ == other;
                    assert(f != i);
                    assert(before[f].id@ == other);
                }
            }
        }
        Ok(())
    }

    /// The reference a binding's source resolves to: an Azure connection
    /// names its vault, a Drive connection is read as a local vault, and
    /// anything else is used as it stands; a connection of another store is
    /// refused.
    pub fn routed(&self, source: &SourceRef) -> (r: Result<SourceRef, ErrorCategory>)
        ensures
            match self.find(source.connection@) {
                Some(c) => if location_store(c.location) != source.store {
                    r == Err::<SourceRef, ErrorCategory>(ErrorCategory::InvalidConfig)
                } else {
                    match c.location {
                        Location::AzureKeyVault { vault_name } => r matches Ok(s) && s.store == StoreKind::Azure
                            && s.connection@ == vault_name@ && s.entry@ == source.entry@,
                        Location::Drive { .. } => r matches Ok(s) && s.store == StoreKind::LocalVault
                            && s.connection@ == source.connection@ && s.entry@ == source.entry@,
                        Location::FileSystem { .. } => r matches Ok(s) && s.store == source.store
                            && s.connection@ == source.connection@ && s.entry@ == source.entry@,
                    }
                },
                None => r matches Ok(s) && s.store == source.store && s.connection@ == source.connection@
                    && s.entry@ == source.entry@,
            },
    {
        match self.position(source.connection.as_str()) {
            Some(i) => {
                let c = &self.connections[i];
                if c.location.store() != source.store {
                    return Err(ErrorCategory::InvalidConfig);
                }
                match &c.location {
                    Location::AzureKeyVault { vault_name } => Ok(SourceRef {
                        store: StoreKind::Azure,
                        connection: vault_name.clone(),
                        entry: source.entry.clone(),
                    }),
                    Location::Drive { .. } => Ok(SourceRef {
                        store: StoreKind::LocalVault,
                        connection: source.connection.clone(),
                        entry: source.entry.clone(),
                    }),
                    Location::FileSystem { .. } => Ok(SourceRef {
                        store: source.store,
                        connection: source.connection.clone(),
                        entry: source.entry.clone(),
                    }),
                }
            },
            None => Ok(SourceRef {
                store: source.store,
                connection: source.connection.clone(),
                entry: source.entry.clone(),
            }),
        }
    }
}

impl Catalogue {
    /// The resolved store and connection of a binding's source, or `None`
    /// where the catalogue names the connection under another store.
    pub open spec fn route_of(&self, source: SourceRef) -> Option<(StoreKind, Seq<char>)> {
        match self.find(source.connection@) {
            Some(c) => if location_store(c.location) != source.store {
                None
            } else {
                match c.location {
                    Location::AzureKeyVault { vault_name } => Some((StoreKind::Azure, vault_name@)),
                    Location::Drive { .. } => Some((StoreKind::LocalVault, source.connection@)),
                    Location::FileSystem { .. } => Some((source.store, source.connection@)),
                }
            },
            None => Some((source.store, source.connection@)),
        }
    }

    /// A vault file is open for `id`: the device's own vault, or a file or
    /// Drive connection of the catalogue.
    pub open spec fn serves_file(&self, id: Seq<char>) -> bool {
        id == "local"@ || (self.find(id) matches Some(c) && (c.location is FileSystem || c.location is Drive))
    }

    /// A binding may read `source`: it resolves to an open vault file, or
    /// to a well-formed Azure secret.
    pub open spec fn accepts_ref(&self, source: SourceRef) -> bool {
        match self.route_of(source) {
            Some((store, connection)) => {
                let e = encode_utf8(source.entry@);
                ||| store == StoreKind::LocalVault && self.serves_file(connection)
                ||| store == StoreKind::Azure && is_valid_vault_name(encode_utf8(connection))
                    && 1 <= e.len() <= 127 && forall|i: int| 0 <= i < e.len() ==> is_name_byte(#[trigger] e[i])
            },
            None => false,
        }
    }

    /// How many connections the catalogue holds.
    pub fn len(&self) -> (r: usize)
        ensures
            r == self.connections().len(),
    {
        self.connections.len()
    }

    /// The connection at position `i`, in the order they were added.
    pub fn get(&self, i: usize) -> (r: &Connection)
        requires
            i < self.connections().len(),
        ensures
            *r == self.connections()[i as int],
    {
        &self.connections[i]
    }

    /// Whether a vault file is open for `id`.
    pub fn has_file(&self, id: &str) -> (r: bool)
        ensures
            r == self.serves_file(id@),
    {
        proof {
            reveal_strlit("local");
        }
        if same_text(id, "local") {
            return true;
        }
        match self.position(id) {
            Some(i) => match &self.connections[i].location {
                Location::FileSystem { .. } | Location::Drive { .. } => true,
                Location::AzureKeyVault { .. } => false,
            },
            None => false,
        }
    }

    /// Checks that a binding's source can be read: after routing, a local
    /// vault reference needs an open vault file and an Azure reference must
    /// be well formed; anything else is an invalid configuration.
    pub fn validate_ref(&self, source: &SourceRef) -> (r: Result<(), ErrorCategory>)
        ensures
            r is Ok <==> self.accepts_ref(*source),
            r is Err ==> r == Err::<(), ErrorCategory>(ErrorCategory::InvalidConfig),
    {
        let routed = self.routed(source)?;
        match routed.store {
            StoreKind::LocalVault => if self.has_file(routed.connection.as_str()) {
                Ok(())
            } else {
                Err(ErrorCategory::InvalidConfig)
            },
            StoreKind::Azure => if valid_source(&routed) {
                Ok(())
            } else {
                Err(ErrorCategory::InvalidConfig)
            },
            _ => Err(ErrorCategory::InvalidConfig),
        }
    }
}

/// The catalogue file holds at most this many bytes.
pub const MAX_CATALOGUE_BYTES: usize = 65536;

/// A catalogue file over the size limit is refused.
pub fn check_catalogue_size(len: usize) -> (r: Result<(), ErrorCategory>)
    ensures
        r == if len > MAX_CATALOGUE_BYTES { Err::<(), ErrorCategory>(ErrorCategory::InvalidConfig) } else { Ok::<(), ErrorCategory>(()) },
{
    if len > MAX_CATALOGUE_BYTES {
        Err(ErrorCategory::InvalidConfig)
    } else {
        Ok(())
    }
}

/// A catalogue is written only while its file holds what the catalogue was
/// read from (both absent, or the same bytes); a file another process
/// changed is a version conflict and is not overwritten.
pub fn check_catalogue_unchanged(on_disk: Option<&[u8]>, expected: Option<&[u8]>) -> (r: Result<(), ErrorCategory>)
    ensures
        r == if (match (on_disk, expected) {
            (None, None) => true,
            (Some(a), Some(b)) => a@ == b@,
            _ => false,
        }) {
            Ok::<(), ErrorCategory>(())
        } else {
            Err::<(), ErrorCategory>(ErrorCategory::VersionConflict)
        },
{
    let same = match (on_disk, expected) {
        (None, None) => true,
        (Some(a), Some(b)) => crate::text::same_bytes(a, b),
        _ => false,
    };
    if same {
        Ok(())
    } else {
        Err(ErrorCategory::VersionConflict)
    }
}

/// Adding a connection makes it findable, and leaves every other ID's
/// connection as it was.
pub proof fn law_added_connection_is_found(before: Catalogue, after: Catalogue, c: Connection, other: Seq<char>)
    requires
        ids_distinct(before.connections()),
        before.find(c.id@) is None,
        after.connections() == before.connections().push(c),
    ensures
        after.find(c.id@) == Some(c),
        other != c.id@ ==> after.find(other) == before.find(other),
{
    let n = before.connections().len() as int;
    assert(after.connections()[n] == c);
    let k = choose|k: int| 0 <= k < after.connections().len() && (#[trigger] after.connections()[k]).id@ == c.id@;
    if k != n {
        assert(after.connections()[k] == before.connections()[k]);
    }
    if other != c.id@ {
        if exists|k: int| 0 <= k < before.connections().len() && (#[trigger] before.connections()[k]).id@ == other {
            let k = choose|k: int| 0 <= k < before.connections().len() && (#[trigger] before.connections()[k]).id@ == other;
            assert(after.connections()[k] == before.connections()[k]);
            let f = choose|f: int| 0 <= f < after.connections().len() && (#[trigger] after.connections()[f]).id@ == other;
            assert(f != n);
            assert(after.connections()[f] == before.connections()[f]);
            if f != k {
                assert(before.connections()[f].id@ != before.connections()[k].id@);
            }
        }
        if exists|f: int| 0 <= f < after.connections().len() && (#[trigger] after.connections()[f]).id@ == other {
            let f = choose|f: int| 0 <= f < after.connections().len() && (#[trigger] after.connections()[f]).id@ == other;
            assert(f != n);
            assert(before.connections()[f].id@ == other);
        }
    }
}

} // verus!
