//! The contracts a secret source and a local target offer the engine, and
//! the in-memory source and target used to exercise it.
use crate::domain::{
    ErrorCategory, MissingTargetPolicy, SecretPayload, SecretType, SourceRef, SourceVersion,
    TargetSpec,
};
use vstd::prelude::*;

verus! {

/// A secret source: version metadata first, and the value of exactly one
/// version on request. Sources implement it.
pub trait SourceConnection {
    fn get_version(&mut self, source: &SourceRef) -> Result<SourceVersion, ErrorCategory>;

    fn get_value(&mut self, source: &SourceRef, version: &SourceVersion) -> Result<SecretPayload, ErrorCategory>;
}

/// A local target: a check of what it accepts, whether it is missing, and
/// the write itself. Targets implement it.
pub trait LocalTarget {
    fn validate(&self, spec: &TargetSpec, kind: &SecretType) -> Result<(), ErrorCategory>;

    fn is_missing(&self, spec: &TargetSpec) -> bool;

    fn apply(&mut self, spec: &TargetSpec, payload: &SecretPayload) -> Result<(), ErrorCategory>;

    fn apply_with_policy(&mut self, spec: &TargetSpec, payload: &SecretPayload, policy: &MissingTargetPolicy) -> Result<(), ErrorCategory>;
}

/// The payload every fake value holds.
pub open spec fn fake_payload() -> Seq<u8> {
    "FAKE_PAYLOAD_PROBE"@.map_values(|c: char| c as u8)
}

/// An in-memory source with one current version, counting the version and
/// value reads it serves.
pub struct FakeStore {
    pub version: SourceVersion,
    pub reads: (u32, u32),
}

impl SourceConnection for FakeStore {
    fn get_version(&mut self, source: &SourceRef) -> (r: Result<SourceVersion, ErrorCategory>)
        ensures
            r matches Ok(v) && v.0@ == old(self).version.0@,
            final(self).version == old(self).version,
            final(self).reads == (old(self).reads.0.wrapping_add(1), old(self).reads.1),
    {
        self.reads = (self.reads.0.wrapping_add(1), self.reads.1);
        Ok(SourceVersion(self.version.0.clone()))
    }

    /// The value of the current version; any other version is a conflict.
    fn get_value(&mut self, source: &SourceRef, version: &SourceVersion) -> (r: Result<SecretPayload, ErrorCategory>)
        ensures
            final(self).version == old(self).version,
            version.0@ != old(self).version.0@ ==> (r matches Err(e) && e == ErrorCategory::VersionConflict
                && final(self).reads == old(self).reads),
            version.0@ == old(self).version.0@ ==> (r matches Ok(p) && p.bytes() == fake_payload()
                && p.declared_kind() == SecretType::Text
                && final(self).reads == (old(self).reads.0, old(self).reads.1.wrapping_add(1))),
    {
        if !crate::text::same_text(self.version.0.as_str(), version.0.as_str()) {
            return Err(ErrorCategory::VersionConflict);
        }
        self.reads = (self.reads.0, self.reads.1.wrapping_add(1));
        let bytes: Vec<u8> = vec![
            0x46u8, 0x41u8, 0x4bu8, 0x45u8, 0x5fu8, 0x50u8, 0x41u8, 0x59u8, 0x4cu8, 0x4fu8, 0x41u8, 0x44u8,
            0x5fu8, 0x50u8, 0x52u8, 0x4fu8, 0x42u8, 0x45u8,
        ];
        proof {
            reveal_strlit("FAKE_PAYLOAD_PROBE");
            assert(bytes@ =~= fake_payload());
        }
        Ok(SecretPayload::new(bytes, SecretType::Text))
    }
}

/// An in-memory target that counts applied writes and fails them on
/// request.
pub struct FakeTarget {
    pub applies: u32,
    pub fail: bool,
}

impl LocalTarget for FakeTarget {
    /// Only fake targets are accepted.
    fn validate(&self, spec: &TargetSpec, kind: &SecretType) -> (r: Result<(), ErrorCategory>)
        ensures
            r is Ok <==> spec is Fake,
            r is Err ==> r == Err::<(), ErrorCategory>(ErrorCategory::InvalidConfig),
    {
        match spec {
            TargetSpec::Fake { .. } => Ok(()),
            _ => Err(ErrorCategory::InvalidConfig),
        }
    }

    /// A fake target is never missing.
    fn is_missing(&self, spec: &TargetSpec) -> (r: bool)
        ensures
            !r,
    {
        false
    }

    fn apply(&mut self, spec: &TargetSpec, payload: &SecretPayload) -> (r: Result<(), ErrorCategory>)
        ensures
            final(self).fail == old(self).fail,
            old(self).fail ==> (r == Err::<(), ErrorCategory>(ErrorCategory::Target) && final(self).applies == old(self).applies),
            !old(self).fail ==> (r is Ok && final(self).applies == old(self).applies.wrapping_add(1)),
    {
        if self.fail {
            return Err(ErrorCategory::Target);
        }
        self.applies = self.applies.wrapping_add(1);
        Ok(())
    }

    /// The policy changes nothing for a fake target.
    fn apply_with_policy(&mut self, spec: &TargetSpec, payload: &SecretPayload, policy: &MissingTargetPolicy) -> (r: Result<(), ErrorCategory>)
        ensures
            final(self).fail == old(self).fail,
            old(self).fail ==> (r == Err::<(), ErrorCategory>(ErrorCategory::Target) && final(self).applies == old(self).applies),
            !old(self).fail ==> (r is Ok && final(self).applies == old(self).applies.wrapping_add(1)),
    {
        self.apply(spec, payload)
    }
}

} // verus!
