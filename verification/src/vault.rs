//! The local encrypted vault: its cryptographic framing and its in-memory
//! contents. Only authenticated ciphertext ever leaves this module; reading
//! and writing the vault file belongs to the caller.
use crate::domain::{
    is_safe_label, is_safe_token, is_safe_version, is_label_byte, safe_label, safe_version,
    ErrorCategory, ModuleKind, ModuleSetting, SecretPayload, SecretType, SourceRef, SourceVersion,
    StoreKind,
};
use crate::registry::{configure_source, connection_entry, SettingsScreen};
use crate::ledger::{
    has_key, lemma_value_at, position, remove_key, unique_keys, upsert, value_of,
};
use crate::text::{bytes_of, push_char, utf8_of};
use chacha20poly1305::aead::{Aead, KeyInit, Payload};
use rand::RngCore;
use zeroize::Zeroize;
use vstd::prelude::*;
use vstd::utf8::encode_utf8;

verus! {

/// Errors never contain a password, path, entry ID, or secret value.
#[derive(Clone, Copy, Debug, PartialEq, Eq, Structural)]
pub enum VaultError {
    InvalidInput,
    Locked,
    MissingEntry,
    AlreadyExists,
    VersionConflict,
    AuthenticationOrCorrupt,
    Corrupt,
    Storage,
}

impl VaultError {
    /// The message shown for this error.
    pub fn message(&self) -> (r: &'static str)
        ensures
            r@ == vault_error_message(*self),
    {
        match self {
            VaultError::InvalidInput => "invalid vault input",
            VaultError::Locked => "vault locked",
            VaultError::MissingEntry => "vault entry missing",
            VaultError::AlreadyExists => "vault already exists",
            VaultError::VersionConflict => "vault entry version changed",
            VaultError::AuthenticationOrCorrupt => "vault unlock failed or payload corrupt",
            VaultError::Corrupt => "vault format corrupt",
            VaultError::Storage => "vault storage failed",
        }
    }
}

pub open spec fn vault_error_message(e: VaultError) -> Seq<char> {
    match e {
        VaultError::InvalidInput => "invalid vault input"@,
        VaultError::Locked => "vault locked"@,
        VaultError::MissingEntry => "vault entry missing"@,
        VaultError::AlreadyExists => "vault already exists"@,
        VaultError::VersionConflict => "vault entry version changed"@,
        VaultError::AuthenticationOrCorrupt => "vault unlock failed or payload corrupt"@,
        VaultError::Corrupt => "vault format corrupt"@,
        VaultError::Storage => "vault storage failed"@,
    }
}

pub const SALT_LEN: usize = 16;

pub const NONCE_LEN: usize = 24;

pub const MAX_VAULT_BYTES: u64 = 16777216;

/// The file signature `TVAULT02`.
pub open spec fn magic() -> Seq<u8> {
    seq![0x54u8, 0x56u8, 0x41u8, 0x55u8, 0x4cu8, 0x54u8, 0x30u8, 0x32u8]
}

pub fn magic_bytes() -> (m: Vec<u8>)
    ensures
        m@ == magic(),
{
    let m: Vec<u8> = vec![0x54u8, 0x56u8, 0x41u8, 0x55u8, 0x4cu8, 0x54u8, 0x30u8, 0x32u8];
    assert(m@ =~= magic());
    m
}

fn extend_bytes(out: &mut Vec<u8>, bytes: &[u8])
    ensures
        final(out)@ == old(out)@ + bytes@,
{
    let mut i: usize = 0;
    let ghost start = out@;
    while i < bytes.len()
        invariant
            i <= bytes@.len(),
            out@ == start + bytes@.take(i as int),
        decreases bytes@.len() - i,
    {
        out.push(bytes[i]);
        assert(out@ =~= start + bytes@.take(i as int + 1));
        i = i + 1;
    }
    assert(bytes@.take(bytes@.len() as int) =~= bytes@);
}

/// Associated data binding the manifest to the vault's salt.
pub open spec fn spec_manifest_aad(salt: Seq<u8>) -> Seq<u8> {
    magic() + salt
}

pub fn manifest_aad(salt: &[u8; 16]) -> (aad: Vec<u8>)
    ensures
        aad@ == spec_manifest_aad(salt@),
{
    let mut aad = magic_bytes();
    extend_bytes(&mut aad, salt);
    aad
}

/// Associated data binding a payload to its entry and version.
pub open spec fn spec_payload_aad(entry_id: Seq<char>, version: Seq<char>) -> Seq<u8> {
    magic() + encode_utf8(entry_id) + seq![0u8] + encode_utf8(version)
}

pub fn payload_aad(entry_id: &str, version: &str) -> (aad: Vec<u8>)
    ensures
        aad@ == spec_payload_aad(entry_id@, version@),
{
    let mut aad = magic_bytes();
    extend_bytes(&mut aad, bytes_of(entry_id));
    aad.push(0u8);
    extend_bytes(&mut aad, bytes_of(version));
    aad
}

/// The lowercase hexadecimal digit for `n < 16`.
pub open spec fn hex_digit(n: int) -> char {
    if n < 10 {
        (48 + n) as char
    } else {
        (87 + n) as char
    }
}

/// Two lowercase hexadecimal digits per byte, high nibble first.
pub open spec fn spec_hex(bytes: Seq<u8>) -> Seq<char>
    decreases bytes.len(),
{
    if bytes.len() == 0 {
        seq![]
    } else {
        spec_hex(bytes.drop_last()) + seq![hex_digit(bytes.last() as int / 16), hex_digit(bytes.last() as int % 16)]
    }
}

fn hex_char(n: u8) -> (c: char)
    requires
        n < 16,
    ensures
        c == hex_digit(n as int),
{
    if n < 10 {
        (48u8 + n) as char
    } else {
        (87u8 + n) as char
    }
}

/// Lowercase hexadecimal encoding of `bytes`.
pub fn hex_version(bytes: &[u8]) -> (s: String)
    ensures
        s@ == spec_hex(bytes@),
{
    let mut value = String::new();
    let mut i: usize = 0;
    while i < bytes.len()
        invariant
            i <= bytes@.len(),
            value@ == spec_hex(bytes@.take(i as int)),
        decreases bytes@.len() - i,
    {
        let byte = bytes[i];
        push_char(&mut value, hex_char(byte / 16));
        push_char(&mut value, hex_char(byte % 16));
        assert(bytes@.take(i as int + 1).drop_last() =~= bytes@.take(i as int));
        i = i + 1;
    }
    assert(bytes@.take(bytes@.len() as int) =~= bytes@);
    value
}

pub proof fn lemma_hex_len(bytes: Seq<u8>)
    ensures
        spec_hex(bytes).len() == 2 * bytes.len(),
    decreases bytes.len(),
{
    if bytes.len() > 0 {
        lemma_hex_len(bytes.drop_last());
    }
}

/// Every character of a hex encoding is a lowercase hex digit.
pub proof fn lemma_hex_digits(bytes: Seq<u8>)
    ensures
        forall|i: int| 0 <= i < spec_hex(bytes).len() ==> {
            let c = #[trigger] spec_hex(bytes)[i];
            ('0' <= c <= '9') || ('a' <= c <= 'f')
        },
    decreases bytes.len(),
{
    if bytes.len() > 0 {
        lemma_hex_digits(bytes.drop_last());
        lemma_hex_len(bytes.drop_last());
    }
}

/// Distinct byte strings of one length have distinct encodings.
pub proof fn law_hex_injective(a: Seq<u8>, b: Seq<u8>)
    requires
        a.len() == b.len(),
        spec_hex(a) == spec_hex(b),
    ensures
        a == b,
    decreases a.len(),
{
    if a.len() > 0 {
        lemma_hex_len(a.drop_last());
        lemma_hex_len(b.drop_last());
        let n = 2 * (a.len() - 1);
        let x = a.last();
        let y = b.last();
        assert(spec_hex(a) == spec_hex(a.drop_last()) + seq![hex_digit(x as int / 16), hex_digit(x as int % 16)]);
        assert(spec_hex(b) == spec_hex(b.drop_last()) + seq![hex_digit(y as int / 16), hex_digit(y as int % 16)]);
        let pa = seq![hex_digit(x as int / 16), hex_digit(x as int % 16)];
        let pb = seq![hex_digit(y as int / 16), hex_digit(y as int % 16)];
        assert(spec_hex(a)[n] == pa[0]);
        assert(spec_hex(a)[n + 1] == pa[1]);
        assert(spec_hex(b)[n] == pb[0]);
        assert(spec_hex(b)[n + 1] == pb[1]);
        assert(spec_hex(a)[n] == spec_hex(b)[n]);
        assert(spec_hex(a)[n + 1] == spec_hex(b)[n + 1]);
        assert(spec_hex(a.drop_last()) =~= spec_hex(a).take(n));
        assert(spec_hex(b.drop_last()) =~= spec_hex(b).take(n));
        law_hex_injective(a.drop_last(), b.drop_last());
        assert(hex_digit(x as int / 16) == hex_digit(y as int / 16));
        assert(hex_digit(x as int % 16) == hex_digit(y as int % 16));
        assert(x / 16 == y / 16);
        assert(x % 16 == y % 16);
        assert(x == y);
        assert(a =~= a.drop_last().push(x));
        assert(b =~= b.drop_last().push(y));
    }
}

/// A hex encoding of at most 64 bytes is a safe version identifier.
pub proof fn lemma_hex_is_safe_version(bytes: Seq<u8>)
    requires
        0 < bytes.len() <= 64,
    ensures
        is_safe_version(spec_hex(bytes)),
{
    let s = spec_hex(bytes);
    lemma_hex_len(bytes);
    lemma_hex_digits(bytes);
    assert(vstd::utf8::is_ascii_chars(s)) by {
        assert forall|i: int| 0 <= i < s.len() implies (#[trigger] s[i]) as nat <= 0x7f by {
            assert(('0' <= s[i] <= '9') || ('a' <= s[i] <= 'f'));
        }
    }
    vstd::utf8::is_ascii_chars_encode_utf8(s);
    let e = encode_utf8(s);
    assert forall|i: int| 0 <= i < e.len() implies is_label_byte(#[trigger] e[i]) by {
        assert(('0' <= s[i] <= '9') || ('a' <= s[i] <= 'f'));
    }
}

#[verifier::external_type_specification]
#[verifier::external_body]
pub struct ExAeadError(chacha20poly1305::Error);

#[verifier::external_type_specification]
#[verifier::external_body]
pub struct ExArgon2Error(argon2::Error);

/// XChaCha20-Poly1305 encryption of `msg` under `key` and `nonce`, bound to `aad`.
pub uninterp spec fn xchacha_seal(key: Seq<u8>, nonce: Seq<u8>, aad: Seq<u8>, msg: Seq<u8>) -> Seq<u8>;

/// XChaCha20-Poly1305 decryption; `None` when authentication fails.
pub uninterp spec fn xchacha_open(key: Seq<u8>, nonce: Seq<u8>, aad: Seq<u8>, ct: Seq<u8>) -> Option<Seq<u8>>;

/// The 32-byte Argon2id (version 0x13) hash of a passphrase and salt with
/// `memory_kib` KiB of memory, `passes` passes and `lanes` lanes.
pub uninterp spec fn argon2id_key(passphrase: Seq<u8>, salt: Seq<u8>, memory_kib: u32, passes: u32, lanes: u32) -> Seq<u8>;

/// `Aead::encrypt` of `XChaCha20Poly1305`. It fails only on a message of
/// 2^32 ChaCha blocks or more; the ciphertext is the message plus a 16-byte
/// tag, and decrypting it with the same key, nonce and associated data gives
/// the message back (the AEAD contract the crate documents).
#[verifier::external_body]
fn aead_seal(key: &[u8; 32], nonce: &[u8; 24], aad: &[u8], msg: &[u8]) -> (r: Result<Vec<u8>, chacha20poly1305::Error>)
    ensures
        r is Ok <==> msg@.len() / 64 < 0xffff_ffff,
        r matches Ok(ct) ==> {
            &&& ct@ == xchacha_seal(key@, nonce@, aad@, msg@)
            &&& ct@.len() == msg@.len() + 16
            &&& xchacha_open(key@, nonce@, aad@, ct@) == Some(msg@)
        },
{
    chacha20poly1305::XChaCha20Poly1305::new(key.into()).encrypt(
        chacha20poly1305::XNonce::from_slice(nonce),
        Payload { msg, aad },
    )
}

/// `Aead::decrypt` of `XChaCha20Poly1305`: the plaintext when the tag
/// authenticates the ciphertext and associated data under the key and nonce.
#[verifier::external_body]
fn aead_open(key: &[u8; 32], nonce: &[u8; 24], aad: &[u8], ct: &[u8]) -> (r: Result<Vec<u8>, chacha20poly1305::Error>)
    ensures
        r is Ok <==> xchacha_open(key@, nonce@, aad@, ct@) is Some,
        r matches Ok(p) ==> xchacha_open(key@, nonce@, aad@, ct@) == Some(p@),
{
    chacha20poly1305::XChaCha20Poly1305::new(key.into()).decrypt(
        chacha20poly1305::XNonce::from_slice(nonce),
        Payload { msg: ct, aad },
    )
}

/// `Params::new(memory_kib, passes, lanes, Some(32))` and
/// `Argon2::hash_password_into` with Argon2id, version 0x13, into a 32-byte
/// key. With a 16-byte salt it fails exactly when the parameters are refused
/// (less than 8 KiB of memory per lane, or no pass) or the passphrase is
/// longer than `u32::MAX` bytes.
#[verifier::external_body]
fn argon2id_derive(passphrase: &[u8], salt: &[u8; 16], memory_kib: u32, passes: u32, lanes: u32) -> (r: Result<[u8; 32], argon2::Error>)
    requires
        1 <= lanes <= 0xff_ffff,
    ensures
        r is Ok <==> (8 <= memory_kib && 8 * lanes <= memory_kib && 1 <= passes && passphrase@.len() <= 0xffff_ffff),
        r matches Ok(k) ==> k@ == argon2id_key(passphrase@, salt@, memory_kib, passes, lanes),
{
    let mut key = [0u8; 32];
    let params = argon2::Params::new(memory_kib, passes, lanes, Some(key.len()))?;
    argon2::Argon2::new(argon2::Algorithm::Argon2id, argon2::Version::V0x13, params)
        .hash_password_into(passphrase, salt, &mut key)?;
    Ok(key)
}

/// `N` bytes from the operating system's random source (`OsRng::fill_bytes`).
/// Nothing is stated of their value.
#[verifier::external_body]
pub(crate) fn random_array<const N: usize>() -> (r: [u8; N])
    ensures
        r@.len() == N,
{
    let mut bytes = [0u8; N];
    rand::rngs::OsRng.fill_bytes(&mut bytes);
    bytes
}

/// The memory of the vault's Argon2id key derivation: 64 MiB.
pub const KDF_MEMORY_KIB: u32 = 65536;

/// The passes of the vault's key derivation.
pub const KDF_PASSES: u32 = 3;

/// The lanes of the vault's key derivation.
pub const KDF_LANES: u32 = 1;

/// The vault key of a passphrase and salt.
pub open spec fn vault_key(passphrase: Seq<u8>, salt: Seq<u8>) -> Seq<u8> {
    argon2id_key(passphrase, salt, KDF_MEMORY_KIB, KDF_PASSES, KDF_LANES)
}

/// Derives the vault key from a passphrase and the vault's salt.
pub fn derive_key(passphrase: &str, salt: &[u8; 16]) -> (r: Result<[u8; 32], VaultError>)
    ensures
        r is Ok <==> utf8_of(passphrase).len() <= 0xffff_ffff,
        r matches Ok(k) ==> k@ == vault_key(utf8_of(passphrase), salt@),
        r is Err ==> r == Err::<[u8; 32], VaultError>(VaultError::AuthenticationOrCorrupt),
{
    match argon2id_derive(bytes_of(passphrase), salt, KDF_MEMORY_KIB, KDF_PASSES, KDF_LANES) {
        Ok(k) => Ok(k),
        Err(_) => Err(VaultError::AuthenticationOrCorrupt),
    }
}

/// An entry's non-secret metadata: its type and current version.
#[derive(Clone, Debug)]
pub struct EntryMeta {
    pub kind: SecretType,
    pub version: String,
}

/// One encrypted payload.
#[derive(Clone, Debug)]
pub struct SealedPayload {
    pub nonce: [u8; 24],
    pub ciphertext: Vec<u8>,
}

/// The decrypted manifest: entry IDs with their metadata.
#[derive(Clone, Debug)]
pub struct Manifest {
    pub version: u32,
    pub entries: Vec<(String, EntryMeta)>,
}

/// The vault file after its signature: everything is either public framing
/// or authenticated ciphertext.
#[derive(Debug)]
pub struct Envelope {
    pub version: u32,
    pub salt: [u8; 16],
    pub manifest_nonce: [u8; 24],
    pub manifest_ciphertext: Vec<u8>,
    pub sealed: Vec<(String, SealedPayload)>,
}

/// A listed entry: ID, type and version, never the value.
#[derive(Clone, Debug, PartialEq, Eq)]
pub struct VaultEntry {
    pub id: String,
    pub kind: SecretType,
    pub version: String,
}

/// The data starts with the vault signature and has more after it.
pub fn check_frame(data: &[u8]) -> (r: Result<(), VaultError>)
    ensures
        r is Ok <==> (data@.len() > 8 && data@.take(8) == magic()),
        r is Err ==> r == Err::<(), VaultError>(VaultError::Corrupt),
{
    let m = magic_bytes();
    if data.len() <= 8 {
        return Err(VaultError::Corrupt);
    }
    let mut i: usize = 0;
    while i < 8
        invariant
            data@.len() > 8,
            m@ == magic(),
            i <= 8,
            forall|j: int| 0 <= j < i ==> data@[j] == magic()[j],
        decreases 8 - i,
    {
        if data[i] != m[i] {
            assert(data@.take(8)[i as int] != magic()[i as int]);
            return Err(VaultError::Corrupt);
        }
        i = i + 1;
    }
    assert(data@.take(8) =~= magic());
    Ok(())
}

/// The envelope is of format version 2 and its manifest can hold a tag.
pub fn check_envelope(env: &Envelope) -> (r: Result<(), VaultError>)
    ensures
        r is Ok <==> (env.version == 2 && env.manifest_ciphertext@.len() >= 16),
        r is Err ==> r == Err::<(), VaultError>(VaultError::Corrupt),
{
    if env.version != 2 || env.manifest_ciphertext.len() < 16 {
        return Err(VaultError::Corrupt);
    }
    Ok(())
}

/// Signature plus encoded envelope, refused when the vault would exceed its
/// size limit.
pub fn frame_vault(encoded: &[u8]) -> (r: Result<Vec<u8>, VaultError>)
    ensures
        encoded@.len() + 8 > MAX_VAULT_BYTES ==> r == Err::<Vec<u8>, VaultError>(VaultError::InvalidInput),
        encoded@.len() + 8 <= MAX_VAULT_BYTES ==> (r matches Ok(out) && out@ == magic() + encoded@),
{
    if encoded.len() as u64 > MAX_VAULT_BYTES - 8 {
        return Err(VaultError::InvalidInput);
    }
    let mut out = magic_bytes();
    extend_bytes(&mut out, encoded);
    Ok(out)
}

/// Decrypts the manifest of an envelope.
pub fn open_manifest(env: &Envelope, key: &[u8; 32]) -> (r: Result<Vec<u8>, VaultError>)
    ensures
        match xchacha_open(key@, env.manifest_nonce@, spec_manifest_aad(env.salt@), env.manifest_ciphertext@) {
            Some(p) => r matches Ok(b) && b@ == p,
            None => r == Err::<Vec<u8>, VaultError>(VaultError::AuthenticationOrCorrupt),
        },
{
    let aad = manifest_aad(&env.salt);
    match aead_open(key, &env.manifest_nonce, aad.as_slice(), env.manifest_ciphertext.as_slice()) {
        Ok(p) => Ok(p),
        Err(_) => Err(VaultError::AuthenticationOrCorrupt),
    }
}

/// Encrypts an encoded manifest under a fresh nonce; returns the nonce and
/// the ciphertext.
pub fn seal_manifest(key: &[u8; 32], salt: &[u8; 16], plaintext: &[u8]) -> (r: Result<([u8; 24], Vec<u8>), VaultError>)
    ensures
        plaintext@.len() / 64 < 0xffff_ffff ==> r is Ok,
        r is Err ==> r == Err::<([u8; 24], Vec<u8>), VaultError>(VaultError::Storage),
        r matches Ok((nonce, ct)) ==> xchacha_open(key@, nonce@, spec_manifest_aad(salt@), ct@) == Some(plaintext@),
{
    let nonce = new_nonce();
    let aad = manifest_aad(salt);
    match aead_seal(key, &nonce, aad.as_slice(), plaintext) {
        Ok(ct) => Ok((nonce, ct)),
        Err(_) => Err(VaultError::Storage),
    }
}

/// An entry's version is a safe identifier whose sealed payload can hold a tag.
pub open spec fn entry_fits(meta: EntryMeta, sealed: Seq<(String, SealedPayload)>) -> bool {
    &&& is_safe_version(meta.version@)
    &&& value_of(sealed, meta.version@) matches Some(p) && p.ciphertext@.len() >= 16
}

/// No two entries share a version.
pub open spec fn distinct_versions(entries: Seq<(String, EntryMeta)>) -> bool {
    forall|k1: Seq<char>, k2: Seq<char>|
        k1 != k2 && #[trigger] value_of(entries, k1) is Some && #[trigger] value_of(entries, k2) is Some
            ==> value_of(entries, k1)->0.version@ != value_of(entries, k2)->0.version@
}

/// What the manifest check accepts: format version 2, safe entry IDs, one
/// sealed payload per entry under the entry's own version, each long enough
/// to hold a tag.
pub open spec fn valid_manifest(m: Manifest, sealed: Seq<(String, SealedPayload)>) -> bool {
    &&& m.version == 2
    &&& m.entries@.len() == sealed.len()
    &&& unique_keys(m.entries@)
    &&& unique_keys(sealed)
    &&& forall|k: Seq<char>| #[trigger] value_of(m.entries@, k) matches Some(e) ==> is_safe_label(k) && entry_fits(e, sealed)
    &&& distinct_versions(m.entries@)
}

/// The per-position form of the entry check.
pub open spec fn entry_ok(e: (String, EntryMeta), sealed: Seq<(String, SealedPayload)>) -> bool {
    is_safe_label(e.0@) && entry_fits(e.1, sealed)
}

proof fn lemma_entries_ok(entries: Seq<(String, EntryMeta)>, sealed: Seq<(String, SealedPayload)>)
    requires
        unique_keys(entries),
        forall|i: int| 0 <= i < entries.len() ==> #[trigger] entry_ok(entries[i], sealed),
    ensures
        forall|k: Seq<char>| #[trigger] value_of(entries, k) matches Some(e) ==> is_safe_label(k) && entry_fits(e, sealed),
{
    assert forall|k: Seq<char>| #[trigger] value_of(entries, k) is Some implies is_safe_label(k) && entry_fits(value_of(entries, k)->0, sealed) by {
        let j = choose|j: int| 0 <= j < entries.len() && #[trigger] entries[j].0@ == k;
        lemma_value_at(entries, j);
        assert(entry_ok(entries[j], sealed));
    }
}

proof fn lemma_versions_distinct(entries: Seq<(String, EntryMeta)>)
    requires
        unique_keys(entries),
        forall|a: int, b: int| 0 <= a < entries.len() && 0 <= b < entries.len() && a != b ==> #[trigger] entries[a].1.version@ != #[trigger] entries[b].1.version@,
    ensures
        distinct_versions(entries),
{
    assert forall|k1: Seq<char>, k2: Seq<char>|
        k1 != k2 && #[trigger] value_of(entries, k1) is Some && #[trigger] value_of(entries, k2) is Some
        implies value_of(entries, k1)->0.version@ != value_of(entries, k2)->0.version@ by {
        let a = choose|j: int| 0 <= j < entries.len() && #[trigger] entries[j].0@ == k1;
        let b = choose|j: int| 0 <= j < entries.len() && #[trigger] entries[j].0@ == k2;
        lemma_value_at(entries, a);
        lemma_value_at(entries, b);
        assert(entries[a].1.version@ != entries[b].1.version@);
    }
}

fn distinct_keys<V>(s: &Vec<(String, V)>) -> (r: bool)
    ensures
        r == unique_keys(s@),
{
    let mut i: usize = 0;
    while i < s.len()
        invariant
            i <= s@.len(),
            forall|a: int, b: int| 0 <= a < i && 0 <= b < s@.len() && a != b ==> #[trigger] s@[a].0@ != #[trigger] s@[b].0@,
        decreases s@.len() - i,
    {
        let mut j: usize = 0;
        while j < s.len()
            invariant
                i < s@.len(),
                j <= s@.len(),
                forall|a: int, b: int| 0 <= a < i && 0 <= b < s@.len() && a != b ==> #[trigger] s@[a].0@ != #[trigger] s@[b].0@,
                forall|b: int| 0 <= b < j && b != i ==> s@[i as int].0@ != #[trigger] s@[b].0@,
            decreases s@.len() - j,
        {
            if j != i && crate::text::same_text(s[i].0.as_str(), s[j].0.as_str()) {
                return false;
            }
            j = j + 1;
        }
        i = i + 1;
    }
    true
}

fn distinct_entry_versions(s: &Vec<(String, EntryMeta)>) -> (r: bool)
    ensures
        r == (forall|a: int, b: int| 0 <= a < s@.len() && 0 <= b < s@.len() && a != b ==> #[trigger] s@[a].1.version@ != #[trigger] s@[b].1.version@),
{
    let mut i: usize = 0;
    while i < s.len()
        invariant
            i <= s@.len(),
            forall|a: int, b: int| 0 <= a < i && 0 <= b < s@.len() && a != b ==> #[trigger] s@[a].1.version@ != #[trigger] s@[b].1.version@,
        decreases s@.len() - i,
    {
        let mut j: usize = 0;
        while j < s.len()
            invariant
                i < s@.len(),
                j <= s@.len(),
                forall|a: int, b: int| 0 <= a < i && 0 <= b < s@.len() && a != b ==> #[trigger] s@[a].1.version@ != #[trigger] s@[b].1.version@,
                forall|b: int| 0 <= b < j && b != i ==> s@[i as int].1.version@ != #[trigger] s@[b].1.version@,
            decreases s@.len() - j,
        {
            if j != i && crate::text::same_text(s[i].1.version.as_str(), s[j].1.version.as_str()) {
                return false;
            }
            j = j + 1;
        }
        i = i + 1;
    }
    true
}

/// Checks a decoded manifest against the sealed payloads of its envelope.
pub fn check_manifest(m: &Manifest, sealed: &Vec<(String, SealedPayload)>) -> (r: Result<(), VaultError>)
    ensures
        r is Ok <==> valid_manifest(*m, sealed@),
        r is Err ==> r == Err::<(), VaultError>(VaultError::Corrupt),
{
    if m.version != 2 || m.entries.len() != sealed.len() || !distinct_keys(&m.entries) || !distinct_keys(sealed) {
        return Err(VaultError::Corrupt);
    }
    let mut i: usize = 0;
    while i < m.entries.len()
        invariant
            i <= m.entries@.len(),
            unique_keys(sealed@),
            unique_keys(m.entries@),
            forall|j: int| 0 <= j < i ==> #[trigger] entry_ok(m.entries@[j], sealed@),
        decreases m.entries@.len() - i,
    {
        let (id, meta) = &m.entries[i];
        proof {
            lemma_value_at(m.entries@, i as int);
        }
        if !safe_label(id.as_str()) || !safe_version(meta.version.as_str()) {
            assert(!entry_ok(m.entries@[i as int], sealed@));
            return Err(VaultError::Corrupt);
        }
        match position(sealed, meta.version.as_str()) {
            Some(k) => {
                proof {
                    lemma_value_at(sealed@, k as int);
                }
                if sealed[k].1.ciphertext.len() < 16 {
                    assert(!entry_ok(m.entries@[i as int], sealed@));
                    return Err(VaultError::Corrupt);
                }
                assert(m.entries@[i as int].1.version@ == sealed@[k as int].0@);
                assert(entry_ok(m.entries@[i as int], sealed@));
            },
            None => {
                assert(!entry_ok(m.entries@[i as int], sealed@));
                return Err(VaultError::Corrupt);
            },
        }
        i = i + 1;
    }
    proof {
        lemma_entries_ok(m.entries@, sealed@);
    }
    if !distinct_entry_versions(&m.entries) {
        proof {
            let (a, b) = choose|a: int, b: int| 0 <= a < m.entries@.len() && 0 <= b < m.entries@.len() && a != b
                && #[trigger] m.entries@[a].1.version@ == #[trigger] m.entries@[b].1.version@;
            lemma_value_at(m.entries@, a);
            lemma_value_at(m.entries@, b);
            let k1 = m.entries@[a].0@;
            let k2 = m.entries@[b].0@;
            assert(value_of(m.entries@, k1) is Some && value_of(m.entries@, k2) is Some);
        }
        return Err(VaultError::Corrupt);
    }
    proof {
        lemma_versions_distinct(m.entries@);
    }
    Ok(())
}

/// A fresh random salt for a new vault.
fn new_salt() -> (s: [u8; 16]) {
    random_array::<16>()
}

/// A fresh random nonce.
fn new_nonce() -> (s: [u8; 24]) {
    random_array::<24>()
}

/// The largest payload a vault entry accepts: half the vault size limit.
pub const MAX_PAYLOAD_BYTES: usize = 8388608;

/// How many random versions `put` draws before giving up on a collision.
const VERSION_DRAWS: u32 = 16;

/// Encrypts a payload under a fresh nonce, bound to its entry and version.
fn seal_payload(key: &[u8; 32], entry_id: &str, version: &str, bytes: &[u8]) -> (r: Result<SealedPayload, VaultError>)
    ensures
        bytes@.len() / 64 < 0xffff_ffff ==> r is Ok,
        r is Err ==> r == Err::<SealedPayload, VaultError>(VaultError::Storage),
        r matches Ok(p) ==> {
            &&& xchacha_open(key@, p.nonce@, spec_payload_aad(entry_id@, version@), p.ciphertext@) == Some(bytes@)
            &&& p.ciphertext@.len() == bytes@.len() + 16
        },
{
    let nonce = new_nonce();
    let aad = payload_aad(entry_id, version);
    match aead_seal(key, &nonce, aad.as_slice(), bytes) {
        Ok(ciphertext) => Ok(SealedPayload { nonce, ciphertext }),
        Err(_) => Err(VaultError::Storage),
    }
}

/// Decrypts a payload for its entry and version.
fn open_payload(key: &[u8; 32], entry_id: &str, version: &str, payload: &SealedPayload) -> (r: Result<Vec<u8>, VaultError>)
    ensures
        match xchacha_open(key@, payload.nonce@, spec_payload_aad(entry_id@, version@), payload.ciphertext@) {
            Some(p) => r matches Ok(b) && b@ == p,
            None => r == Err::<Vec<u8>, VaultError>(VaultError::AuthenticationOrCorrupt),
        },
{
    let aad = payload_aad(entry_id, version);
    match aead_open(key, &payload.nonce, aad.as_slice(), payload.ciphertext.as_slice()) {
        Ok(p) => Ok(p),
        Err(_) => Err(VaultError::AuthenticationOrCorrupt),
    }
}

/// `after` is `before` with `id` stored as `bytes` of type `kind` under the
/// fresh version `v`; the entry's previous payload is gone and nothing else
/// changed.
pub open spec fn put_effect(before: VaultContents, after: VaultContents, id: Seq<char>, kind: SecretType, bytes: Seq<u8>, v: Seq<char>) -> bool {
    &&& is_safe_version(v)
    &&& !before.has_version(v)
    &&& after.meta(id) == Some((kind, v))
    &&& after.opened(id, v) == Some(bytes)
    &&& forall|other: Seq<char>| other != id ==> #[trigger] after.meta(other) == before.meta(other)
    &&& forall|other: Seq<char>, ver: Seq<char>|
        ver != v && (before.meta(id) matches Some(m) ==> ver != m.1)
            ==> #[trigger] after.opened(other, ver) == before.opened(other, ver)
    &&& forall|ver: Seq<char>| #[trigger] after.has_version(ver) <==> (ver == v
        || (before.has_version(ver) && (before.meta(id) matches Some(m) ==> ver != m.1)))
}

/// `after` is `before` without entry `id` and its payload; nothing else changed.
pub open spec fn remove_effect(before: VaultContents, after: VaultContents, id: Seq<char>) -> bool {
    &&& before.meta(id) is Some
    &&& after.meta(id) is None
    &&& forall|other: Seq<char>| other != id ==> #[trigger] after.meta(other) == before.meta(other)
    &&& forall|ver: Seq<char>| #[trigger] after.has_version(ver) <==> (before.has_version(ver) && ver != (before.meta(id)->0).1)
    &&& forall|other: Seq<char>, ver: Seq<char>| ver != (before.meta(id)->0).1 ==> #[trigger] after.opened(other, ver) == before.opened(other, ver)
}

/// A random version not yet used by any sealed payload, or `None` when every
/// draw collided.
fn fresh_version(sealed: &Vec<(String, SealedPayload)>, taken: &Vec<String>) -> (r: Option<String>)
    ensures
        r matches Some(v) ==> !has_key(sealed@, v@) && !crate::ledger::has_name(taken@, v@) && is_safe_version(v@),
        sealed@.len() == 0 && taken@.len() == 0 ==> r is Some,
{
    let mut draws: u32 = 0;
    while draws < VERSION_DRAWS
        invariant
            draws <= VERSION_DRAWS,
            sealed@.len() == 0 && taken@.len() == 0 ==> draws == 0,
        decreases VERSION_DRAWS - draws,
    {
        let random = random_array::<16>();
        let candidate = hex_version(random.as_slice());
        if position(sealed, candidate.as_str()).is_none() && crate::ledger::name_position(taken, candidate.as_str()).is_none() {
            proof {
                lemma_hex_is_safe_version(random@);
            }
            return Some(candidate);
        }
        draws = draws + 1;
    }
    None
}

/// An unlocked vault in memory: its salt and key, the decrypted manifest, and
/// the sealed payloads keyed by version.
pub struct VaultContents {
    salt: [u8; 16],
    key: [u8; 32],
    manifest: Manifest,
    sealed: Vec<(String, SealedPayload)>,
}

impl VaultContents {
    pub closed spec fn salt_of(&self) -> Seq<u8> {
        self.salt@
    }

    pub closed spec fn key_of(&self) -> Seq<u8> {
        self.key@
    }

    pub closed spec fn manifest_of(&self) -> Manifest {
        self.manifest
    }

    pub closed spec fn sealed_of(&self) -> Seq<(String, SealedPayload)> {
        self.sealed@
    }

    /// The contents satisfy the manifest check.
    pub open spec fn wf(&self) -> bool {
        valid_manifest(self.manifest_of(), self.sealed_of())
    }

    /// The type and current version of entry `id`.
    pub open spec fn meta(&self, id: Seq<char>) -> Option<(SecretType, Seq<char>)> {
        match value_of(self.manifest_of().entries@, id) {
            Some(m) => Some((m.kind, m.version@)),
            None => None,
        }
    }

    /// A payload is sealed under `version`.
    pub open spec fn has_version(&self, version: Seq<char>) -> bool {
        has_key(self.sealed_of(), version)
    }

    /// What the payload sealed under `version` decrypts to as the value of `id`.
    pub open spec fn opened(&self, id: Seq<char>, version: Seq<char>) -> Option<Seq<u8>> {
        match value_of(self.sealed_of(), version) {
            Some(p) => xchacha_open(self.key_of(), p.nonce@, spec_payload_aad(id, version), p.ciphertext@),
            None => None,
        }
    }

    /// What reading the value of `id` at `version` gives: its type and bytes,
    /// or the error that refuses the read.
    pub open spec fn value_outcome(&self, id: Seq<char>, version: Seq<char>) -> Result<(SecretType, Seq<u8>), VaultError> {
        match self.meta(id) {
            None => Err(VaultError::MissingEntry),
            Some(m) => if m.1 != version {
                Err(VaultError::VersionConflict)
            } else {
                match self.opened(id, m.1) {
                    Some(b) => Ok((m.0, b)),
                    None => Err(VaultError::AuthenticationOrCorrupt),
                }
            },
        }
    }

    /// A new, empty vault for a passphrase of 12 to 4096 bytes, under a fresh
    /// random salt.
    pub fn create(passphrase: &str) -> (r: Result<VaultContents, VaultError>)
        ensures
            r is Ok <==> 12 <= utf8_of(passphrase).len() <= 4096,
            r is Err ==> r == Err::<VaultContents, VaultError>(VaultError::InvalidInput),
            r matches Ok(v) ==> {
                &&& v.wf()
                &&& v.key_of() == vault_key(utf8_of(passphrase), v.salt_of())
                &&& forall|id: Seq<char>| v.meta(id) is None
                &&& forall|ver: Seq<char>| !v.has_version(ver)
            },
    {
        let len = bytes_of(passphrase).len();
        if len < 12 || len > 4096 {
            return Err(VaultError::InvalidInput);
        }
        let salt = new_salt();
        let key = match derive_key(passphrase, &salt) {
            Ok(k) => k,
            Err(e) => return Err(e),
        };
        let v = VaultContents {
            salt,
            key,
            manifest: Manifest { version: 2, entries: Vec::new() },
            sealed: Vec::new(),
        };
        assert(v.wf());
        Ok(v)
    }

    /// Builds the contents from a decrypted manifest and its envelope's sealed
    /// payloads, refused as corrupt when the manifest check fails.
    pub fn assemble(salt: [u8; 16], key: [u8; 32], manifest: Manifest, sealed: Vec<(String, SealedPayload)>) -> (r: Result<VaultContents, VaultError>)
        ensures
            r is Ok <==> valid_manifest(manifest, sealed@),
            r is Err ==> r == Err::<VaultContents, VaultError>(VaultError::Corrupt),
            r matches Ok(v) ==> {
                &&& v.salt_of() == salt@
                &&& v.key_of() == key@
                &&& v.manifest_of() == manifest
                &&& v.sealed_of() == sealed@
            },
    {
        match check_manifest(&manifest, &sealed) {
            Ok(()) => Ok(VaultContents { salt, key, manifest, sealed }),
            Err(e) => Err(e),
        }
    }

    /// The vault's salt.
    pub fn salt(&self) -> (s: [u8; 16])
        ensures
            s@ == self.salt_of(),
    {
        self.salt
    }

    /// The manifest to encode when the vault is stored.
    pub fn manifest(&self) -> (m: &Manifest)
        ensures
            *m == self.manifest_of(),
    {
        &self.manifest
    }

    /// The sealed payloads to store beside the manifest.
    pub fn sealed(&self) -> (s: &Vec<(String, SealedPayload)>)
        ensures
            s@ == self.sealed_of(),
    {
        &self.sealed
    }

    /// Encrypts the encoded manifest for storage under the vault key.
    pub fn seal_manifest(&self, plaintext: &[u8]) -> (r: Result<([u8; 24], Vec<u8>), VaultError>)
        ensures
            plaintext@.len() / 64 < 0xffff_ffff ==> r is Ok,
            r is Err ==> r == Err::<([u8; 24], Vec<u8>), VaultError>(VaultError::Storage),
            r matches Ok((nonce, ct)) ==> xchacha_open(self.key_of(), nonce@, spec_manifest_aad(self.salt_of()), ct@) == Some(plaintext@),
    {
        seal_manifest(&self.key, &self.salt, plaintext)
    }

    /// Decrypts the manifest of a re-read envelope, which must carry this
    /// vault's salt.
    pub fn reopen_manifest(&self, env: &Envelope) -> (r: Result<Vec<u8>, VaultError>)
        ensures
            env.salt@ != self.salt_of() ==> r == Err::<Vec<u8>, VaultError>(VaultError::AuthenticationOrCorrupt),
            env.salt@ == self.salt_of() ==> match xchacha_open(self.key_of(), env.manifest_nonce@, spec_manifest_aad(env.salt@), env.manifest_ciphertext@) {
                Some(p) => r matches Ok(b) && b@ == p,
                None => r == Err::<Vec<u8>, VaultError>(VaultError::AuthenticationOrCorrupt),
            },
    {
        let mut i: usize = 0;
        while i < 16
            invariant
                i <= 16,
                forall|j: int| 0 <= j < i ==> env.salt@[j] == self.salt@[j],
            decreases 16 - i,
        {
            if env.salt[i] != self.salt[i] {
                return Err(VaultError::AuthenticationOrCorrupt);
            }
            i = i + 1;
        }
        assert(env.salt@ =~= self.salt@);
        open_manifest(env, &self.key)
    }

    /// Stores `payload` as the value of `entry_id` under a fresh random version
    /// and drops the entry's previous payload.
    pub fn put(&mut self, entry_id: &str, payload: &SecretPayload) -> (r: Result<SourceVersion, VaultError>)
        requires
            old(self).wf(),
        ensures
            final(self).wf(),
            final(self).key_of() == old(self).key_of(),
            final(self).salt_of() == old(self).salt_of(),
            !is_safe_label(entry_id@) || payload.bytes().len() > MAX_PAYLOAD_BYTES
                ==> r == Err::<SourceVersion, VaultError>(VaultError::InvalidInput),
            r is Err ==> *final(self) == *old(self),
            r is Err ==> (r == Err::<SourceVersion, VaultError>(VaultError::InvalidInput)
                || r == Err::<SourceVersion, VaultError>(VaultError::Storage)),
            is_safe_label(entry_id@) && payload.bytes().len() <= MAX_PAYLOAD_BYTES
                ==> (r is Ok || r == Err::<SourceVersion, VaultError>(VaultError::Storage)),
            is_safe_label(entry_id@) && payload.bytes().len() <= MAX_PAYLOAD_BYTES
                && (forall|ver: Seq<char>| !#[trigger] old(self).has_version(ver)) ==> r is Ok,
            r matches Ok(v) ==> {
                &&& is_safe_label(entry_id@)
                &&& payload.bytes().len() <= MAX_PAYLOAD_BYTES
                &&& put_effect(*old(self), *final(self), entry_id@, payload.declared_kind(), payload.bytes(), v.0@)
            },
    {
        if !safe_label(entry_id) || payload.as_bytes().len() > MAX_PAYLOAD_BYTES {
            return Err(VaultError::InvalidInput);
        }
        let none: Vec<String> = Vec::new();
        proof {
            if self.sealed@.len() > 0 {
                assert(old(self).has_version(self.sealed@[0].0@));
            }
        }
        let version = match fresh_version(&self.sealed, &none) {
            Some(v) => v,
            None => return Err(VaultError::Storage),
        };
        let sealed = match seal_payload(&self.key, entry_id, version.as_str(), payload.as_bytes()) {
            Ok(p) => p,
            Err(e) => return Err(e),
        };
        let ghost e0 = self.manifest.entries@;
        let ghost s0 = self.sealed@;
        let ghost vv = version@;
        let ghost id = entry_id@;
        let previous: Option<String> = match position(&self.manifest.entries, entry_id) {
            Some(i) => {
                proof {
                    lemma_value_at(e0, i as int);
                }
                Some(self.manifest.entries[i].1.version.clone())
            },
            None => None,
        };
        upsert(&mut self.manifest.entries, entry_id.to_owned(), EntryMeta { kind: payload.secret_type(), version: version.clone() });
        let ghost s_mid = self.sealed@;
        match &previous {
            Some(pv) => remove_key(&mut self.sealed, pv.as_str()),
            None => {},
        }
        let ghost s1 = self.sealed@;
        upsert(&mut self.sealed, version.clone(), sealed);
        proof {
            let e1 = self.manifest.entries@;
            let s2 = self.sealed@;
            // every surviving version other than the new one is sealed as before
            assert forall|ver: Seq<char>| ver != vv && (previous matches Some(pv) ==> ver != pv@)
                implies #[trigger] value_of(s2, ver) == value_of(s0, ver) && (has_key(s2, ver) <==> has_key(s0, ver)) by {
            }
            assert(value_of(s2, vv) == Some(sealed));
            assert(previous matches Some(pv) ==> has_key(s0, pv@));
            assert(previous matches Some(pv) ==> value_of(e0, id) is Some && value_of(e0, id)->0.version@ == pv@);
            assert(previous is None ==> value_of(e0, id) is None);
            assert(s2.len() == e1.len());
            assert forall|k: Seq<char>| #[trigger] value_of(e1, k) is Some
                implies is_safe_label(k) && entry_fits(value_of(e1, k)->0, s2) by {
                if k != id {
                    let e = value_of(e0, k)->0;
                    assert(value_of(e0, k) is Some);
                    assert(entry_fits(e, s0));
                    assert(has_key(s0, e.version@));
                    assert(e.version@ != vv);
                    if let Some(pv) = previous {
                        assert(e.version@ != pv@);
                    }
                }
            }
            assert forall|k1: Seq<char>, k2: Seq<char>|
                k1 != k2 && #[trigger] value_of(e1, k1) is Some && #[trigger] value_of(e1, k2) is Some
                implies value_of(e1, k1)->0.version@ != value_of(e1, k2)->0.version@ by {
                if k1 == id {
                    assert(value_of(e0, k2) is Some);
                    assert(entry_fits(value_of(e0, k2)->0, s0));
                } else if k2 == id {
                    assert(value_of(e0, k1) is Some);
                    assert(entry_fits(value_of(e0, k1)->0, s0));
                } else {
                    assert(value_of(e0, k1) is Some && value_of(e0, k2) is Some);
                }
            }
        }
        Ok(SourceVersion(version))
    }

    /// Adds a new entry under a version no payload uses yet.
    fn insert_fresh(&mut self, entry_id: String, kind: SecretType, version: String, sealed: SealedPayload)
        requires
            old(self).wf(),
            is_safe_label(entry_id@),
            is_safe_version(version@),
            !old(self).has_version(version@),
            old(self).meta(entry_id@) is None,
            sealed.ciphertext@.len() >= 16,
        ensures
            final(self).wf(),
            final(self).key_of() == old(self).key_of(),
            final(self).salt_of() == old(self).salt_of(),
            final(self).meta(entry_id@) == Some((kind, version@)),
            value_of(final(self).sealed_of(), version@) == Some(sealed),
            forall|id: Seq<char>| id != entry_id@ ==> #[trigger] final(self).meta(id) == old(self).meta(id),
            forall|ver: Seq<char>| ver != version@ ==> #[trigger] value_of(final(self).sealed_of(), ver) == value_of(old(self).sealed_of(), ver),
            forall|ver: Seq<char>| #[trigger] final(self).has_version(ver) <==> (ver == version@ || old(self).has_version(ver)),
    {
        let ghost e0 = self.manifest.entries@;
        let ghost s0 = self.sealed@;
        let ghost vv = version@;
        let ghost id = entry_id@;
        let ghost sp = sealed;
        let v2 = version.clone();
        upsert(&mut self.manifest.entries, entry_id, EntryMeta { kind, version });
        upsert(&mut self.sealed, v2, sealed);
        proof {
            let e1 = self.manifest.entries@;
            let s2 = self.sealed@;
            assert(value_of(s2, vv) == Some(sp));
            assert(value_of(e0, id) is None);
            assert(!has_key(e0, id));
            assert(!has_key(s0, vv));
            assert(s2.len() == e1.len());
            assert forall|k: Seq<char>| #[trigger] value_of(e1, k) is Some
                implies is_safe_label(k) && entry_fits(value_of(e1, k)->0, s2) by {
                if k != id {
                    let e = value_of(e0, k)->0;
                    assert(value_of(e0, k) is Some);
                    assert(entry_fits(e, s0));
                    assert(has_key(s0, e.version@));
                    assert(e.version@ != vv);
                }
            }
            assert forall|k1: Seq<char>, k2: Seq<char>|
                k1 != k2 && #[trigger] value_of(e1, k1) is Some && #[trigger] value_of(e1, k2) is Some
                implies value_of(e1, k1)->0.version@ != value_of(e1, k2)->0.version@ by {
                if k1 == id {
                    assert(value_of(e0, k2) is Some);
                    assert(entry_fits(value_of(e0, k2)->0, s0));
                } else if k2 == id {
                    assert(value_of(e0, k1) is Some);
                    assert(entry_fits(value_of(e0, k1)->0, s0));
                } else {
                    assert(value_of(e0, k1) is Some && value_of(e0, k2) is Some);
                }
            }
        }
    }

    /// Adds a batch of new entries, all or nothing: every ID must be a
    /// fresh safe label, distinct within the batch, with a payload of at most
    /// the entry limit. Each entry gets a fresh version.
    pub fn import_new(&mut self, entries: &Vec<(String, SecretPayload)>) -> (r: Result<Vec<SourceVersion>, VaultError>)
        requires
            old(self).wf(),
        ensures
            final(self).wf(),
            final(self).key_of() == old(self).key_of(),
            final(self).salt_of() == old(self).salt_of(),
            r is Err ==> *final(self) == *old(self),
            (exists|i: int| 0 <= i < entries@.len() && !(is_safe_label((#[trigger] entries@[i]).0@)
                && entries@[i].1.bytes().len() <= MAX_PAYLOAD_BYTES))
                ==> r == Err::<Vec<SourceVersion>, VaultError>(VaultError::InvalidInput),
            (forall|i: int| 0 <= i < entries@.len() ==> is_safe_label((#[trigger] entries@[i]).0@)
                && entries@[i].1.bytes().len() <= MAX_PAYLOAD_BYTES)
                && ((exists|i: int| 0 <= i < entries@.len() && (#[trigger] old(self).meta(entries@[i].0@)) is Some)
                    || !unique_keys(entries@))
                ==> r == Err::<Vec<SourceVersion>, VaultError>(VaultError::AlreadyExists),
            r is Err ==> (r == Err::<Vec<SourceVersion>, VaultError>(VaultError::InvalidInput)
                || r == Err::<Vec<SourceVersion>, VaultError>(VaultError::AlreadyExists)
                || r == Err::<Vec<SourceVersion>, VaultError>(VaultError::Storage)),
            r matches Ok(vs) ==> {
                &&& vs@.len() == entries@.len()
                &&& forall|i: int| 0 <= i < entries@.len() ==> {
                    &&& #[trigger] final(self).meta(entries@[i].0@) == Some((entries@[i].1.declared_kind(), vs@[i].0@))
                    &&& final(self).opened(entries@[i].0@, vs@[i].0@) == Some(entries@[i].1.bytes())
                    &&& !old(self).has_version(vs@[i].0@)
                }
                &&& forall|id: Seq<char>| !has_key(entries@, id) ==> #[trigger] final(self).meta(id) == old(self).meta(id)
            },
    {
        let n = entries.len();
        let mut i: usize = 0;
        while i < n
            invariant
                n == entries@.len(),
                i <= n,
                self.wf(),
                *self == *old(self),
                forall|j: int| 0 <= j < i ==> is_safe_label((#[trigger] entries@[j]).0@) && entries@[j].1.bytes().len() <= MAX_PAYLOAD_BYTES,
            decreases n - i,
        {
            if !safe_label(entries[i].0.as_str()) || entries[i].1.as_bytes().len() > MAX_PAYLOAD_BYTES {
                return Err(VaultError::InvalidInput);
            }
            i = i + 1;
        }
        let mut k: usize = 0;
        while k < n
            invariant
                n == entries@.len(),
                k <= n,
                self.wf(),
                *self == *old(self),
                forall|j: int| 0 <= j < n ==> is_safe_label((#[trigger] entries@[j]).0@) && entries@[j].1.bytes().len() <= MAX_PAYLOAD_BYTES,
                forall|j: int| 0 <= j < k ==> (#[trigger] self.meta(entries@[j].0@)) is None,
            decreases n - k,
        {
            if position(&self.manifest.entries, entries[k].0.as_str()).is_some() {
                return Err(VaultError::AlreadyExists);
            }
            k = k + 1;
        }
        if !distinct_keys(entries) {
            return Err(VaultError::AlreadyExists);
        }
        // Seal everything first; the contents change only once nothing can fail.
        let mut taken: Vec<String> = Vec::new();
        let mut prepared: Vec<SealedPayload> = Vec::new();
        let mut m: usize = 0;
        while m < n
            invariant
                n == entries@.len(),
                m <= n,
                self.wf(),
                *self == *old(self),
                unique_keys(entries@),
                forall|j: int| 0 <= j < n ==> (#[trigger] self.meta(entries@[j].0@)) is None,
                taken@.len() == m,
                prepared@.len() == m,
                crate::ledger::unique_names(taken@),
                forall|j: int| 0 <= j < m ==> {
                    &&& !has_key(self.sealed_of(), (#[trigger] taken@[j])@)
                    &&& is_safe_version(taken@[j]@)
                    &&& xchacha_open(self.key_of(), prepared@[j].nonce@, spec_payload_aad(entries@[j].0@, taken@[j]@), prepared@[j].ciphertext@) == Some(entries@[j].1.bytes())
                    &&& prepared@[j].ciphertext@.len() >= 16
                },
                forall|j: int| 0 <= j < n ==> is_safe_label((#[trigger] entries@[j]).0@) && entries@[j].1.bytes().len() <= MAX_PAYLOAD_BYTES,
            decreases n - m,
        {
            let version = match fresh_version(&self.sealed, &taken) {
                Some(v) => v,
                None => return Err(VaultError::Storage),
            };
            let sealed = match seal_payload(&self.key, entries[m].0.as_str(), version.as_str(), entries[m].1.as_bytes()) {
                Ok(p) => p,
                Err(e) => return Err(e),
            };
            let ghost t0 = taken@;
            taken.push(version);
            prepared.push(sealed);
            proof {
                assert forall|a: int, b: int| 0 <= a < taken@.len() && 0 <= b < taken@.len() && a != b implies (#[trigger] taken@[a])@ != (#[trigger] taken@[b])@ by {
                    if a < m && b < m {
                        assert(t0[a]@ != t0[b]@);
                    } else if a == m {
                        assert(taken@[b] == t0[b]);
                        if taken@[a]@ == t0[b]@ {
                            assert(crate::ledger::has_name(t0, taken@[a]@));
                        }
                    } else {
                        assert(taken@[a] == t0[a]);
                        if taken@[b]@ == t0[a]@ {
                            assert(crate::ledger::has_name(t0, taken@[b]@));
                        }
                    }
                }
            }
            m = m + 1;
        }
        let ghost start = *self;
        let mut versions: Vec<SourceVersion> = Vec::new();
        let mut done: usize = 0;
        while done < n
            invariant
                n == entries@.len(),
                done <= n,
                taken@.len() == n,
                prepared@.len() == n - done,
                versions@.len() == done,
                self.wf(),
                self.key_of() == start.key_of(),
                self.salt_of() == start.salt_of(),
                start.wf(),
                unique_keys(entries@),
                crate::ledger::unique_names(taken@),
                forall|j: int| 0 <= j < n ==> is_safe_label((#[trigger] entries@[j]).0@),
                forall|j: int| 0 <= j < n ==> (#[trigger] start.meta(entries@[j].0@)) is None,
                forall|j: int| 0 <= j < n ==> {
                    &&& !start.has_version((#[trigger] taken@[j])@)
                    &&& is_safe_version(taken@[j]@)
                },
                forall|j: int| 0 <= j < n - done ==> {
                    &&& xchacha_open(start.key_of(), (#[trigger] prepared@[j]).nonce@, spec_payload_aad(entries@[j + done].0@, taken@[j + done]@), prepared@[j].ciphertext@) == Some(entries@[j + done].1.bytes())
                    &&& prepared@[j].ciphertext@.len() >= 16
                },
                forall|j: int| 0 <= j < done ==> (#[trigger] versions@[j]).0@ == taken@[j]@,
                forall|j: int| 0 <= j < done ==> {
                    &&& #[trigger] self.meta(entries@[j].0@) == Some((entries@[j].1.declared_kind(), taken@[j]@))
                    &&& self.opened(entries@[j].0@, taken@[j]@) == Some(entries@[j].1.bytes())
                },
                forall|j: int| done <= j < n ==> (#[trigger] self.meta(entries@[j].0@)) is None && !self.has_version(taken@[j]@),
                forall|id: Seq<char>| !has_key(entries@, id) ==> #[trigger] self.meta(id) == start.meta(id),
            decreases n - done,
        {
            let sealed = prepared.remove(0);
            let id = entries[done].0.clone();
            let version = taken[done].clone();
            let ghost before = *self;
            proof {
                assert(self.meta(entries@[done as int].0@) is None);
            }
            self.insert_fresh(id, entries[done].1.secret_type(), version, sealed);
            versions.push(SourceVersion(taken[done].clone()));
            proof {
                let d = done as int;
                assert forall|j: int| 0 <= j < done + 1 implies {
                    &&& #[trigger] self.meta(entries@[j].0@) == Some((entries@[j].1.declared_kind(), taken@[j]@))
                    &&& self.opened(entries@[j].0@, taken@[j]@) == Some(entries@[j].1.bytes())
                } by {
                    if j < d {
                        assert(entries@[j].0@ != entries@[d].0@);
                        assert(taken@[j]@ != taken@[d]@);
                        assert(before.meta(entries@[j].0@) == Some((entries@[j].1.declared_kind(), taken@[j]@)));
                    }
                }
                assert forall|j: int| done + 1 <= j < n implies (#[trigger] self.meta(entries@[j].0@)) is None && !self.has_version(taken@[j]@) by {
                    assert(entries@[j].0@ != entries@[d].0@);
                    assert(taken@[j]@ != taken@[d]@);
                }
                assert forall|id: Seq<char>| !has_key(entries@, id) implies #[trigger] self.meta(id) == start.meta(id) by {
                    if id == entries@[d].0@ {
                        assert(has_key(entries@, id));
                    }
                }
                assert forall|j: int| 0 <= j < done + 1 implies (#[trigger] versions@[j]).0@ == taken@[j]@ by {}
            }
            done = done + 1;
        }
        proof {
            assert forall|i: int| 0 <= i < entries@.len() implies {
                &&& #[trigger] self.meta(entries@[i].0@) == Some((entries@[i].1.declared_kind(), versions@[i].0@))
                &&& self.opened(entries@[i].0@, versions@[i].0@) == Some(entries@[i].1.bytes())
                &&& !start.has_version(versions@[i].0@)
            } by {
                assert(versions@[i].0@ == taken@[i]@);
            }
        }
        Ok(versions)
    }

    /// Drops entry `entry_id` and its sealed payload.
    pub fn remove(&mut self, entry_id: &str) -> (r: Result<(), VaultError>)
        requires
            old(self).wf(),
        ensures
            final(self).wf(),
            final(self).key_of() == old(self).key_of(),
            final(self).salt_of() == old(self).salt_of(),
            old(self).meta(entry_id@) is None ==> r == Err::<(), VaultError>(VaultError::MissingEntry) && *final(self) == *old(self),
            old(self).meta(entry_id@) is Some ==> r is Ok && remove_effect(*old(self), *final(self), entry_id@),
    {
        let ghost e0 = self.manifest.entries@;
        let ghost s0 = self.sealed@;
        let ghost id = entry_id@;
        match position(&self.manifest.entries, entry_id) {
            None => {
                return Err(VaultError::MissingEntry);
            },
            Some(i) => {
                proof {
                    lemma_value_at(e0, i as int);
                }
                let version = self.manifest.entries[i].1.version.clone();
                let ghost vv = version@;
                proof {
                    assert(value_of(e0, id) is Some);
                    assert(entry_fits(value_of(e0, id)->0, s0));
                    assert(has_key(s0, vv));
                }
                remove_key(&mut self.manifest.entries, entry_id);
                remove_key(&mut self.sealed, version.as_str());
                proof {
                    let e1 = self.manifest.entries@;
                    let s1 = self.sealed@;
                    assert forall|k: Seq<char>| #[trigger] value_of(e1, k) is Some
                        implies is_safe_label(k) && entry_fits(value_of(e1, k)->0, s1) by {
                        assert(value_of(e0, k) is Some);
                        assert(entry_fits(value_of(e0, k)->0, s0));
                        assert(value_of(e0, k)->0.version@ != vv);
                    }
                    assert forall|k1: Seq<char>, k2: Seq<char>|
                        k1 != k2 && #[trigger] value_of(e1, k1) is Some && #[trigger] value_of(e1, k2) is Some
                        implies value_of(e1, k1)->0.version@ != value_of(e1, k2)->0.version@ by {
                        assert(value_of(e0, k1) is Some && value_of(e0, k2) is Some);
                    }
                }
                Ok(())
            },
        }
    }

    /// The current version of entry `entry_id`.
    pub fn get_version(&self, entry_id: &str) -> (r: Result<SourceVersion, VaultError>)
        requires
            self.wf(),
        ensures
            match self.meta(entry_id@) {
                None => r == Err::<SourceVersion, VaultError>(VaultError::MissingEntry),
                Some(m) => r matches Ok(v) && v.0@ == m.1,
            },
    {
        match position(&self.manifest.entries, entry_id) {
            None => Err(VaultError::MissingEntry),
            Some(i) => {
                proof {
                    lemma_value_at(self.manifest.entries@, i as int);
                }
                Ok(SourceVersion(self.manifest.entries[i].1.version.clone()))
            },
        }
    }

    /// The value of entry `entry_id` at `version`; a stale version is a
    /// conflict, never an older value.
    pub fn get_value(&self, entry_id: &str, version: &SourceVersion) -> (r: Result<SecretPayload, VaultError>)
        requires
            self.wf(),
        ensures
            match self.value_outcome(entry_id@, version.0@) {
                Ok((kind, bytes)) => r matches Ok(p) && p.bytes() == bytes && p.declared_kind() == kind,
                Err(e) => r == Err::<SecretPayload, VaultError>(e),
            },
    {
        match position(&self.manifest.entries, entry_id) {
            None => Err(VaultError::MissingEntry),
            Some(i) => {
                proof {
                    lemma_value_at(self.manifest.entries@, i as int);
                }
                let meta = &self.manifest.entries[i].1;
                if !crate::text::same_text(meta.version.as_str(), version.0.as_str()) {
                    return Err(VaultError::VersionConflict);
                }
                proof {
                    assert(value_of(self.manifest.entries@, entry_id@) is Some);
                    assert(entry_fits(*meta, self.sealed@));
                }
                match position(&self.sealed, meta.version.as_str()) {
                    None => Err(VaultError::Corrupt),
                    Some(j) => {
                        proof {
                            lemma_value_at(self.sealed@, j as int);
                        }
                        match open_payload(&self.key, entry_id, meta.version.as_str(), &self.sealed[j].1) {
                            Ok(bytes) => Ok(SecretPayload::new(bytes, meta.kind)),
                            Err(e) => Err(e),
                        }
                    },
                }
            },
        }
    }

    /// Every entry's ID, type and version, never a value.
    pub fn entries(&self) -> (r: Vec<VaultEntry>)
        requires
            self.wf(),
        ensures
            r@.len() == self.manifest_of().entries@.len(),
            forall|i: int| 0 <= i < r@.len() ==> #[trigger] self.meta(r@[i].id@) == Some((r@[i].kind, r@[i].version@)),
            forall|id: Seq<char>| #[trigger] self.meta(id) is Some ==> exists|i: int| 0 <= i < r@.len() && #[trigger] r@[i].id@ == id,
            forall|i: int, j: int| 0 <= i < r@.len() && 0 <= j < r@.len() && i != j ==> #[trigger] r@[i].id@ != #[trigger] r@[j].id@,
    {
        let mut out: Vec<VaultEntry> = Vec::new();
        let mut i: usize = 0;
        while i < self.manifest.entries.len()
            invariant
                self.wf(),
                i <= self.manifest.entries@.len(),
                out@.len() == i,
                forall|j: int| 0 <= j < i ==> (#[trigger] out@[j]).id@ == self.manifest.entries@[j].0@
                    && out@[j].kind == self.manifest.entries@[j].1.kind
                    && out@[j].version@ == self.manifest.entries@[j].1.version@,
            decreases self.manifest.entries@.len() - i,
        {
            let (id, meta) = &self.manifest.entries[i];
            let item = VaultEntry { id: id.clone(), kind: meta.kind, version: meta.version.clone() };
            let ghost before = out@;
            out.push(item);
            assert(out@ == before.push(item));
            assert(out@[i as int].id@ == self.manifest.entries@[i as int].0@);
            i = i + 1;
        }
        proof {
            let e = self.manifest.entries@;
            assert forall|j: int| 0 <= j < out@.len() implies #[trigger] self.meta(out@[j].id@) == Some((out@[j].kind, out@[j].version@)) by {
                lemma_value_at(e, j);
            }
            assert forall|id: Seq<char>| #[trigger] self.meta(id) is Some implies exists|j: int| 0 <= j < out@.len() && #[trigger] out@[j].id@ == id by {
                let j = choose|j: int| 0 <= j < e.len() && #[trigger] e[j].0@ == id;
                assert(out@[j].id@ == id);
            }
        }
        out
    }

    /// Every entry's payload decrypts under the vault key.
    pub fn verify_all(&self) -> (r: Result<(), VaultError>)
        requires
            self.wf(),
        ensures
            r is Ok <==> forall|id: Seq<char>| #[trigger] self.meta(id) is Some ==> self.opened(id, (self.meta(id)->0).1) is Some,
            r is Err ==> r == Err::<(), VaultError>(VaultError::AuthenticationOrCorrupt),
    {
        let mut i: usize = 0;
        while i < self.manifest.entries.len()
            invariant
                self.wf(),
                i <= self.manifest.entries@.len(),
                forall|j: int| 0 <= j < i ==> #[trigger] self.opened(self.manifest.entries@[j].0@, self.manifest.entries@[j].1.version@) is Some,
            decreases self.manifest.entries@.len() - i,
        {
            let (id, meta) = &self.manifest.entries[i];
            proof {
                lemma_value_at(self.manifest.entries@, i as int);
                assert(value_of(self.manifest.entries@, id@) is Some);
                assert(entry_fits(*meta, self.sealed@));
            }
            match position(&self.sealed, meta.version.as_str()) {
                None => {
                    return Err(VaultError::AuthenticationOrCorrupt);
                },
                Some(j) => {
                    proof {
                        lemma_value_at(self.sealed@, j as int);
                    }
                    match open_payload(&self.key, id.as_str(), meta.version.as_str(), &self.sealed[j].1) {
                        Ok(_) => {},
                        Err(e) => {
                            assert(self.opened(id@, meta.version@) is None);
                            assert(self.meta(id@) == Some((meta.kind, meta.version@)));
                            return Err(e);
                        },
                    }
                },
            }
            i = i + 1;
        }
        proof {
            let e = self.manifest.entries@;
            assert forall|id: Seq<char>| #[trigger] self.meta(id) is Some implies self.opened(id, (self.meta(id)->0).1) is Some by {
                let j = choose|j: int| 0 <= j < e.len() && #[trigger] e[j].0@ == id;
                lemma_value_at(e, j);
                assert(self.opened(e[j].0@, e[j].1.version@) is Some);
            }
        }
        Ok(())
    }

    /// Replaces the contents with a re-read manifest and its sealed payloads.
    pub fn replace(&mut self, manifest: Manifest, sealed: Vec<(String, SealedPayload)>) -> (r: Result<(), VaultError>)
        ensures
            r is Ok <==> valid_manifest(manifest, sealed@),
            r is Err ==> r == Err::<(), VaultError>(VaultError::Corrupt) && *final(self) == *old(self),
            r is Ok ==> {
                &&& final(self).manifest_of() == manifest
                &&& final(self).sealed_of() == sealed@
                &&& final(self).key_of() == old(self).key_of()
                &&& final(self).salt_of() == old(self).salt_of()
            },
    {
        match check_manifest(&manifest, &sealed) {
            Ok(()) => {
                self.manifest = manifest;
                self.sealed = sealed;
                Ok(())
            },
            Err(e) => Err(e),
        }
    }
}

/// First step of unlocking a stored vault: checks the envelope's framing,
/// derives the key from the passphrase and decrypts the manifest. The caller
/// decodes the manifest and hands it to `VaultContents::assemble`.
pub fn unlock_manifest(env: &Envelope, passphrase: &str) -> (r: Result<([u8; 32], Vec<u8>), VaultError>)
    ensures
        !(env.version == 2 && env.manifest_ciphertext@.len() >= 16)
            ==> r == Err::<([u8; 32], Vec<u8>), VaultError>(VaultError::Corrupt),
        env.version == 2 && env.manifest_ciphertext@.len() >= 16 && utf8_of(passphrase).len() > 0xffff_ffff
            ==> r == Err::<([u8; 32], Vec<u8>), VaultError>(VaultError::AuthenticationOrCorrupt),
        env.version == 2 && env.manifest_ciphertext@.len() >= 16 && utf8_of(passphrase).len() <= 0xffff_ffff ==> {
            let key = vault_key(utf8_of(passphrase), env.salt@);
            match xchacha_open(key, env.manifest_nonce@, spec_manifest_aad(env.salt@), env.manifest_ciphertext@) {
                Some(p) => r matches Ok((k, b)) && k@ == key && b@ == p,
                None => r == Err::<([u8; 32], Vec<u8>), VaultError>(VaultError::AuthenticationOrCorrupt),
            }
        },
{
    match check_envelope(env) {
        Ok(()) => {},
        Err(e) => return Err(e),
    }
    let key = match derive_key(passphrase, &env.salt) {
        Ok(k) => k,
        Err(e) => return Err(e),
    };
    match open_manifest(env, &key) {
        Ok(b) => Ok((key, b)),
        Err(e) => Err(e),
    }
}

/// Read after write: once `put` has stored a payload under version `v`,
/// reading the entry at `v` gives back exactly that payload and type, and `v`
/// is the entry's current version.
pub proof fn law_read_after_write(before: VaultContents, after: VaultContents, id: Seq<char>, kind: SecretType, bytes: Seq<u8>, v: Seq<char>)
    requires
        put_effect(before, after, id, kind, bytes, v),
    ensures
        after.value_outcome(id, v) == Ok::<(SecretType, Seq<u8>), VaultError>((kind, bytes)),
        after.meta(id) matches Some(m) && m.1 == v,
{
}

/// Rotation: a second put of the same entry yields a new version, and reading
/// at the previous version is refused as a conflict, never answered with the
/// old value.
pub proof fn law_rotation_refuses_stale_version(
    a: VaultContents,
    b: VaultContents,
    c: VaultContents,
    id: Seq<char>,
    k1: SecretType,
    b1: Seq<u8>,
    v1: Seq<char>,
    k2: SecretType,
    b2: Seq<u8>,
    v2: Seq<char>,
)
    requires
        put_effect(a, b, id, k1, b1, v1),
        put_effect(b, c, id, k2, b2, v2),
    ensures
        v1 != v2,
        c.value_outcome(id, v1) == Err::<(SecretType, Seq<u8>), VaultError>(VaultError::VersionConflict),
{
    assert(b.has_version(v1));
}

/// Writing one entry leaves every read of every other entry unchanged.
pub proof fn law_put_isolates_entries(
    before: VaultContents,
    after: VaultContents,
    id: Seq<char>,
    kind: SecretType,
    bytes: Seq<u8>,
    v: Seq<char>,
    other: Seq<char>,
    version: Seq<char>,
)
    requires
        before.wf(),
        put_effect(before, after, id, kind, bytes, v),
        other != id,
    ensures
        after.value_outcome(other, version) == before.value_outcome(other, version),
{
    assert(after.meta(other) == before.meta(other));
    if before.meta(other) is Some {
        let e = value_of(before.manifest_of().entries@, other)->0;
        assert(value_of(before.manifest_of().entries@, other) is Some);
        assert(entry_fits(e, before.sealed_of()));
        assert(before.has_version(e.version@));
        if before.meta(id) is Some {
            assert(value_of(before.manifest_of().entries@, id) is Some);
        }
        assert(after.opened(other, e.version@) == before.opened(other, e.version@));
    }
}

/// A removed entry reads as missing at every version.
pub proof fn law_removed_entry_is_missing(before: VaultContents, after: VaultContents, id: Seq<char>, version: Seq<char>)
    requires
        remove_effect(before, after, id),
    ensures
        after.value_outcome(id, version) == Err::<(SecretType, Seq<u8>), VaultError>(VaultError::MissingEntry),
{
}

/// The local vault's settings screen.
pub struct VaultStoreScreen;

impl SettingsScreen for VaultStoreScreen {
    open spec fn declared_id(&self) -> Seq<char> {
        "local_vault"@
    }

    open spec fn declared_kind(&self) -> ModuleKind {
        ModuleKind::Store
    }

    open spec fn declared_types(&self) -> Seq<SecretType> {
        seq![SecretType::Text, SecretType::Json, SecretType::Binary, SecretType::Certificate, SecretType::PrivateKey]
    }

    open spec fn declared_render(&self) -> Seq<char> {
        "Local vault: create, unlock, lock, edit, backup, recover; configure connection,entry"@
    }

    open spec fn accepts(&self, input: Seq<char>, r: Result<ModuleSetting, ErrorCategory>) -> bool {
        match (r, connection_entry(input)) {
            (Ok(ModuleSetting::Source(s)), Some((c, e))) => s.store == StoreKind::LocalVault && s.connection@ == c && s.entry@ == e,
            (Err(ErrorCategory::InvalidConfig), None) => true,
            _ => false,
        }
    }

    fn module_id(&self) -> (r: &'static str)
        ensures
            r@ == "local_vault"@,
    {
        "local_vault"
    }

    fn kind(&self) -> (r: ModuleKind)
        ensures
            r == ModuleKind::Store,
    {
        ModuleKind::Store
    }

    fn supported_types(&self) -> (r: &'static [SecretType])
        ensures
            r@ == seq![SecretType::Text, SecretType::Json, SecretType::Binary, SecretType::Certificate, SecretType::PrivateKey],
    {
        let r: &'static [SecretType] = &[
            SecretType::Text,
            SecretType::Json,
            SecretType::Binary,
            SecretType::Certificate,
            SecretType::PrivateKey,
        ];
        assert(r@ =~= seq![SecretType::Text, SecretType::Json, SecretType::Binary, SecretType::Certificate, SecretType::PrivateKey]);
        r
    }

    fn render(&self) -> (r: &'static str)
        ensures
            r@ == "Local vault: create, unlock, lock, edit, backup, recover; configure connection,entry"@,
    {
        "Local vault: create, unlock, lock, edit, backup, recover; configure connection,entry"
    }

    fn configure(&self, input: &str) -> (r: Result<ModuleSetting, ErrorCategory>)
        ensures
            match (r, connection_entry(input@)) {
                (Ok(ModuleSetting::Source(s)), Some((c, e))) => s.store == StoreKind::LocalVault
                    && s.connection@ == c && s.entry@ == e,
                (Err(ErrorCategory::InvalidConfig), None) => true,
                _ => false,
            },
    {
        configure_source(StoreKind::LocalVault, input)
    }
}

/// A vault source serves references to its own connection only, with a
/// safe entry ID.
pub open spec fn serves(connection: Seq<char>, r: SourceRef) -> bool {
    r.store == StoreKind::LocalVault && r.connection@ == connection && is_safe_label(r.entry@)
}

/// Checks that a reference is one this vault source serves.
pub fn check_reference(connection: &str, reference: &SourceRef) -> (r: Result<(), ErrorCategory>)
    ensures
        r is Ok <==> serves(connection@, *reference),
        r is Err ==> r == Err::<(), ErrorCategory>(ErrorCategory::InvalidConfig),
{
    let local = match reference.store {
        StoreKind::LocalVault => true,
        _ => false,
    };
    if !local || !crate::text::same_text(reference.connection.as_str(), connection) || !safe_label(reference.entry.as_str()) {
        return Err(ErrorCategory::InvalidConfig);
    }
    Ok(())
}

/// How a vault failure reaches the sync engine: a locked vault is
/// unauthorized, a stale version is a conflict, anything else is a source
/// failure.
pub open spec fn source_category(e: VaultError) -> ErrorCategory {
    match e {
        VaultError::Locked => ErrorCategory::Unauthorized,
        VaultError::VersionConflict => ErrorCategory::VersionConflict,
        _ => ErrorCategory::Source,
    }
}

pub fn source_error(e: VaultError) -> (r: ErrorCategory)
    ensures
        r == source_category(e),
{
    match e {
        VaultError::Locked => ErrorCategory::Unauthorized,
        VaultError::VersionConflict => ErrorCategory::VersionConflict,
        _ => ErrorCategory::Source,
    }
}

/// A vault source is named by a safe connection label.
pub fn check_connection(connection: &str) -> (r: Result<(), VaultError>)
    ensures
        r is Ok <==> is_safe_label(connection@),
        r is Err ==> r == Err::<(), VaultError>(VaultError::InvalidInput),
{
    if !safe_label(connection) {
        return Err(VaultError::InvalidInput);
    }
    Ok(())
}

/// A vault stays unlocked for this many idle seconds.
pub const IDLE_TIMEOUT_SECS: u64 = 900;

/// The vault locks once it has been idle for the timeout.
pub fn idle_expired(idle_secs: u64) -> (r: bool)
    ensures
        r == (idle_secs >= IDLE_TIMEOUT_SECS),
{
    idle_secs >= IDLE_TIMEOUT_SECS
}

/// `Zeroize::zeroize` of the vault key: every byte is overwritten with zero
/// by writes the compiler may not remove.
#[verifier::external_body]
fn zeroize_key(key: &mut [u8; 32])
    ensures
        final(key)@ == Seq::new(32, |i: int| 0u8),
{
    key.zeroize()
}

impl VaultContents {
    /// Forgets the unlocked vault: the key is zeroed and the entries and
    /// sealed payloads are dropped.
    pub fn wipe(&mut self)
        ensures
            final(self).key_of() == Seq::new(32, |i: int| 0u8),
            final(self).manifest_of().entries@.len() == 0,
            final(self).sealed_of().len() == 0,
            final(self).salt_of() == old(self).salt_of(),
    {
        zeroize_key(&mut self.key);
        self.manifest.entries = Vec::new();
        self.sealed = Vec::new();
    }
}

/// Locks an unlocked vault: its contents are wiped, then dropped.
pub fn lock(contents: &mut Option<VaultContents>)
    ensures
        *final(contents) is None,
{
    let mut taken: Option<VaultContents> = None;
    std::mem::swap(&mut taken, contents);
    match taken {
        Some(mut c) => c.wipe(),
        None => {},
    }
}

/// The check before every vault operation: a locked vault, or one idle for
/// the timeout, is refused as locked, and an idle one is locked (wiped and
/// dropped) so that every later check is refused too; otherwise the vault
/// stays as it is.
pub fn expire(contents: &mut Option<VaultContents>, idle_secs: u64) -> (r: Result<(), VaultError>)
    ensures
        (*old(contents) is None || idle_secs >= IDLE_TIMEOUT_SECS)
            ==> r == Err::<(), VaultError>(VaultError::Locked) && *final(contents) is None,
        !(*old(contents) is None || idle_secs >= IDLE_TIMEOUT_SECS)
            ==> r is Ok && *final(contents) == *old(contents),
{
    if contents.is_none() {
        return Err(VaultError::Locked);
    }
    if idle_expired(idle_secs) {
        lock(contents);
        return Err(VaultError::Locked);
    }
    Ok(())
}

} // verus!
