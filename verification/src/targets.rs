//! How a payload is written into a target: which targets accept which
//! secret types, the pointer and key forms of structured targets, and the
//! rewrite of a JSON or YAML field. Reading and replacing the file itself
//! belongs to the caller.
use crate::domain::{
    ErrorCategory, MissingTargetPolicy, SecretPayload, SecretType, StructuredFormat, TargetSpec,
};
use crate::keyvalue::{render_key_value, KeyValueStyle};
use crate::text::{chars_of, push_char, push_text, same_text, split_first, split_once_char, utf8_text};
use std::str::FromStr;
use vstd::prelude::*;
use vstd::utf8::{decode_utf8, encode_utf8, valid_utf8};

verus! {

/// `s` with every two-character run `a b` replaced by `r`, read left to
/// right without overlap, as `str::replace` does.
pub open spec fn replace_pair(s: Seq<char>, a: char, b: char, r: char) -> Seq<char>
    decreases s.len(),
{
    if s.len() == 0 {
        seq![]
    } else if s.len() >= 2 && s[0] == a && s[1] == b {
        seq![r] + replace_pair(s.skip(2), a, b, r)
    } else {
        seq![s[0]] + replace_pair(s.skip(1), a, b, r)
    }
}

/// A JSON pointer token: `~1` stands for `/`, then `~0` for `~`.
pub open spec fn unescaped(s: Seq<char>) -> Seq<char> {
    replace_pair(replace_pair(s, '~', '1', '/'), '~', '0', '~')
}

fn replace_pair_of(v: &Vec<char>, a: char, b: char, r: char) -> (out: Vec<char>)
    ensures
        out@ == replace_pair(v@, a, b, r),
{
    let mut out: Vec<char> = Vec::new();
    let mut i: usize = 0;
    assert(v@.skip(0) =~= v@);
    assert(out@ + replace_pair(v@.skip(0), a, b, r) =~= replace_pair(v@, a, b, r));
    while i < v.len()
        invariant
            i <= v@.len(),
            out@ + replace_pair(v@.skip(i as int), a, b, r) == replace_pair(v@, a, b, r),
        decreases v@.len() - i,
    {
        let ghost rest = v@.skip(i as int);
        if i + 1 < v.len() && v[i] == a && v[i + 1] == b {
            assert(rest.skip(2) =~= v@.skip(i as int + 2));
            out.push(r);
            assert(out@ + replace_pair(v@.skip(i as int + 2), a, b, r) =~= replace_pair(v@, a, b, r));
            i = i + 2;
        } else {
            assert(rest.skip(1) =~= v@.skip(i as int + 1));
            out.push(v[i]);
            assert(out@ + replace_pair(v@.skip(i as int + 1), a, b, r) =~= replace_pair(v@, a, b, r));
            i = i + 1;
        }
    }
    assert(v@.skip(v@.len() as int) =~= Seq::<char>::empty());
    assert(out@ =~= replace_pair(v@, a, b, r));
    out
}

/// Decodes one JSON pointer token.
pub fn unescape_pointer(s: &str) -> (r: String)
    ensures
        r@ == unescaped(s@),
{
    let v = chars_of(s);
    let once = replace_pair_of(&v, '~', '1', '/');
    let twice = replace_pair_of(&once, '~', '0', '~');
    crate::text::string_of(&twice)
}

/// `str::trim_start_matches('/')`.
pub open spec fn drop_slashes(s: Seq<char>) -> Seq<char>
    decreases s.len(),
{
    if s.len() > 0 && s[0] == '/' {
        drop_slashes(s.skip(1))
    } else {
        s
    }
}

/// `str::split('/')`: the pieces between slashes, empty ones included.
pub open spec fn split_slashes(s: Seq<char>) -> Seq<Seq<char>>
    decreases s.len(),
{
    if s.len() == 0 {
        seq![seq![]]
    } else {
        let prev = split_slashes(s.drop_last());
        if s.last() == '/' {
            prev.push(seq![])
        } else {
            prev.update(prev.len() - 1, prev.last().push(s.last()))
        }
    }
}

proof fn lemma_split_nonempty(s: Seq<char>)
    ensures
        split_slashes(s).len() >= 1,
    decreases s.len(),
{
    if s.len() > 0 {
        lemma_split_nonempty(s.drop_last());
    }
}

/// The decoded tokens of a pointer, after its leading slashes.
pub open spec fn pointer_tokens(pointer: Seq<char>) -> Seq<Seq<char>> {
    split_slashes(drop_slashes(pointer)).map_values(|t: Seq<char>| unescaped(t))
}

pub open spec fn string_views(v: Seq<String>) -> Seq<Seq<char>> {
    v.map_values(|s: String| s@)
}

/// The tokens of a field pointer; a pointer with an empty token names no
/// field.
pub fn pointer_parts(pointer: &str) -> (r: Result<Vec<String>, ErrorCategory>)
    ensures
        (forall|i: int| 0 <= i < pointer_tokens(pointer@).len() ==> (#[trigger] pointer_tokens(pointer@)[i]).len() > 0)
            ==> (r matches Ok(v) && string_views(v@) == pointer_tokens(pointer@) && v@.len() >= 1),
        !(forall|i: int| 0 <= i < pointer_tokens(pointer@).len() ==> (#[trigger] pointer_tokens(pointer@)[i]).len() > 0)
            ==> r == Err::<Vec<String>, ErrorCategory>(ErrorCategory::InvalidConfig),
{
    let c = chars_of(pointer);
    let mut start: usize = 0;
    assert(c@.skip(0) =~= c@);
    while start < c.len() && c[start] == '/'
        invariant
            start <= c@.len(),
            drop_slashes(c@.skip(start as int)) == drop_slashes(c@),
        decreases c@.len() - start,
    {
        assert(c@.skip(start as int).skip(1) =~= c@.skip(start as int + 1));
        start = start + 1;
    }
    let ghost body = c@.skip(start as int);
    assert(drop_slashes(body) == body);
    let mut pieces: Vec<Vec<char>> = Vec::new();
    let mut cur: Vec<char> = Vec::new();
    let mut i: usize = start;
    assert(body.take(0) =~= Seq::<char>::empty());
    while i < c.len()
        invariant
            start <= i <= c@.len(),
            body == c@.skip(start as int),
            pieces@.map_values(|p: Vec<char>| p@).push(cur@) == split_slashes(body.take(i - start)),
        decreases c@.len() - i,
    {
        assert(body.take(i - start + 1).drop_last() =~= body.take(i - start));
        assert(body.take(i - start + 1).last() == c@[i as int]);
        let ghost prev = split_slashes(body.take(i - start));
        if c[i] == '/' {
            let done = cur;
            pieces.push(done);
            cur = Vec::new();
            assert(pieces@.map_values(|p: Vec<char>| p@).push(cur@) =~= prev.push(seq![]));
        } else {
            cur.push(c[i]);
            assert(pieces@.map_values(|p: Vec<char>| p@).push(cur@) =~= prev.update(prev.len() - 1, prev.last().push(c@[i as int])));
        }
        i = i + 1;
    }
    assert(body.take(c@.len() - start) =~= body);
    pieces.push(cur);
    let ghost split = split_slashes(body);
    assert(pieces@.map_values(|p: Vec<char>| p@) =~= split);
    let mut out: Vec<String> = Vec::new();
    let mut k: usize = 0;
    while k < pieces.len()
        invariant
            k <= pieces@.len(),
            pieces@.map_values(|p: Vec<char>| p@) == split,
            split == split_slashes(body),
            body == drop_slashes(c@),
            c@ == pointer@,
            string_views(out@) == pointer_tokens(pointer@).take(k as int),
            forall|j: int| 0 <= j < k ==> (#[trigger] pointer_tokens(pointer@)[j]).len() > 0,
        decreases pieces@.len() - k,
    {
        let token = unescape_pointer(crate::text::string_of(&pieces[k]).as_str());
        assert(pieces@[k as int]@ == split[k as int]);
        assert(pointer_tokens(pointer@)[k as int] == token@);
        if crate::text::is_empty_text(token.as_str()) {
            return Err(ErrorCategory::InvalidConfig);
        }
        let ghost before = out@;
        out.push(token);
        assert(string_views(out@) =~= string_views(before).push(token@));
        assert(pointer_tokens(pointer@).take(k as int + 1) =~= pointer_tokens(pointer@).take(k as int).push(pointer_tokens(pointer@)[k as int]));
        k = k + 1;
    }
    proof {
        lemma_split_nonempty(body);
        assert(pointer_tokens(pointer@).take(pieces@.len() as int) =~= pointer_tokens(pointer@));
    }
    Ok(out)
}

/// The YAML pointer a Compose binding writes: `service:VARIABLE` names
/// `/services/{service}/environment/{VARIABLE}`.
pub open spec fn compose_pointer_of(key: Seq<char>) -> Option<Seq<char>> {
    match split_first(key, ':') {
        Some((service, variable)) => Some("/services/"@ + service + "/environment/"@ + variable),
        None => None,
    }
}

pub fn compose_pointer(key: &str) -> (r: Result<String, ErrorCategory>)
    ensures
        match compose_pointer_of(key@) {
            Some(p) => r matches Ok(s) && s@ == p,
            None => r == Err::<String, ErrorCategory>(ErrorCategory::InvalidConfig),
        },
{
    proof {
        reveal_strlit("/services/");
        reveal_strlit("/environment/");
    }
    match split_once_char(key, ':') {
        Some((service, variable)) => {
            let mut p = String::new();
            push_text(&mut p, "/services/");
            push_text(&mut p, service.as_str());
            push_text(&mut p, "/environment/");
            push_text(&mut p, variable.as_str());
            Ok(p)
        },
        None => Err(ErrorCategory::InvalidConfig),
    }
}

/// Compose interpolates `$`; a literal value doubles every `$`.
pub open spec fn compose_escaped(v: Seq<char>) -> Seq<char>
    decreases v.len(),
{
    if v.len() == 0 {
        seq![]
    } else {
        compose_escaped(v.drop_last()) + (if v.last() == '$' { seq!['$', '$'] } else { seq![v.last()] })
    }
}

pub fn escape_compose(value: &str) -> (r: String)
    ensures
        r@ == compose_escaped(value@),
{
    let v = chars_of(value);
    let mut out = String::new();
    let mut i: usize = 0;
    while i < v.len()
        invariant
            i <= v@.len(),
            v@ == value@,
            out@ == compose_escaped(v@.take(i as int)),
        decreases v@.len() - i,
    {
        assert(v@.take(i as int + 1).drop_last() =~= v@.take(i as int));
        if v[i] == '$' {
            push_char(&mut out, '$');
        }
        push_char(&mut out, v[i]);
        proof {
            let t = v@.take(i as int + 1);
            assert(t.last() == v@[i as int]);
        }
        i = i + 1;
    }
    assert(v@.take(v@.len() as int) =~= v@);
    out
}

/// A value that may stand on one line of a text target: no line break, no NUL.
pub open spec fn is_single_line(v: Seq<char>) -> bool {
    !v.contains('\r') && !v.contains('\n') && !v.contains('\0')
}

fn single_line(v: &str) -> (r: bool)
    ensures
        r == is_single_line(v@),
{
    let c = chars_of(v);
    let mut i: usize = 0;
    while i < c.len()
        invariant
            i <= c@.len(),
            c@ == v@,
            forall|j: int| 0 <= j < i ==> c@[j] != '\r' && c@[j] != '\n' && c@[j] != '\0',
        decreases c@.len() - i,
    {
        if c[i] == '\r' || c[i] == '\n' || c[i] == '\0' {
            return false;
        }
        i = i + 1;
    }
    true
}

/// How many documents `yaml_edit` finds in a YAML text; `None` when the
/// text does not parse.
pub uninterp spec fn yaml_documents(text: Seq<char>) -> Option<nat>;

/// `YamlFile::from_str`, then `YamlFile::documents`, counted.
#[verifier::external_body]
pub(crate) fn yaml_document_total(text: &str) -> (r: Option<usize>)
    ensures
        yaml_documents(text@) == match r {
            Some(n) => Some(n as nat),
            None => None,
        },
{
    Some(yaml_edit::YamlFile::from_str(text).ok()?.documents().count())
}

/// What `yaml_edit` writes after setting the existing field at the path of
/// keys `tokens` to `value`, in the first document of `source`, each key
/// but the last naming a nested mapping; `None` when the text does not
/// parse, the document is not a mapping, or the path does not lead to an
/// existing field.
pub uninterp spec fn yaml_field_set(source: Seq<char>, tokens: Seq<Seq<char>>, value: Seq<char>) -> Option<Seq<char>>;

/// `YamlFile::from_str`, `YamlFile::document`, `Document::as_mapping`, then
/// `Mapping::get` and `YamlNode::as_mapping` down the path, `Mapping::get`
/// and `Mapping::set` on the last key, and the file's text (`to_string`).
#[verifier::external_body]
fn yaml_set_field(source: &str, tokens: &Vec<String>, value: &str) -> (r: Option<String>)
    ensures
        yaml_field_set(source@, string_views(tokens@), value@) == match r {
            Some(t) => Some(t@),
            None => None,
        },
{
    let file = yaml_edit::YamlFile::from_str(source).ok()?;
    let mut mapping = file.document()?.as_mapping()?;
    let (last, path) = tokens.split_last()?;
    for key in path {
        mapping = mapping.get(key.as_str())?.as_mapping()?.clone();
    }
    mapping.get(last.as_str())?;
    mapping.set(last.as_str(), value);
    Some(file.to_string())
}

/// Every token of a pointer is non-empty.
pub open spec fn tokens_named(pointer: Seq<char>) -> bool {
    forall|i: int| 0 <= i < pointer_tokens(pointer).len() ==> (#[trigger] pointer_tokens(pointer)[i]).len() > 0
}

/// What writing `value` into the YAML field at `pointer` of `source` gives:
/// a value with a line break or NUL, a text that is not one YAML document,
/// and a path that `yaml_edit` does not find as an existing field are
/// target errors; a pointer with an empty token is an invalid
/// configuration.
pub open spec fn yaml_render_of(source: Seq<char>, pointer: Seq<char>, value: Seq<char>) -> Result<Seq<u8>, ErrorCategory> {
    if !is_single_line(value) {
        Err(ErrorCategory::Target)
    } else if yaml_documents(source) != Some(1nat) {
        Err(ErrorCategory::Target)
    } else if !tokens_named(pointer) {
        Err(ErrorCategory::InvalidConfig)
    } else {
        match yaml_field_set(source, pointer_tokens(pointer), value) {
            Some(t) => Ok(encode_utf8(t)),
            None => Err(ErrorCategory::Target),
        }
    }
}

/// Replaces an existing scalar field of a single-document YAML file,
/// keeping the rest of the text.
pub fn render_yaml_text(source: &str, pointer: &str, value: &str) -> (r: Result<Vec<u8>, ErrorCategory>)
    ensures
        match yaml_render_of(source@, pointer@, value@) {
            Ok(b) => r matches Ok(o) && o@ == b,
            Err(e) => r == Err::<Vec<u8>, ErrorCategory>(e),
        },
{
    if !single_line(value) {
        return Err(ErrorCategory::Target);
    }
    match yaml_document_total(source) {
        Some(n) => if n != 1 {
            return Err(ErrorCategory::Target);
        },
        None => return Err(ErrorCategory::Target),
    }
    let parts = match pointer_parts(pointer) {
        Ok(p) => p,
        Err(e) => return Err(e),
    };
    match yaml_set_field(source, &parts, value) {
        Some(text) => Ok(vstd::slice::slice_to_vec(crate::text::bytes_of(text.as_str()))),
        None => Err(ErrorCategory::Target),
    }
}

/// Writes a payload's text into a YAML field.
pub fn render_yaml(prior: &[u8], pointer: &str, payload: &SecretPayload) -> (r: Result<Vec<u8>, ErrorCategory>)
    ensures
        !valid_utf8(prior@) || !valid_utf8(payload.bytes()) ==> r == Err::<Vec<u8>, ErrorCategory>(ErrorCategory::Target),
        valid_utf8(prior@) && valid_utf8(payload.bytes()) ==> match yaml_render_of(decode_utf8(prior@), pointer@, decode_utf8(payload.bytes())) {
            Ok(b) => r matches Ok(o) && o@ == b,
            Err(e) => r == Err::<Vec<u8>, ErrorCategory>(e),
        },
{
    let source = match utf8_text(prior) {
        Some(s) => s,
        None => return Err(ErrorCategory::Target),
    };
    let value = match utf8_text(payload.as_bytes()) {
        Some(v) => v,
        None => return Err(ErrorCategory::Target),
    };
    render_yaml_text(source, pointer, value)
}

/// Writes a payload into a Compose service's environment: the key is
/// `service:VARIABLE`, and `$` is doubled so that Compose keeps it literal.
pub fn render_compose(prior: &[u8], key: &str, payload: &SecretPayload) -> (r: Result<Vec<u8>, ErrorCategory>)
    ensures
        match compose_pointer_of(key@) {
            None => r == Err::<Vec<u8>, ErrorCategory>(ErrorCategory::InvalidConfig),
            Some(pointer) => if !valid_utf8(prior@) || !valid_utf8(payload.bytes()) {
                r == Err::<Vec<u8>, ErrorCategory>(ErrorCategory::Target)
            } else {
                match yaml_render_of(decode_utf8(prior@), pointer, compose_escaped(decode_utf8(payload.bytes()))) {
                    Ok(b) => r matches Ok(o) && o@ == b,
                    Err(e) => r == Err::<Vec<u8>, ErrorCategory>(e),
                }
            },
        },
{
    let pointer = match compose_pointer(key) {
        Ok(p) => p,
        Err(e) => return Err(e),
    };
    let source = match utf8_text(prior) {
        Some(s) => s,
        None => return Err(ErrorCategory::Target),
    };
    let value = match utf8_text(payload.as_bytes()) {
        Some(v) => v,
        None => return Err(ErrorCategory::Target),
    };
    let escaped = escape_compose(value);
    render_yaml_text(source, pointer.as_str(), escaped.as_str())
}

/// What `serde_json` writes, pretty-printed, after the value at `pointer`
/// in the JSON document `document` is replaced by the JSON value
/// `replacement`; `None` when either text is not JSON, the pointer names no
/// value, or serialisation fails.
pub uninterp spec fn json_replaced(document: Seq<u8>, pointer: Seq<char>, replacement: Seq<u8>) -> Option<Seq<u8>>;

/// `serde_json::from_slice` of the document and of the replacement,
/// `Value::pointer_mut` and assignment, then `serde_json::to_vec_pretty`.
#[verifier::external_body]
fn json_replace_text(document: &[u8], pointer: &str, replacement: &[u8]) -> (r: Option<Vec<u8>>)
    ensures
        json_replaced(document@, pointer@, replacement@) == match r {
            Some(b) => Some(b@),
            None => None,
        },
{
    let mut value: serde_json::Value = serde_json::from_slice(document).ok()?;
    let new: serde_json::Value = serde_json::from_slice(replacement).ok()?;
    *value.pointer_mut(pointer)? = new;
    serde_json::to_vec_pretty(&value).ok()
}

/// The JSON document a field is written into: the prior file, or an empty
/// object when the file is empty.
pub open spec fn json_document(prior: Seq<u8>) -> Seq<u8> {
    if prior.len() == 0 {
        seq![0x7bu8, 0x7du8]
    } else {
        prior
    }
}

/// The JSON text written into the field: a JSON secret as the value it
/// holds, any other secret as a JSON string of its text.
pub open spec fn json_replacement(payload: Seq<u8>, kind: SecretType) -> Seq<u8> {
    if kind == SecretType::Json {
        payload
    } else {
        crate::browser_import::json_string(decode_utf8(payload))
    }
}

/// Writes a payload into a JSON field at an existing pointer: the payload's
/// text as a string, or, for a JSON secret, as the JSON value it holds. The
/// payload must be UTF-8; the document, the pointer and the value decide
/// the rest, as `serde_json` reads and writes them.
pub fn render_json(prior: &[u8], pointer: &str, payload: &SecretPayload) -> (r: Result<Vec<u8>, ErrorCategory>)
    ensures
        !valid_utf8(payload.bytes()) ==> r == Err::<Vec<u8>, ErrorCategory>(ErrorCategory::Target),
        valid_utf8(payload.bytes()) ==> match json_replaced(json_document(prior@), pointer@, json_replacement(payload.bytes(), payload.declared_kind())) {
            Some(b) => r matches Ok(o) && o@ == b,
            None => r == Err::<Vec<u8>, ErrorCategory>(ErrorCategory::Target),
        },
        valid_utf8(payload.bytes()) && payload.declared_kind() == SecretType::Json
            ==> match json_replaced(json_document(prior@), pointer@, payload.bytes()) {
            Some(b) => r matches Ok(o) && o@ == b,
            None => r == Err::<Vec<u8>, ErrorCategory>(ErrorCategory::Target),
        },
{
    let text = match utf8_text(payload.as_bytes()) {
        Some(t) => t,
        None => return Err(ErrorCategory::Target),
    };
    let empty: Vec<u8> = vec![0x7bu8, 0x7du8];
    let document: &[u8] = if prior.len() == 0 { empty.as_slice() } else { prior };
    assert(document@ == json_document(prior@));
    let mut quoted: Vec<u8> = Vec::new();
    let replacement: &[u8] = match payload.secret_type() {
        SecretType::Json => payload.as_bytes(),
        _ => {
            crate::browser_import::push_json_string(&mut quoted, text);
            assert(quoted@ =~= crate::browser_import::json_string(text@));
            quoted.as_slice()
        },
    };
    assert(replacement@ == json_replacement(payload.bytes(), payload.declared_kind()));
    match json_replace_text(document, pointer, replacement) {
        Some(b) => Ok(b),
        None => Err(ErrorCategory::Target),
    }
}

/// `r` is the outcome `expected` describes.
pub open spec fn renders(r: Result<Vec<u8>, ErrorCategory>, expected: Result<Seq<u8>, ErrorCategory>) -> bool {
    match expected {
        Ok(b) => r matches Ok(o) && o@ == b,
        Err(e) => r == Err::<Vec<u8>, ErrorCategory>(e),
    }
}

/// What a key-value rendering gives: the rendered bytes, or a target error.
pub open spec fn key_value_outcome(prior: Seq<u8>, key: Seq<char>, payload: Seq<u8>, style: KeyValueStyle) -> Result<Seq<u8>, ErrorCategory> {
    match crate::keyvalue::rendered_key_value(prior, key, payload, style) {
        Some(b) => Ok(b),
        None => Err(ErrorCategory::Target),
    }
}

/// What writing a payload into a JSON field gives.
pub open spec fn json_outcome(prior: Seq<u8>, pointer: Seq<char>, payload: Seq<u8>, kind: SecretType) -> Result<Seq<u8>, ErrorCategory> {
    if !valid_utf8(payload) {
        Err(ErrorCategory::Target)
    } else {
        match json_replaced(json_document(prior), pointer, json_replacement(payload, kind)) {
            Some(b) => Ok(b),
            None => Err(ErrorCategory::Target),
        }
    }
}

/// What writing a payload's text into a YAML field gives.
pub open spec fn yaml_outcome(prior: Seq<u8>, pointer: Seq<char>, payload: Seq<u8>) -> Result<Seq<u8>, ErrorCategory> {
    if !valid_utf8(prior) || !valid_utf8(payload) {
        Err(ErrorCategory::Target)
    } else {
        yaml_render_of(decode_utf8(prior), pointer, decode_utf8(payload))
    }
}

/// What writing a payload into a Compose service's environment gives.
pub open spec fn compose_outcome(prior: Seq<u8>, key: Seq<char>, payload: Seq<u8>) -> Result<Seq<u8>, ErrorCategory> {
    match compose_pointer_of(key) {
        None => Err(ErrorCategory::InvalidConfig),
        Some(pointer) => if !valid_utf8(prior) || !valid_utf8(payload) {
            Err(ErrorCategory::Target)
        } else {
            yaml_render_of(decode_utf8(prior), pointer, compose_escaped(decode_utf8(payload)))
        },
    }
}

/// What writing a payload into a structured field of a format gives.
pub open spec fn structured_outcome(prior: Seq<u8>, key: Seq<char>, format: StructuredFormat, payload: Seq<u8>, kind: SecretType) -> Result<Seq<u8>, ErrorCategory> {
    match format {
        StructuredFormat::DotEnv => key_value_outcome(prior, key, payload, KeyValueStyle::SingleQuoted),
        StructuredFormat::Properties => key_value_outcome(prior, key, payload, KeyValueStyle::Properties),
        StructuredFormat::Json => json_outcome(prior, key, payload, kind),
        StructuredFormat::Yaml => yaml_outcome(prior, key, payload),
    }
}

/// Writes a payload into a structured field of the given format.
pub fn render_structured(prior: &[u8], key: &str, format: StructuredFormat, payload: &SecretPayload) -> (r: Result<Vec<u8>, ErrorCategory>)
    ensures
        renders(r, structured_outcome(prior@, key@, format, payload.bytes(), payload.declared_kind())),
{
    match format {
        StructuredFormat::DotEnv => render_key_value(prior, key, payload, KeyValueStyle::SingleQuoted),
        StructuredFormat::Properties => render_key_value(prior, key, payload, KeyValueStyle::Properties),
        StructuredFormat::Json => render_json(prior, key, payload),
        StructuredFormat::Yaml => render_yaml(prior, key, payload),
    }
}

/// Which secret types a target accepts: any whole file; text, or JSON for a
/// non-YAML field; text for Docker inputs; and text for an https Git
/// credential with a host and username, whose repository path is used only
/// where Git is set to scope credentials by path (`path_scoped`).
pub open spec fn accepts(spec: TargetSpec, kind: SecretType, path_scoped: bool) -> bool {
    match spec {
        TargetSpec::WholeFile { .. } => true,
        TargetSpec::StructuredField { format, .. } => kind == SecretType::Text
            || (kind == SecretType::Json && format != StructuredFormat::Yaml),
        TargetSpec::DockerInput { .. } => kind == SecretType::Text,
        TargetSpec::GitCredential { protocol, host, path, username } => {
            &&& kind == SecretType::Text
            &&& protocol@ == "https"@
            &&& host@.len() > 0
            &&& username@.len() > 0
            &&& (path is None || path_scoped)
        },
        TargetSpec::Fake { .. } => false,
    }
}

/// The type check of a production target.
pub fn check_target_type(spec: &TargetSpec, kind: SecretType, path_scoped: bool) -> (r: Result<(), ErrorCategory>)
    ensures
        r is Ok <==> accepts(*spec, kind, path_scoped),
        r is Err ==> r == Err::<(), ErrorCategory>(ErrorCategory::InvalidConfig),
{
    let ok = match spec {
        TargetSpec::WholeFile { .. } => true,
        TargetSpec::StructuredField { format, .. } => {
            let yaml = match format {
                StructuredFormat::Yaml => true,
                _ => false,
            };
            match kind {
                SecretType::Text => true,
                SecretType::Json => !yaml,
                _ => false,
            }
        },
        TargetSpec::DockerInput { .. } => match kind {
            SecretType::Text => true,
            _ => false,
        },
        TargetSpec::GitCredential { protocol, host, path, username } => {
            proof {
                reveal_strlit("https");
            }
            let text = match kind {
                SecretType::Text => true,
                _ => false,
            };
            text && same_text(protocol.as_str(), "https") && !crate::text::is_empty_text(host.as_str())
                && !crate::text::is_empty_text(username.as_str()) && (path.is_none() || path_scoped)
        },
        TargetSpec::Fake { .. } => false,
    };
    if ok {
        Ok(())
    } else {
        Err(ErrorCategory::InvalidConfig)
    }
}

/// A missing target file is written only under the recreate policy.
pub fn check_missing_file(present: bool, policy: MissingTargetPolicy) -> (r: Result<(), ErrorCategory>)
    ensures
        r is Ok <==> (present || policy == MissingTargetPolicy::Recreate),
        r is Err ==> r == Err::<(), ErrorCategory>(ErrorCategory::Target),
{
    match policy {
        MissingTargetPolicy::Recreate => Ok(()),
        _ => if present {
            Ok(())
        } else {
            Err(ErrorCategory::Target)
        },
    }
}

/// What Git's credential helper reads before the password:
/// `protocol=..`, `host=..`, an optional `path=..`, `username=..`, each on
/// its own line, then `password=`.
pub open spec fn credential_request(protocol: Seq<char>, host: Seq<char>, path: Option<Seq<char>>, username: Seq<char>) -> Seq<char> {
    "protocol="@ + protocol + "\nhost="@ + host + "\n"@
        + (match path {
            Some(p) => "path="@ + p + "\n"@,
            None => seq![],
        })
        + "username="@ + username + "\npassword="@
}

/// The credential helper's input before the password; refused when the
/// password is empty or would break the line format.
pub fn git_credential_request(protocol: &str, host: &str, path: Option<&str>, username: &str, payload: &SecretPayload) -> (r: Result<String, ErrorCategory>)
    ensures
        (payload.bytes().len() == 0 || payload.bytes().contains(0x0au8) || payload.bytes().contains(0x0du8) || payload.bytes().contains(0u8))
            ==> r == Err::<String, ErrorCategory>(ErrorCategory::Target),
        !(payload.bytes().len() == 0 || payload.bytes().contains(0x0au8) || payload.bytes().contains(0x0du8) || payload.bytes().contains(0u8))
            ==> (r matches Ok(s) && s@ == credential_request(protocol@, host@, match path {
                Some(p) => Some(p@),
                None => None,
            }, username@)),
{
    let b = payload.as_bytes();
    if b.len() == 0 {
        return Err(ErrorCategory::Target);
    }
    let mut i: usize = 0;
    while i < b.len()
        invariant
            i <= b@.len(),
            b@ == payload.bytes(),
            forall|j: int| 0 <= j < i ==> b@[j] != 0x0a && b@[j] != 0x0d && b@[j] != 0,
        decreases b@.len() - i,
    {
        if b[i] == 0x0a || b[i] == 0x0d || b[i] == 0 {
            assert(payload.bytes().contains(b@[i as int]));
            return Err(ErrorCategory::Target);
        }
        i = i + 1;
    }
    assert(!payload.bytes().contains(0x0au8) && !payload.bytes().contains(0x0du8) && !payload.bytes().contains(0u8)) by {
        if payload.bytes().contains(0x0au8) {
            let j = choose|j: int| 0 <= j < b@.len() && b@[j] == 0x0au8;
            assert(b@[j] != 0x0a);
        }
        if payload.bytes().contains(0x0du8) {
            let j = choose|j: int| 0 <= j < b@.len() && b@[j] == 0x0du8;
            assert(b@[j] != 0x0d);
        }
        if payload.bytes().contains(0u8) {
            let j = choose|j: int| 0 <= j < b@.len() && b@[j] == 0u8;
            assert(b@[j] != 0);
        }
    }
    proof {
        reveal_strlit("protocol=");
        reveal_strlit("\nhost=");
        reveal_strlit("\n");
        reveal_strlit("path=");
        reveal_strlit("username=");
        reveal_strlit("\npassword=");
    }
    let mut s = String::new();
    push_text(&mut s, "protocol=");
    push_text(&mut s, protocol);
    push_text(&mut s, "\nhost=");
    push_text(&mut s, host);
    push_text(&mut s, "\n");
    match path {
        Some(p) => {
            push_text(&mut s, "path=");
            push_text(&mut s, p);
            push_text(&mut s, "\n");
        },
        None => {},
    }
    push_text(&mut s, "username=");
    push_text(&mut s, username);
    push_text(&mut s, "\npassword=");
    Ok(s)
}

/// The bytes a file target is given, from the file's present content
/// (`None` when the file is missing): the payload itself for a whole file,
/// and otherwise the present text with the one field replaced. A missing
/// file is written only under the recreate policy, and then from empty.
pub fn render_target(spec: &TargetSpec, existing: Option<&[u8]>, payload: &SecretPayload, policy: MissingTargetPolicy) -> (r: Result<Vec<u8>, ErrorCategory>)
    ensures
        existing is None && policy != MissingTargetPolicy::Recreate ==> r == Err::<Vec<u8>, ErrorCategory>(ErrorCategory::Target),
        (existing is Some || policy == MissingTargetPolicy::Recreate) ==> {
            let prior = match existing {
                Some(b) => b@,
                None => Seq::<u8>::empty(),
            };
            match *spec {
                TargetSpec::WholeFile { .. } => r matches Ok(o) && o@ == payload.bytes(),
                TargetSpec::StructuredField { key, format, .. } =>
                    renders(r, structured_outcome(prior, key@, format, payload.bytes(), payload.declared_kind())),
                TargetSpec::DockerInput { key, input: crate::domain::DockerInputKind::EnvFile { .. }, .. } =>
                    match crate::keyvalue::rendered_key_value(prior, key@, payload.bytes(), KeyValueStyle::SingleQuoted) {
                        Some(b) => r matches Ok(o) && o@ == b,
                        None => r == Err::<Vec<u8>, ErrorCategory>(ErrorCategory::Target),
                    },
                TargetSpec::DockerInput { key, input: crate::domain::DockerInputKind::ComposeEnvironment, .. } =>
                    renders(r, compose_outcome(prior, key@, payload.bytes())),
                _ => r == Err::<Vec<u8>, ErrorCategory>(ErrorCategory::InvalidConfig),
            }
        },
{
    if existing.is_none() {
        match policy {
            MissingTargetPolicy::Recreate => {},
            _ => return Err(ErrorCategory::Target),
        }
    }
    let empty: [u8; 0] = [];
    let prior: &[u8] = match existing {
        Some(b) => b,
        None => &empty,
    };
    assert(prior@ == match existing {
        Some(b) => b@,
        None => Seq::<u8>::empty(),
    });
    match spec {
        TargetSpec::WholeFile { .. } => Ok(vstd::slice::slice_to_vec(payload.as_bytes())),
        TargetSpec::StructuredField { key, format, .. } => render_structured(prior, key.as_str(), *format, payload),
        TargetSpec::DockerInput { key, input, .. } => match input {
            crate::domain::DockerInputKind::EnvFile { .. } => render_key_value(prior, key.as_str(), payload, KeyValueStyle::SingleQuoted),
            crate::domain::DockerInputKind::ComposeEnvironment => render_compose(prior, key.as_str(), payload),
        },
        _ => Err(ErrorCategory::InvalidConfig),
    }
}

/// What the file system reported of a target path's directory.
pub enum ParentLookup {
    /// The path has no parent directory.
    Missing,
    /// The parent directory could not be resolved.
    Unresolved,
    /// The parent directory, with links and `.`/`..` resolved.
    Resolved(String),
}

/// The file targets of this machine: files under one approved directory.
pub struct ProductionTarget {
    root: String,
}

/// The path a file target writes; none for other targets.
pub open spec fn file_path(spec: TargetSpec) -> Option<Seq<char>> {
    match spec {
        TargetSpec::WholeFile { path } => Some(path@),
        TargetSpec::StructuredField { path, .. } => Some(path@),
        TargetSpec::DockerInput { path, .. } => Some(path@),
        _ => None,
    }
}

/// The path rule of a production target: a Git credential has no path; a
/// fake target is refused; a file must be absolute, its directory must
/// resolve inside the approved root, and the file must not be a symbolic
/// link. A directory that cannot be resolved is a target error.
pub open spec fn path_outcome(root: Seq<char>, spec: TargetSpec, parent: ParentLookup, symlink: bool) -> Result<(), ErrorCategory> {
    match spec {
        TargetSpec::GitCredential { .. } => Ok(()),
        TargetSpec::Fake { .. } => Err(ErrorCategory::InvalidConfig),
        _ => {
            let path = file_path(spec)->0;
            match parent {
                ParentLookup::Missing => Err(ErrorCategory::InvalidConfig),
                ParentLookup::Unresolved => Err(ErrorCategory::Target),
                ParentLookup::Resolved(dir) => if !(path.len() > 0 && path[0] == '/') || !crate::config::is_under(dir@, root) || symlink {
                    Err(ErrorCategory::InvalidConfig)
                } else {
                    Ok(())
                },
            }
        },
    }
}

impl ProductionTarget {
    /// The approved directory, as the file system resolves it.
    pub closed spec fn root_path(&self) -> Seq<char> {
        self.root@
    }

    /// A target rooted at the resolved form of the approved directory; a
    /// directory that could not be resolved is an invalid configuration.
    pub fn new(resolved_root: Option<String>) -> (r: Result<Self, ErrorCategory>)
        ensures
            match resolved_root {
                Some(root) => r matches Ok(t) && t.root_path() == root@,
                None => r matches Err(e) && e == ErrorCategory::InvalidConfig,
            },
    {
        match resolved_root {
            Some(root) => Ok(ProductionTarget { root }),
            None => Err(ErrorCategory::InvalidConfig),
        }
    }

    /// The approved directory.
    pub fn root(&self) -> (r: &str)
        ensures
            r@ == self.root_path(),
    {
        self.root.as_str()
    }

    /// The path check of a target, once the file system has reported its
    /// directory and whether the file is a symbolic link.
    pub fn check_path(&self, spec: &TargetSpec, parent: &ParentLookup, symlink: bool) -> (r: Result<(), ErrorCategory>)
        ensures
            r == path_outcome(self.root_path(), *spec, *parent, symlink),
    {
        let path = match spec {
            TargetSpec::GitCredential { .. } => return Ok(()),
            TargetSpec::Fake { .. } => return Err(ErrorCategory::InvalidConfig),
            TargetSpec::WholeFile { path } => path,
            TargetSpec::StructuredField { path, .. } => path,
            TargetSpec::DockerInput { path, .. } => path,
        };
        match parent {
            ParentLookup::Missing => Err(ErrorCategory::InvalidConfig),
            ParentLookup::Unresolved => Err(ErrorCategory::Target),
            ParentLookup::Resolved(dir) => {
                let chars = chars_of(path.as_str());
                let absolute = chars.len() > 0 && chars[0] == '/';
                if !absolute || !crate::config::under_root(dir.as_str(), self.root.as_str()) || symlink {
                    Err(ErrorCategory::InvalidConfig)
                } else {
                    Ok(())
                }
            },
        }
    }

    /// The whole check of a production target: its path, then the types it
    /// accepts. `path_scoped` tells whether Git scopes credentials by
    /// repository path for the target's host.
    pub fn validate(&self, spec: &TargetSpec, kind: SecretType, parent: &ParentLookup, symlink: bool, path_scoped: bool) -> (r: Result<(), ErrorCategory>)
        ensures
            path_outcome(self.root_path(), *spec, *parent, symlink) matches Err(e) ==> r == Err::<(), ErrorCategory>(e),
            path_outcome(self.root_path(), *spec, *parent, symlink) is Ok ==> (r is Ok <==> accepts(*spec, kind, path_scoped)),
            r is Err ==> (r == path_outcome(self.root_path(), *spec, *parent, symlink) || r == Err::<(), ErrorCategory>(ErrorCategory::InvalidConfig)),
    {
        self.check_path(spec, parent, symlink)?;
        check_target_type(spec, kind, path_scoped)
    }
}

/// A JSON secret is written as the JSON value it holds: the value placed at
/// the pointer is what the payload's own text reads as, so the file is
/// what `serde_json` writes after putting the payload's bytes, parsed, in
/// place; and a text secret is never handed over as its raw text but as a
/// JSON string, which begins and ends with a double quote.
pub proof fn law_json_secret_is_written_as_its_value(prior: Seq<u8>, pointer: Seq<char>, payload: Seq<u8>, kind: SecretType)
    requires
        valid_utf8(payload),
    ensures
        kind == SecretType::Json ==> json_outcome(prior, pointer, payload, kind) == match json_replaced(json_document(prior), pointer, payload) {
            Some(b) => Ok::<Seq<u8>, ErrorCategory>(b),
            None => Err::<Seq<u8>, ErrorCategory>(ErrorCategory::Target),
        },
        kind != SecretType::Json ==> {
            let rep = json_replacement(payload, kind);
            &&& rep.len() >= 2
            &&& rep[0] == 0x22u8
            &&& rep.last() == 0x22u8
        },
{
}

} // verus!
