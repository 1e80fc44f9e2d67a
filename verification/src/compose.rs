//! The env-file relation of a Docker target: the files that a Compose
//! service lists under `env_file`, where they lie, and whether the target is
//! exactly one of them. Reading the Compose file and resolving paths on disk
//! belong to the caller.
use crate::config::{components_of, has_parent_component, has_parent_step, path_parts, views};
use crate::domain::ErrorCategory;
use crate::targets::{string_views, yaml_document_total, yaml_documents};
use crate::text::{chars_of, find_char, push_char, push_text, same_text, string_of};
use std::str::FromStr;
use vstd::prelude::*;

verus! {

/// One item of a service's `env_file` list: a path, or a mapping with an
/// optional textual `path` and maybe a `format`.
pub enum EnvFileItem {
    Text(String),
    Entry { path: Option<String>, has_format: bool },
}

/// A service's `env_file` setting: one path, a list, or anything else.
pub enum EnvFileSetting {
    Text(String),
    List(Vec<EnvFileItem>),
    Other,
}

/// The path an item names, if it is a form the relation accepts.
pub open spec fn item_candidate(item: EnvFileItem) -> Option<Seq<char>> {
    match item {
        EnvFileItem::Text(s) => Some(s@),
        EnvFileItem::Entry { path: Some(p), has_format: false } => Some(p@),
        _ => None,
    }
}

/// The listed paths of a setting; none when it has a form the relation
/// refuses (a mapping item without a textual path or with a format, or a
/// setting that is neither text nor a list).
pub open spec fn candidates_of(setting: EnvFileSetting) -> Option<Seq<Seq<char>>> {
    match setting {
        EnvFileSetting::Text(s) => Some(seq![s@]),
        EnvFileSetting::List(items) => if forall|i: int| 0 <= i < items@.len() ==> (#[trigger] item_candidate(items@[i])) is Some {
            Some(items@.map_values(|it: EnvFileItem| item_candidate(it)->0))
        } else {
            None
        },
        EnvFileSetting::Other => None,
    }
}

/// The paths a setting lists, in order.
pub fn env_file_candidates(setting: &EnvFileSetting) -> (r: Result<Vec<String>, ErrorCategory>)
    ensures
        match candidates_of(*setting) {
            Some(c) => r matches Ok(v) && string_views(v@) == c,
            None => r == Err::<Vec<String>, ErrorCategory>(ErrorCategory::InvalidConfig),
        },
{
    match setting {
        EnvFileSetting::Text(s) => {
            let mut v: Vec<String> = Vec::new();
            v.push(s.clone());
            assert(string_views(v@) =~= seq![s@]);
            Ok(v)
        },
        EnvFileSetting::List(items) => {
            let mut v: Vec<String> = Vec::new();
            let mut i: usize = 0;
            while i < items.len()
                invariant
                    *setting == EnvFileSetting::List(*items),
                    i <= items@.len(),
                    v@.len() == i,
                    forall|j: int| 0 <= j < i ==> (#[trigger] item_candidate(items@[j])) == Some(v@[j]@),
                decreases items@.len() - i,
            {
                let next = match &items[i] {
                    EnvFileItem::Text(s) => s.clone(),
                    EnvFileItem::Entry { path: Some(p), has_format: false } => p.clone(),
                    _ => {
                        assert(item_candidate(items@[i as int]) is None);
                        assert(!(forall|j: int| 0 <= j < items@.len() ==> (#[trigger] item_candidate(items@[j])) is Some));
                        assert(candidates_of(*setting) is None);
                        return Err(ErrorCategory::InvalidConfig);
                    },
                };
                v.push(next);
                i = i + 1;
            }
            assert(string_views(v@) =~= items@.map_values(|it: EnvFileItem| item_candidate(it)->0));
            Ok(v)
        },
        EnvFileSetting::Other => Err(ErrorCategory::InvalidConfig),
    }
}

/// What `yaml_edit` finds under `services.<service>.env_file` in the first
/// document of a Compose text: a scalar's text, a sequence's items (each a
/// scalar's text, or a mapping's `path` scalar and whether it has a
/// `format`), or anything else; `None` when the text does not parse or the
/// setting is absent.
pub uninterp spec fn compose_env_file(source: Seq<char>, service: Seq<char>) -> Option<EnvFileSetting>;

/// `YamlFile::from_str`, `YamlFile::document`, `Document::get` and
/// `YamlNode::get` down `services`, the service and `env_file`, then
/// `YamlNode::as_scalar` (`Scalar::as_string`) or `YamlNode::as_sequence`
/// and its items read the same way, converted one for one.
#[verifier::external_body]
fn compose_env_file_setting(source: &str, service: &str) -> (r: Option<EnvFileSetting>)
    ensures
        r == compose_env_file(source@, service@),
{
    let file = yaml_edit::YamlFile::from_str(source).ok()?;
    let entry = file.document()?.get("services")?.get(service)?.get("env_file")?;
    if let Some(text) = entry.as_scalar() {
        return Some(EnvFileSetting::Text(text.as_string()));
    }
    Some(match entry.as_sequence() {
        None => EnvFileSetting::Other,
        Some(items) => EnvFileSetting::List(items.into_iter().map(|n| match n.as_scalar() {
            Some(t) => EnvFileItem::Text(t.as_string()),
            None => EnvFileItem::Entry {
                path: n.get("path").and_then(|p| p.as_scalar().map(|t| t.as_string())),
                has_format: n.get("format").is_some(),
            },
        }).collect()),
    })
}

/// Reads `services.<service>.env_file` of a single-document Compose file.
/// A text that does not parse, holds other than one document, or lacks the
/// setting is a target error.
pub fn env_file_setting(source: &str, service: &str) -> (r: Result<EnvFileSetting, ErrorCategory>)
    ensures
        yaml_documents(source@) != Some(1nat) ==> r == Err::<EnvFileSetting, ErrorCategory>(ErrorCategory::Target),
        yaml_documents(source@) == Some(1nat) ==> match compose_env_file(source@, service@) {
            Some(setting) => r == Ok::<EnvFileSetting, ErrorCategory>(setting),
            None => r == Err::<EnvFileSetting, ErrorCategory>(ErrorCategory::Target),
        },
{
    match yaml_document_total(source) {
        Some(n) => if n != 1 {
            return Err(ErrorCategory::Target);
        },
        None => return Err(ErrorCategory::Target),
    }
    match compose_env_file_setting(source, service) {
        Some(setting) => Ok(setting),
        None => Err(ErrorCategory::Target),
    }
}

/// Components joined by `/`.
pub open spec fn joined(parts: Seq<Seq<char>>) -> Seq<char>
    decreases parts.len(),
{
    if parts.len() == 0 {
        seq![]
    } else if parts.len() == 1 {
        parts[0]
    } else {
        joined(parts.drop_last()) + seq!['/'] + parts.last()
    }
}

/// The directory a path lies in, as `Path::parent` names it, written
/// without redundant separators or `.` components; none for a path without
/// a named component.
pub open spec fn parent_dir(p: Seq<char>) -> Option<Seq<char>> {
    if path_parts(p).len() == 0 {
        None
    } else {
        Some((if p.len() > 0 && p[0] == '/' { seq!['/'] } else { seq![] }) + joined(path_parts(p).drop_last()))
    }
}

/// `Path::join` of a relative path onto a directory.
pub open spec fn join_onto(dir: Seq<char>, rel: Seq<char>) -> Seq<char> {
    if dir.len() == 0 {
        rel
    } else if dir.last() == '/' {
        dir + rel
    } else {
        dir + seq!['/'] + rel
    }
}

/// Where a listed env file lies: an absolute path as written, a relative
/// one under the Compose file's directory. An empty path, one with `$`
/// (interpolation) and one with a `..` component are refused.
pub open spec fn listed_path(compose: Seq<char>, candidate: Seq<char>) -> Option<Seq<char>> {
    if candidate.len() == 0 || candidate.contains('$') || has_parent_step(candidate) {
        None
    } else if candidate[0] == '/' {
        Some(candidate)
    } else {
        match parent_dir(compose) {
            Some(d) => Some(join_onto(d, candidate)),
            None => None,
        }
    }
}

fn parent_text(p: &str) -> (r: Option<String>)
    ensures
        match (r, parent_dir(p@)) {
            (Some(s), Some(d)) => s@ == d,
            (None, None) => true,
            _ => false,
        },
{
    let parts = components_of(p);
    if parts.len() == 0 {
        return None;
    }
    let chars = chars_of(p);
    let mut out = String::new();
    if chars.len() > 0 && chars[0] == '/' {
        push_char(&mut out, '/');
    }
    let ghost lead = out@;
    let ghost ps = views(parts@);
    let n = parts.len() - 1;
    let mut i: usize = 0;
    while i < n
        invariant
            n + 1 == parts@.len(),
            ps == views(parts@),
            i <= n,
            out@ == lead + joined(ps.take(i as int)),
        decreases n - i,
    {
        let ghost before = out@;
        if i > 0 {
            push_char(&mut out, '/');
        }
        let part = string_of(&parts[i]);
        push_text(&mut out, part.as_str());
        proof {
            assert(ps[i as int] == parts@[i as int]@);
            let t = ps.take(i as int + 1);
            assert(t.drop_last() =~= ps.take(i as int));
            if i == 0 {
                assert(joined(ps.take(0)) =~= seq![]);
                assert(out@ =~= lead + joined(t));
            } else {
                assert(out@ =~= lead + joined(t));
            }
        }
        i = i + 1;
    }
    assert(ps.take(n as int) =~= path_parts(p@).drop_last());
    Some(out)
}

/// Where each listed env file lies, in order; an invalid configuration if
/// any of them is refused.
pub fn env_file_paths(compose: &str, candidates: &Vec<String>) -> (r: Result<Vec<String>, ErrorCategory>)
    ensures
        match r {
            Ok(v) => v@.len() == candidates@.len() && forall|i: int| 0 <= i < candidates@.len()
                ==> listed_path(compose@, #[trigger] candidates@[i]@) == Some(v@[i]@),
            Err(e) => e == ErrorCategory::InvalidConfig && exists|i: int| 0 <= i < candidates@.len()
                && (#[trigger] listed_path(compose@, candidates@[i]@)) is None,
        },
{
    let dir = parent_text(compose);
    let mut out: Vec<String> = Vec::new();
    let mut i: usize = 0;
    while i < candidates.len()
        invariant
            i <= candidates@.len(),
            out@.len() == i,
            match (dir, parent_dir(compose@)) {
                (Some(s), Some(d)) => s@ == d,
                (None, None) => true,
                _ => false,
            },
            forall|j: int| 0 <= j < i ==> listed_path(compose@, #[trigger] candidates@[j]@) == Some(out@[j]@),
        decreases candidates@.len() - i,
    {
        let cand = candidates[i].as_str();
        let chars = chars_of(cand);
        let dollar = find_char(&chars, '$');
        if chars.len() == 0 || dollar.is_some() || has_parent_component(cand) {
            proof {
                if let Some(k) = dollar {
                    assert(chars@[k as int] == '$');
                    assert(cand@.contains('$'));
                }
            }
            assert(listed_path(compose@, candidates@[i as int]@) is None);
            return Err(ErrorCategory::InvalidConfig);
        }
        let listed = if chars[0] == '/' {
            candidates[i].clone()
        } else {
            match &dir {
                Some(d) => {
                    let mut s = d.clone();
                    let dc = chars_of(d.as_str());
                    if dc.len() > 0 && dc[dc.len() - 1] != '/' {
                        push_char(&mut s, '/');
                    }
                    push_text(&mut s, cand);
                    s
                },
                None => {
                    assert(listed_path(compose@, candidates@[i as int]@) is None);
                    return Err(ErrorCategory::InvalidConfig);
                },
            }
        };
        out.push(listed);
        i = i + 1;
    }
    Ok(out)
}

/// How many of `listed` are `target`.
pub open spec fn count_of(listed: Seq<Seq<char>>, target: Seq<char>) -> nat
    decreases listed.len(),
{
    if listed.len() == 0 {
        0
    } else {
        count_of(listed.drop_last(), target) + (if listed.last() == target { 1nat } else { 0nat })
    }
}

/// The resolved target is listed exactly once among the resolved env files.
pub fn single_listing(listed: &Vec<String>, target: &str) -> (r: Result<(), ErrorCategory>)
    ensures
        r is Ok <==> count_of(string_views(listed@), target@) == 1,
        r matches Err(e) ==> e == ErrorCategory::InvalidConfig,
{
    let mut matches: usize = 0;
    let mut i: usize = 0;
    while i < listed.len()
        invariant
            i <= listed@.len(),
            matches == count_of(string_views(listed@).take(i as int), target@),
            matches <= i,
        decreases listed@.len() - i,
    {
        assert(string_views(listed@).take(i as int + 1).drop_last() =~= string_views(listed@).take(i as int));
        if same_text(listed[i].as_str(), target) {
            matches = matches + 1;
        }
        i = i + 1;
    }
    assert(string_views(listed@).take(listed@.len() as int) =~= string_views(listed@));
    if matches == 1 {
        Ok(())
    } else {
        Err(ErrorCategory::InvalidConfig)
    }
}

} // verus!
