//! Rewriting one key of a dotenv or properties file: the line that assigns
//! the key is replaced, every other line is kept byte for byte, and a missing
//! key is appended.
use crate::domain::{ErrorCategory, SecretPayload};
use crate::text::{chars_of, utf8_text};
use vstd::prelude::*;
use vstd::utf8::{decode_utf8, encode_utf8, valid_utf8};

verus! {

/// How a value is written after `KEY=`.
#[derive(Clone, Copy, Debug, PartialEq, Eq, Structural)]
pub enum KeyValueStyle {
    /// dotenv: the value in single quotes, with `\` and `'` escaped.
    SingleQuoted,
    /// Java properties: `\`, `=` and `:` escaped.
    Properties,
}

/// Unicode white space, as `char::is_whitespace` decides it.
pub open spec fn is_ws(c: char) -> bool {
    ||| ('\u{9}' <= c <= '\u{d}')
    ||| c == ' '
    ||| c == '\u{85}'
    ||| c == '\u{a0}'
    ||| c == '\u{1680}'
    ||| ('\u{2000}' <= c <= '\u{200a}')
    ||| c == '\u{2028}'
    ||| c == '\u{2029}'
    ||| c == '\u{202f}'
    ||| c == '\u{205f}'
    ||| c == '\u{3000}'
}

/// ASCII white space, as `char::is_ascii_whitespace` decides it.
pub open spec fn is_ascii_ws(c: char) -> bool {
    c == ' ' || c == '\t' || c == '\n' || c == '\u{c}' || c == '\r'
}

fn ws(c: char) -> (r: bool)
    ensures
        r == is_ws(c),
{
    ('\u{9}' <= c && c <= '\u{d}') || c == ' ' || c == '\u{85}' || c == '\u{a0}' || c == '\u{1680}'
        || ('\u{2000}' <= c && c <= '\u{200a}') || c == '\u{2028}' || c == '\u{2029}' || c == '\u{202f}'
        || c == '\u{205f}' || c == '\u{3000}'
}

/// `str::trim_start`.
pub open spec fn trim_start(s: Seq<char>) -> Seq<char>
    decreases s.len(),
{
    if s.len() > 0 && is_ws(s[0]) {
        trim_start(s.skip(1))
    } else {
        s
    }
}

/// `str::trim_end`.
pub open spec fn trim_end(s: Seq<char>) -> Seq<char>
    decreases s.len(),
{
    if s.len() > 0 && is_ws(s.last()) {
        trim_end(s.drop_last())
    } else {
        s
    }
}

/// `str::trim_end_matches(['\r', '\n'])`.
pub open spec fn trim_newlines(s: Seq<char>) -> Seq<char>
    decreases s.len(),
{
    if s.len() > 0 && (s.last() == '\r' || s.last() == '\n') {
        trim_newlines(s.drop_last())
    } else {
        s
    }
}

pub open spec fn starts_with(s: Seq<char>, p: Seq<char>) -> bool {
    s.len() >= p.len() && s.take(p.len() as int) == p
}

/// Reading text left to right: the lines finished by a `\n` so far and the
/// line being read.
pub open spec fn scan_lines(s: Seq<char>) -> (Seq<Seq<char>>, Seq<char>)
    decreases s.len(),
{
    if s.len() == 0 {
        (seq![], seq![])
    } else {
        let prev = scan_lines(s.drop_last());
        let cur = prev.1.push(s.last());
        if s.last() == '\n' {
            (prev.0.push(cur), seq![])
        } else {
            (prev.0, cur)
        }
    }
}

/// `str::split_inclusive('\n')`: the lines, each with its `\n` if it has one.
pub open spec fn lines(s: Seq<char>) -> Seq<Seq<char>> {
    let st = scan_lines(s);
    if st.1.len() == 0 {
        st.0
    } else {
        st.0.push(st.1)
    }
}

/// The first position in `t` of `=`, `:` or ASCII white space.
pub open spec fn property_key_end(t: Seq<char>) -> Option<int> {
    if exists|i: int| 0 <= i < t.len() && (t[i] == '=' || t[i] == ':' || is_ascii_ws(t[i])) {
        Some(choose|i: int| 0 <= i < t.len() && (t[i] == '=' || t[i] == ':' || is_ascii_ws(t[i]))
            && forall|j: int| 0 <= j < i ==> !(t[j] == '=' || t[j] == ':' || is_ascii_ws(t[j])))
    } else {
        None
    }
}

/// The first position of `=` in `t`.
pub open spec fn eq_index(t: Seq<char>) -> Option<int> {
    if exists|i: int| 0 <= i < t.len() && t[i] == '=' {
        Some(choose|i: int| 0 <= i < t.len() && t[i] == '=' && forall|j: int| 0 <= j < i ==> t[j] != '=')
    } else {
        None
    }
}

/// The key a line assigns: for properties, the text before the first `=`,
/// `:` or space of a line that is no `#` or `!` comment; for dotenv, the
/// trimmed text before the first `=`, after an optional `export `.
pub open spec fn line_key(line: Seq<char>, style: KeyValueStyle) -> Option<Seq<char>> {
    let t = trim_start(trim_newlines(line));
    match style {
        KeyValueStyle::Properties => if t.len() > 0 && (t[0] == '#' || t[0] == '!') {
            None
        } else {
            match property_key_end(t) {
                Some(i) => Some(t.take(i)),
                None => None,
            }
        },
        KeyValueStyle::SingleQuoted => {
            let u = if starts_with(t, "export "@) { t.skip(7) } else { t };
            match eq_index(u) {
                Some(i) => Some(trim_end(trim_start(u.take(i)))),
                None => None,
            }
        },
    }
}

/// The escaped form of one character of a value.
pub open spec fn escape_char(c: char, style: KeyValueStyle) -> Seq<char> {
    match style {
        KeyValueStyle::SingleQuoted => if c == '\\' {
            seq!['\\', '\\']
        } else if c == '\'' {
            seq!['\\', '\'']
        } else {
            seq![c]
        },
        KeyValueStyle::Properties => if c == '\\' {
            seq!['\\', '\\']
        } else if c == '=' {
            seq!['\\', '=']
        } else if c == ':' {
            seq!['\\', ':']
        } else {
            seq![c]
        },
    }
}

pub open spec fn escape_all(v: Seq<char>, style: KeyValueStyle) -> Seq<char>
    decreases v.len(),
{
    if v.len() == 0 {
        seq![]
    } else {
        escape_all(v.drop_last(), style) + escape_char(v.last(), style)
    }
}

/// The value as written after `KEY=`.
pub open spec fn encoded_value(v: Seq<char>, style: KeyValueStyle) -> Seq<char> {
    match style {
        KeyValueStyle::SingleQuoted => seq!['\''] + escape_all(v, style) + seq!['\''],
        KeyValueStyle::Properties => escape_all(v, style),
    }
}

/// The file's line ending: `\r\n` when the file has one anywhere, else `\n`.
pub open spec fn newline_of(s: Seq<char>) -> Seq<char> {
    if exists|i: int| 0 <= i < s.len() - 1 && #[trigger] s[i] == '\r' && s[i + 1] == '\n' {
        seq!['\r', '\n']
    } else {
        seq!['\n']
    }
}

/// The line that replaces a line assigning the key; it keeps an `export `
/// prefix and ends the way the old line ended.
pub open spec fn replaced_line(line: Seq<char>, key: Seq<char>, enc: Seq<char>, nl: Seq<char>) -> Seq<char> {
    let prefix = if starts_with(trim_start(trim_newlines(line)), "export "@) { "export "@ } else { seq![] };
    let end = if line.len() > 0 && line.last() == '\n' { nl } else { seq![] };
    prefix + key + seq!['='] + enc + end
}

/// The lines rewritten in order.
pub open spec fn rewrite(ls: Seq<Seq<char>>, key: Seq<char>, enc: Seq<char>, nl: Seq<char>, style: KeyValueStyle) -> Seq<char>
    decreases ls.len(),
{
    if ls.len() == 0 {
        seq![]
    } else {
        let l = ls.last();
        rewrite(ls.drop_last(), key, enc, nl, style) + (if line_key(l, style) == Some(key) { replaced_line(l, key, enc, nl) } else { l })
    }
}

/// How many lines assign the key.
pub open spec fn assignments(ls: Seq<Seq<char>>, key: Seq<char>, style: KeyValueStyle) -> nat
    decreases ls.len(),
{
    if ls.len() == 0 {
        0
    } else {
        assignments(ls.drop_last(), key, style) + (if line_key(ls.last(), style) == Some(key) { 1nat } else { 0nat })
    }
}

/// The rewritten text: `None` when the value holds a line break or NUL, or
/// when more than one line assigns the key.
pub open spec fn rendered_text(source: Seq<char>, key: Seq<char>, value: Seq<char>, style: KeyValueStyle) -> Option<Seq<char>> {
    if value.contains('\r') || value.contains('\n') || value.contains('\0') {
        None
    } else {
        let ls = lines(source);
        let enc = encoded_value(value, style);
        let nl = newline_of(source);
        let n = assignments(ls, key, style);
        let out = rewrite(ls, key, enc, nl, style);
        if n > 1 {
            None
        } else if n == 1 {
            Some(out)
        } else {
            let sep = if out.len() > 0 && out.last() != '\n' { nl } else { seq![] };
            Some(out + sep + key + seq!['='] + enc + nl)
        }
    }
}

/// What rendering gives for the prior file bytes and the payload bytes.
pub open spec fn rendered_key_value(prior: Seq<u8>, key: Seq<char>, payload: Seq<u8>, style: KeyValueStyle) -> Option<Seq<u8>> {
    if !valid_utf8(prior) || !valid_utf8(payload) {
        None
    } else {
        match rendered_text(decode_utf8(prior), key, decode_utf8(payload), style) {
            Some(t) => Some(encode_utf8(t)),
            None => None,
        }
    }
}

fn append(out: &mut Vec<char>, s: &Vec<char>)
    ensures
        final(out)@ == old(out)@ + s@,
{
    let ghost start = out@;
    let mut i: usize = 0;
    while i < s.len()
        invariant
            i <= s@.len(),
            out@ == start + s@.take(i as int),
        decreases s@.len() - i,
    {
        out.push(s[i]);
        assert(out@ =~= start + s@.take(i as int + 1));
        i = i + 1;
    }
    assert(s@.take(s@.len() as int) =~= s@);
}

fn slice_of(v: &Vec<char>, from: usize, to: usize) -> (r: Vec<char>)
    requires
        from <= to <= v@.len(),
    ensures
        r@ == v@.subrange(from as int, to as int),
{
    let mut r: Vec<char> = Vec::new();
    let mut i: usize = from;
    while i < to
        invariant
            from <= i <= to <= v@.len(),
            r@ == v@.subrange(from as int, i as int),
        decreases to - i,
    {
        r.push(v[i]);
        assert(r@ =~= v@.subrange(from as int, i as int + 1));
        i = i + 1;
    }
    r
}

fn trim_start_of(v: &Vec<char>) -> (r: Vec<char>)
    ensures
        r@ == trim_start(v@),
{
    let mut i: usize = 0;
    assert(v@.skip(0) =~= v@);
    while i < v.len() && ws(v[i])
        invariant
            i <= v@.len(),
            trim_start(v@.skip(i as int)) == trim_start(v@),
        decreases v@.len() - i,
    {
        assert(v@.skip(i as int).skip(1) =~= v@.skip(i as int + 1));
        i = i + 1;
    }
    slice_of(v, i, v.len())
}

fn trim_end_of(v: &Vec<char>) -> (r: Vec<char>)
    ensures
        r@ == trim_end(v@),
{
    let mut j: usize = v.len();
    assert(v@.take(v@.len() as int) =~= v@);
    while j > 0 && ws(v[j - 1])
        invariant
            j <= v@.len(),
            trim_end(v@.take(j as int)) == trim_end(v@),
        decreases j,
    {
        assert(v@.take(j as int).drop_last() =~= v@.take(j as int - 1));
        j = j - 1;
    }
    assert(v@.take(v@.len() as int) =~= v@);
    slice_of(v, 0, j)
}

fn trim_newlines_of(v: &Vec<char>) -> (r: Vec<char>)
    ensures
        r@ == trim_newlines(v@),
{
    let mut j: usize = v.len();
    assert(v@.take(v@.len() as int) =~= v@);
    while j > 0 && (v[j - 1] == '\r' || v[j - 1] == '\n')
        invariant
            j <= v@.len(),
            trim_newlines(v@.take(j as int)) == trim_newlines(v@),
        decreases j,
    {
        assert(v@.take(j as int).drop_last() =~= v@.take(j as int - 1));
        j = j - 1;
    }
    assert(v@.take(v@.len() as int) =~= v@);
    slice_of(v, 0, j)
}

fn export_prefixed(t: &Vec<char>) -> (r: bool)
    ensures
        r == starts_with(t@, "export "@),
{
    proof {
        reveal_strlit("export ");
    }
    let r = t.len() >= 7 && t[0] == 'e' && t[1] == 'x' && t[2] == 'p' && t[3] == 'o' && t[4] == 'r' && t[5] == 't' && t[6] == ' ';
    proof {
        if t@.len() >= 7 {
            if r {
                assert(t@.take(7) =~= "export "@);
            } else {
                if t@.take(7) == "export "@ {
                    assert(t@.take(7)[0] == t@[0]);
                    assert(t@.take(7)[1] == t@[1]);
                    assert(t@.take(7)[2] == t@[2]);
                    assert(t@.take(7)[3] == t@[3]);
                    assert(t@.take(7)[4] == t@[4]);
                    assert(t@.take(7)[5] == t@[5]);
                    assert(t@.take(7)[6] == t@[6]);
                }
            }
        }
    }
    r
}

fn find_property_end(t: &Vec<char>) -> (r: Option<usize>)
    ensures
        match (r, property_key_end(t@)) {
            (Some(a), Some(b)) => a == b && a <= t@.len(),
            (None, None) => true,
            _ => false,
        },
{
    let mut i: usize = 0;
    while i < t.len()
        invariant
            i <= t@.len(),
            forall|j: int| 0 <= j < i ==> !(t@[j] == '=' || t@[j] == ':' || is_ascii_ws(t@[j])),
        decreases t@.len() - i,
    {
        let c = t[i];
        if c == '=' || c == ':' || c == ' ' || c == '\t' || c == '\n' || c == '\u{c}' || c == '\r' {
            proof {
                let k = choose|k: int| 0 <= k < t@.len() && (t@[k] == '=' || t@[k] == ':' || is_ascii_ws(t@[k]))
                    && forall|j: int| 0 <= j < k ==> !(t@[j] == '=' || t@[j] == ':' || is_ascii_ws(t@[j]));
                if k < i {
                } else if k > i {
                    assert(!(t@[i as int] == '=' || t@[i as int] == ':' || is_ascii_ws(t@[i as int])));
                }
            }
            return Some(i);
        }
        i = i + 1;
    }
    None
}

fn find_eq(u: &Vec<char>) -> (r: Option<usize>)
    ensures
        match (r, eq_index(u@)) {
            (Some(a), Some(b)) => a == b && a <= u@.len(),
            (None, None) => true,
            _ => false,
        },
{
    let mut i: usize = 0;
    while i < u.len()
        invariant
            i <= u@.len(),
            forall|j: int| 0 <= j < i ==> u@[j] != '=',
        decreases u@.len() - i,
    {
        if u[i] == '=' {
            proof {
                let k = choose|k: int| 0 <= k < u@.len() && u@[k] == '=' && forall|j: int| 0 <= j < k ==> u@[j] != '=';
                if k < i {
                } else if k > i {
                    assert(u@[i as int] != '=');
                }
            }
            return Some(i);
        }
        i = i + 1;
    }
    None
}

fn key_of_line(line: &Vec<char>, style: KeyValueStyle) -> (r: Option<Vec<char>>)
    ensures
        match (r, line_key(line@, style)) {
            (Some(a), Some(b)) => a@ == b,
            (None, None) => true,
            _ => false,
        },
{
    proof {
        reveal_strlit("export ");
    }
    let body = trim_newlines_of(line);
    let t = trim_start_of(&body);
    match style {
        KeyValueStyle::Properties => {
            if t.len() > 0 && (t[0] == '#' || t[0] == '!') {
                return None;
            }
            match find_property_end(&t) {
                Some(i) => Some(slice_of(&t, 0, i)),
                None => None,
            }
        },
        KeyValueStyle::SingleQuoted => {
            let u = if export_prefixed(&t) { slice_of(&t, 7, t.len()) } else { slice_of(&t, 0, t.len()) };
            assert(u@ == (if starts_with(t@, "export "@) { t@.skip(7) } else { t@ }));
            match find_eq(&u) {
                Some(i) => {
                    let k = slice_of(&u, 0, i);
                    let k2 = trim_start_of(&k);
                    Some(trim_end_of(&k2))
                },
                None => None,
            }
        },
    }
}

fn same_chars(a: &Vec<char>, b: &Vec<char>) -> (r: bool)
    ensures
        r == (a@ == b@),
{
    if a.len() != b.len() {
        return false;
    }
    let mut i: usize = 0;
    while i < a.len()
        invariant
            a@.len() == b@.len(),
            i <= a@.len(),
            forall|j: int| 0 <= j < i ==> a@[j] == b@[j],
        decreases a@.len() - i,
    {
        if a[i] != b[i] {
            return false;
        }
        i = i + 1;
    }
    assert(a@ =~= b@);
    true
}

fn encode_value(v: &Vec<char>, style: KeyValueStyle) -> (r: Vec<char>)
    ensures
        r@ == encoded_value(v@, style),
{
    let mut out: Vec<char> = Vec::new();
    match style {
        KeyValueStyle::SingleQuoted => out.push('\''),
        KeyValueStyle::Properties => {},
    }
    let ghost start = out@;
    let mut i: usize = 0;
    while i < v.len()
        invariant
            i <= v@.len(),
            out@ == start + escape_all(v@.take(i as int), style),
        decreases v@.len() - i,
    {
        let c = v[i];
        let special = match style {
            KeyValueStyle::SingleQuoted => c == '\\' || c == '\'',
            KeyValueStyle::Properties => c == '\\' || c == '=' || c == ':',
        };
        if special {
            out.push('\\');
        }
        out.push(c);
        assert(v@.take(i as int + 1).drop_last() =~= v@.take(i as int));
        assert(out@ =~= start + escape_all(v@.take(i as int + 1), style));
        i = i + 1;
    }
    assert(v@.take(v@.len() as int) =~= v@);
    match style {
        KeyValueStyle::SingleQuoted => out.push('\''),
        KeyValueStyle::Properties => {},
    }
    assert(out@ =~= encoded_value(v@, style));
    out
}

fn text_bytes(t: &Vec<char>) -> (r: Vec<u8>)
    ensures
        r@ == encode_utf8(t@),
{
    broadcast use vstd::utf8::group_utf8_lib;

    let s = crate::text::string_of(t);
    let b = crate::text::bytes_of(s.as_str());
    let mut out: Vec<u8> = Vec::new();
    let mut i: usize = 0;
    while i < b.len()
        invariant
            i <= b@.len(),
            out@ == b@.take(i as int),
        decreases b@.len() - i,
    {
        out.push(b[i]);
        assert(out@ =~= b@.take(i as int + 1));
        i = i + 1;
    }
    assert(b@.take(b@.len() as int) =~= b@);
    out
}

fn newline_for(src: &Vec<char>) -> (r: Vec<char>)
    ensures
        r@ == newline_of(src@),
{
    let mut i: usize = 0;
    while i < src.len() && i + 1 < src.len()
        invariant
            i <= src@.len(),
            forall|j: int| 0 <= j < i && j < src@.len() - 1 ==> !(#[trigger] src@[j] == '\r' && src@[j + 1] == '\n'),
        decreases src@.len() - i,
    {
        if src[i] == '\r' && src[i + 1] == '\n' {
            let mut r: Vec<char> = Vec::new();
            r.push('\r');
            r.push('\n');
            assert(r@ =~= seq!['\r', '\n']);
            return r;
        }
        i = i + 1;
    }
    let mut r: Vec<char> = Vec::new();
    r.push('\n');
    assert(r@ =~= seq!['\n']);
    r
}

fn has_break(v: &Vec<char>) -> (r: bool)
    ensures
        r == (v@.contains('\r') || v@.contains('\n') || v@.contains('\0')),
{
    let mut i: usize = 0;
    while i < v.len()
        invariant
            i <= v@.len(),
            forall|j: int| 0 <= j < i ==> v@[j] != '\r' && v@[j] != '\n' && v@[j] != '\0',
        decreases v@.len() - i,
    {
        if v[i] == '\r' || v[i] == '\n' || v[i] == '\0' {
            return true;
        }
        i = i + 1;
    }
    false
}

fn replacement(line: &Vec<char>, key: &Vec<char>, enc: &Vec<char>, nl: &Vec<char>) -> (r: Vec<char>)
    ensures
        r@ == replaced_line(line@, key@, enc@, nl@),
{
    proof {
        reveal_strlit("export ");
    }
    let body = trim_newlines_of(line);
    let t = trim_start_of(&body);
    let mut out: Vec<char> = Vec::new();
    if export_prefixed(&t) {
        out.push('e');
        out.push('x');
        out.push('p');
        out.push('o');
        out.push('r');
        out.push('t');
        out.push(' ');
        assert(out@ =~= "export "@);
    }
    let ghost prefix = out@;
    append(&mut out, key);
    out.push('=');
    append(&mut out, enc);
    let ghost mid = out@;
    if line.len() > 0 && line[line.len() - 1] == '\n' {
        append(&mut out, nl);
    }
    assert(out@ =~= replaced_line(line@, key@, enc@, nl@));
    out
}

/// Rewrites the assignment of `key` in a dotenv or properties file, or
/// appends it; refuses non-UTF-8 input, a value with a line break or NUL,
/// and a file that assigns the key twice.
#[verifier::spinoff_prover]
#[verifier::rlimit(40)]
pub fn render_key_value(prior: &[u8], key: &str, payload: &SecretPayload, style: KeyValueStyle) -> (r: Result<Vec<u8>, ErrorCategory>)
    ensures
        match rendered_key_value(prior@, key@, payload.bytes(), style) {
            Some(b) => r matches Ok(o) && o@ == b,
            None => r == Err::<Vec<u8>, ErrorCategory>(ErrorCategory::Target),
        },
{
    let source = match utf8_text(prior) {
        Some(s) => s,
        None => return Err(ErrorCategory::Target),
    };
    let value = match utf8_text(payload.as_bytes()) {
        Some(v) => v,
        None => return Err(ErrorCategory::Target),
    };
    let vchars = chars_of(value);
    if has_break(&vchars) {
        return Err(ErrorCategory::Target);
    }
    let enc = encode_value(&vchars, style);
    let src = chars_of(source);
    let nl = newline_for(&src);
    let kc = chars_of(key);
    let ghost kv = key@;
    let mut out: Vec<char> = Vec::new();
    let mut cur: Vec<char> = Vec::new();
    let ghost mut done: Seq<Seq<char>> = seq![];
    let mut count: u8 = 0;
    let mut i: usize = 0;
    while i < src.len()
        invariant
            i <= src@.len(),
            kc@ == kv,
            (done, cur@) == scan_lines(src@.take(i as int)),
            out@ == rewrite(done, kv, enc@, nl@, style),
            count as nat == (if assignments(done, kv, style) < 2 { assignments(done, kv, style) } else { 2nat }),
        decreases src@.len() - i,
    {
        let c = src[i];
        assert(src@.take(i as int + 1).drop_last() =~= src@.take(i as int));
        cur.push(c);
        if c == '\n' {
            let line = cur;
            let is_key = match key_of_line(&line, style) {
                Some(k) => same_chars(&k, &kc),
                None => false,
            };
            if is_key {
                let rep = replacement(&line, &kc, &enc, &nl);
                append(&mut out, &rep);
                if count < 2 {
                    count = count + 1;
                }
            } else {
                append(&mut out, &line);
            }
            proof {
                assert(done.push(line@).drop_last() =~= done);
                done = done.push(line@);
            }
            cur = Vec::new();
        }
        i = i + 1;
    }
    assert(src@.take(src@.len() as int) =~= src@);
    if cur.len() > 0 {
        let line = cur;
        let is_key = match key_of_line(&line, style) {
            Some(k) => same_chars(&k, &kc),
            None => false,
        };
        if is_key {
            let rep = replacement(&line, &kc, &enc, &nl);
            append(&mut out, &rep);
            if count < 2 {
                count = count + 1;
            }
        } else {
            append(&mut out, &line);
        }
        proof {
            assert(done.push(line@).drop_last() =~= done);
            done = done.push(line@);
        }
    }
    assert(done == lines(src@));
    if count > 1 {
        return Err(ErrorCategory::Target);
    }
    if count == 0 {
        if out.len() > 0 && out[out.len() - 1] != '\n' {
            append(&mut out, &nl);
        }
        append(&mut out, &kc);
        out.push('=');
        append(&mut out, &enc);
        append(&mut out, &nl);
    }
    proof {
        let ls = lines(src@);
        let base = rewrite(ls, kv, enc@, nl@, style);
        let sep = if base.len() > 0 && base.last() != '\n' { nl@ } else { seq![] };
        if assignments(ls, kv, style) == 0 {
            assert(out@ =~= base + sep + kv + seq!['='] + enc@ + nl@);
        }
    }
    Ok(text_bytes(&out))
}

/// The lines put back together.
pub open spec fn joined_lines(ls: Seq<Seq<char>>) -> Seq<char>
    decreases ls.len(),
{
    if ls.len() == 0 {
        seq![]
    } else {
        joined_lines(ls.drop_last()) + ls.last()
    }
}

proof fn lemma_scan_lines_join(s: Seq<char>)
    ensures
        joined_lines(scan_lines(s).0) + scan_lines(s).1 == s,
    decreases s.len(),
{
    if s.len() > 0 {
        lemma_scan_lines_join(s.drop_last());
        let prev = scan_lines(s.drop_last());
        let cur = prev.1.push(s.last());
        if s.last() == '\n' {
            assert(prev.0.push(cur).drop_last() =~= prev.0);
            assert(joined_lines(prev.0.push(cur)) == joined_lines(prev.0) + cur);
        }
        assert(s =~= s.drop_last().push(s.last()));
    }
}

/// Splitting text into lines and joining them gives the text back.
proof fn lemma_lines_join(s: Seq<char>)
    ensures
        joined_lines(lines(s)) == s,
{
    lemma_scan_lines_join(s);
    let st = scan_lines(s);
    if st.1.len() > 0 {
        assert(st.0.push(st.1).drop_last() =~= st.0);
    } else {
        assert(st.1 =~= seq![]);
        assert(joined_lines(st.0) + st.1 =~= joined_lines(st.0));
    }
}

proof fn lemma_rewrite_without_key(ls: Seq<Seq<char>>, key: Seq<char>, enc: Seq<char>, nl: Seq<char>, style: KeyValueStyle)
    requires
        assignments(ls, key, style) == 0,
    ensures
        rewrite(ls, key, enc, nl, style) == joined_lines(ls),
    decreases ls.len(),
{
    if ls.len() > 0 {
        lemma_rewrite_without_key(ls.drop_last(), key, enc, nl, style);
    }
}

/// Unrelated content is kept: when no line assigns the key, the rendered
/// text begins with the whole prior text, unchanged, and only the new
/// assignment follows it; when one line does, every other line is kept as
/// it was, in place.
pub proof fn law_unrelated_content_kept(source: Seq<char>, key: Seq<char>, value: Seq<char>, style: KeyValueStyle)
    requires
        !(value.contains('\r') || value.contains('\n') || value.contains('\0')),
    ensures
        assignments(lines(source), key, style) == 0 ==> (rendered_text(source, key, value, style) matches Some(t)
            && t.len() >= source.len() && t.take(source.len() as int) == source),
        assignments(lines(source), key, style) == 1 ==> rendered_text(source, key, value, style) == Some(
            rewrite(lines(source), key, encoded_value(value, style), newline_of(source), style),
        ),
{
    let ls = lines(source);
    if assignments(ls, key, style) == 0 {
        lemma_lines_join(source);
        lemma_rewrite_without_key(ls, key, encoded_value(value, style), newline_of(source), style);
        let t = rendered_text(source, key, value, style)->0;
        let out = rewrite(ls, key, encoded_value(value, style), newline_of(source), style);
        assert(out == source);
        assert(t.take(source.len() as int) =~= source);
    }
}

proof fn lemma_scan_without_newline(s: Seq<char>)
    requires
        forall|i: int| 0 <= i < s.len() ==> s[i] != '\n',
    ensures
        scan_lines(s) == (Seq::<Seq<char>>::empty(), s),
    decreases s.len(),
{
    if s.len() > 0 {
        lemma_scan_without_newline(s.drop_last());
        assert(s.drop_last().push(s.last()) =~= s);
    }
}

proof fn lemma_one_line(t: Seq<char>)
    requires
        forall|i: int| 0 <= i < t.len() ==> t[i] != '\n',
    ensures
        lines(t + seq!['\n']) == seq![t + seq!['\n']],
{
    let line = t + seq!['\n'];
    lemma_scan_without_newline(t);
    assert(line.drop_last() =~= t);
    assert(t.push('\n') =~= line);
    assert(scan_lines(line) == (Seq::<Seq<char>>::empty().push(line), Seq::<char>::empty()));
    assert(Seq::<Seq<char>>::empty().push(line) =~= seq![line]);
}

/// A separator that ends the key of a properties line on the same line.
pub open spec fn is_property_separator(c: char) -> bool {
    c == '=' || c == ':' || c == ' ' || c == '\t' || c == '\u{c}'
}

proof fn lemma_key_end(k: Seq<char>, sep: char, rest: Seq<char>)
    requires
        forall|i: int| 0 <= i < k.len() ==> !(k[i] == '=' || k[i] == ':' || is_ascii_ws(#[trigger] k[i])),
        is_property_separator(sep),
    ensures
        property_key_end(k + seq![sep] + rest) == Some(k.len() as int),
{
    let t = k + seq![sep] + rest;
    let n = k.len() as int;
    assert(t[n] == sep);
    assert(t[n] == '=' || t[n] == ':' || is_ascii_ws(t[n]));
    let i = choose|i: int| 0 <= i < t.len() && (t[i] == '=' || t[i] == ':' || is_ascii_ws(t[i]))
        && forall|j: int| 0 <= j < i ==> !(t[j] == '=' || t[j] == ':' || is_ascii_ws(t[j]));
    if i < n {
        assert(t[i] == k[i]);
    }
    if i > n {
        assert(!(t[n] == '=' || t[n] == ':' || is_ascii_ws(t[n])));
    }
}

proof fn lemma_not_export(k: Seq<char>, sep: char, rest: Seq<char>)
    requires
        forall|i: int| 0 <= i < k.len() ==> !(k[i] == '=' || k[i] == ':' || is_ascii_ws(#[trigger] k[i])),
        k != "export"@,
        is_property_separator(sep),
    ensures
        !starts_with(k + seq![sep] + rest, "export "@),
{
    reveal_strlit("export ");
    reveal_strlit("export");
    let t = k + seq![sep] + rest;
    let ex = "export "@;
    let n = k.len() as int;
    if starts_with(t, ex) {
        assert(t.take(7) == ex);
        if n >= 7 {
            assert(t[6] == k[6]);
            assert(t.take(7)[6] == ex[6]);
        } else if n == 6 {
            assert(k =~= ex.take(6));
            assert(ex.take(6) =~= "export"@);
        } else {
            assert(t.take(7)[n] == t[n]);
            assert(t[n] == sep);
        }
    }
}

/// The conditions of the law below on a key and the rest of its line.
pub open spec fn plain_property_line(k: Seq<char>, sep: char, rest: Seq<char>) -> bool {
    &&& k.len() > 0
    &&& forall|i: int| 0 <= i < k.len() ==> !(k[i] == '=' || k[i] == ':' || is_ascii_ws(#[trigger] k[i]))
    &&& !is_ws(k[0])
    &&& k[0] != '#' && k[0] != '!'
    &&& k != "export"@
    &&& is_property_separator(sep)
    &&& forall|i: int| 0 <= i < rest.len() ==> rest[i] != '\n' && rest[i] != '\r'
}

proof fn lemma_line_facts(k: Seq<char>, sep: char, rest: Seq<char>)
    requires
        plain_property_line(k, sep, rest),
    ensures
        lines(k + seq![sep] + rest + seq!['\n']) == seq![k + seq![sep] + rest + seq!['\n']],
        line_key(k + seq![sep] + rest + seq!['\n'], KeyValueStyle::Properties) == Some(k),
        newline_of(k + seq![sep] + rest + seq!['\n']) == seq!['\n'],
        !starts_with(trim_start(trim_newlines(k + seq![sep] + rest + seq!['\n'])), "export "@),
{
    let t = k + seq![sep] + rest;
    let line = t + seq!['\n'];
    let n = k.len() as int;
    assert forall|i: int| 0 <= i < t.len() implies t[i] != '\n' && t[i] != '\r' by {
        if i < n {
            assert(t[i] == k[i]);
        } else if i > n {
            assert(t[i] == rest[i - n - 1]);
        }
    }
    lemma_one_line(t);
    assert(line.drop_last() =~= t);
    assert(trim_newlines(t) == t);
    assert(trim_newlines(line) == t);
    assert(t[0] == k[0]);
    assert(trim_start(t) == t);
    lemma_key_end(k, sep, rest);
    assert(t.take(n) =~= k);
    lemma_not_export(k, sep, rest);
    assert forall|j: int| 0 <= j < line.len() - 1 implies #[trigger] line[j] != '\r' by {
        assert(line[j] == t[j]);
    }
}

/// The key of a properties line ends at the first `=`, `:` or white space:
/// for every key without those characters, rendering a one-line file that
/// assigns it, as `K=v`, `K:v`, `K v` or `K = v`, replaces that line with
/// the new assignment and appends nothing, whatever follows the separator.
#[verifier::rlimit(40)]
pub proof fn law_property_key_ends_at_separator(k: Seq<char>, sep: char, rest: Seq<char>, value: Seq<char>)
    requires
        plain_property_line(k, sep, rest),
        !(value.contains('\r') || value.contains('\n') || value.contains('\0')),
    ensures
        rendered_text(k + seq![sep] + rest + seq!['\n'], k, value, KeyValueStyle::Properties)
            == Some(k + seq!['='] + encoded_value(value, KeyValueStyle::Properties) + seq!['\n']),
{
    let line = k + seq![sep] + rest + seq!['\n'];
    let style = KeyValueStyle::Properties;
    lemma_line_facts(k, sep, rest);
    let ls = seq![line];
    let e = Seq::<Seq<char>>::empty();
    assert(ls.drop_last() =~= e);
    assert(ls.last() == line);
    assert(assignments(e, k, style) == 0);
    assert(assignments(ls, k, style) == assignments(e, k, style) + 1nat);
    let enc = encoded_value(value, style);
    let nl = seq!['\n'];
    assert(rewrite(e, k, enc, nl, style) == Seq::<char>::empty());
    assert(rewrite(ls, k, enc, nl, style) == rewrite(e, k, enc, nl, style) + replaced_line(line, k, enc, nl));
    assert(replaced_line(line, k, enc, nl) =~= k + seq!['='] + enc + nl);
    assert(rewrite(ls, k, enc, nl, style) =~= k + seq!['='] + enc + nl);
}

} // verus!
