//! Explicit, one-way import of a browser password export (CSV) into vault
//! entries: one JSON text entry per record, named after an import prefix.
use crate::domain::{is_safe_label, safe_label, SecretPayload, SecretType};
use crate::form::{decimal, format_u64};
use crate::text::{bytes_of, push_char, push_text, same_text, utf8_text};
use vstd::prelude::*;
use vstd::slice::slice_subrange;
use vstd::utf8::{decode_utf8, encode_utf8, valid_utf8};

verus! {

/// The largest export accepted, in bytes.
pub const MAX_CSV_BYTES: usize = 8388608;

/// The most records one import may hold.
pub const MAX_RECORDS: usize = 1000;

pub open spec fn invalid_message() -> Seq<char> {
    "Invalid browser CSV. No entries were imported."@
}

pub open spec fn malformed_message() -> Seq<char> {
    "Malformed CSV quoting. No entries were imported."@
}

pub open spec fn incomplete_message() -> Seq<char> {
    "Incomplete CSV. No entries were imported."@
}

/// Where the quote check stands inside a field.
#[derive(Clone, Copy, Debug, PartialEq, Eq, Structural)]
pub enum QuoteState {
    Start,
    Plain,
    Quoted,
    Closed,
}

/// One byte of the quote check; `None` rejects the input. A quote may only
/// open a field, a quoted field ends with a quote that is doubled or followed
/// by a separator, and an unquoted field holds no quote.
pub open spec fn quote_step(s: QuoteState, b: u8) -> Option<QuoteState> {
    let sep = b == 0x2c || b == 0x0d || b == 0x0a;
    if s == QuoteState::Start && b == 0x22 {
        Some(QuoteState::Quoted)
    } else if s != QuoteState::Quoted && sep {
        Some(QuoteState::Start)
    } else if s == QuoteState::Plain && b == 0x22 {
        None
    } else if s == QuoteState::Quoted && b == 0x22 {
        Some(QuoteState::Closed)
    } else if s == QuoteState::Closed && b == 0x22 {
        Some(QuoteState::Quoted)
    } else if s == QuoteState::Closed {
        None
    } else if s == QuoteState::Quoted {
        Some(QuoteState::Quoted)
    } else {
        Some(QuoteState::Plain)
    }
}

/// The quote check over a prefix of the input.
pub open spec fn quote_scan(bytes: Seq<u8>) -> Option<QuoteState>
    decreases bytes.len(),
{
    if bytes.len() == 0 {
        Some(QuoteState::Start)
    } else {
        match quote_scan(bytes.drop_last()) {
            Some(s) => quote_step(s, bytes.last()),
            None => None,
        }
    }
}

/// The CSV reader accepts malformed quoting; this check rejects it before
/// decoding so that an incomplete export cannot change a password or drop a
/// column unnoticed.
pub fn strict_quotes(bytes: &[u8]) -> (r: Result<(), &'static str>)
    ensures
        quote_scan(bytes@) is None ==> (r matches Err(m) && m@ == malformed_message()),
        quote_scan(bytes@) == Some(QuoteState::Quoted) ==> (r matches Err(m) && m@ == incomplete_message()),
        (quote_scan(bytes@) matches Some(s) && s != QuoteState::Quoted) ==> r is Ok,
{
    proof {
        reveal_strlit("Malformed CSV quoting. No entries were imported.");
        reveal_strlit("Incomplete CSV. No entries were imported.");
    }
    let mut state = QuoteState::Start;
    let mut i: usize = 0;
    while i < bytes.len()
        invariant
            i <= bytes@.len(),
            quote_scan(bytes@.take(i as int)) == Some(state),
        decreases bytes@.len() - i,
    {
        let b = bytes[i];
        assert(bytes@.take(i as int + 1).drop_last() =~= bytes@.take(i as int));
        let sep = b == 0x2c || b == 0x0d || b == 0x0a;
        let next = match state {
            QuoteState::Start => if b == 0x22 {
                QuoteState::Quoted
            } else if sep {
                QuoteState::Start
            } else {
                QuoteState::Plain
            },
            QuoteState::Plain => if sep {
                QuoteState::Start
            } else if b == 0x22 {
                proof {
                    lemma_scan_stays_rejected(bytes@, i as int + 1);
                }
                return Err("Malformed CSV quoting. No entries were imported.");
            } else {
                QuoteState::Plain
            },
            QuoteState::Quoted => if b == 0x22 {
                QuoteState::Closed
            } else {
                QuoteState::Quoted
            },
            QuoteState::Closed => if sep {
                QuoteState::Start
            } else if b == 0x22 {
                QuoteState::Quoted
            } else {
                proof {
                    lemma_scan_stays_rejected(bytes@, i as int + 1);
                }
                return Err("Malformed CSV quoting. No entries were imported.");
            },
        };
        state = next;
        i = i + 1;
    }
    assert(bytes@.take(bytes@.len() as int) =~= bytes@);
    match state {
        QuoteState::Quoted => Err("Incomplete CSV. No entries were imported."),
        _ => Ok(()),
    }
}

proof fn lemma_scan_stays_rejected(bytes: Seq<u8>, i: int)
    requires
        0 <= i <= bytes.len(),
        quote_scan(bytes.take(i)) is None,
    ensures
        quote_scan(bytes) is None,
    decreases bytes.len() - i,
{
    if i < bytes.len() {
        assert(bytes.take(i + 1).drop_last() =~= bytes.take(i));
        lemma_scan_stays_rejected(bytes, i + 1);
    } else {
        assert(bytes.take(i) =~= bytes);
    }
}

/// The columns an export may carry, in the order their names sort.
#[derive(Clone, Copy, Debug, PartialEq, Eq, Structural)]
pub enum Column {
    Name,
    Notes,
    Password,
    Url,
    Username,
}

pub open spec fn column_text(c: Column) -> Seq<char> {
    match c {
        Column::Name => "name"@,
        Column::Notes => "notes"@,
        Column::Password => "password"@,
        Column::Url => "url"@,
        Column::Username => "username"@,
    }
}

/// The column a header cell names; `note` and `notes` both name the notes.
pub open spec fn column_named(s: Seq<char>) -> Option<Column> {
    if s == "name"@ {
        Some(Column::Name)
    } else if s == "url"@ {
        Some(Column::Url)
    } else if s == "username"@ {
        Some(Column::Username)
    } else if s == "password"@ {
        Some(Column::Password)
    } else if s == "note"@ || s == "notes"@ {
        Some(Column::Notes)
    } else {
        None
    }
}

fn column_of(s: &str) -> (r: Option<Column>)
    ensures
        r == column_named(s@),
{
    proof {
        reveal_strlit("name");
        reveal_strlit("url");
        reveal_strlit("username");
        reveal_strlit("password");
        reveal_strlit("note");
        reveal_strlit("notes");
    }
    if same_text(s, "name") {
        Some(Column::Name)
    } else if same_text(s, "url") {
        Some(Column::Url)
    } else if same_text(s, "username") {
        Some(Column::Username)
    } else if same_text(s, "password") {
        Some(Column::Password)
    } else if same_text(s, "note") || same_text(s, "notes") {
        Some(Column::Notes)
    } else {
        None
    }
}

fn column_label(c: Column) -> (r: &'static str)
    ensures
        r@ == column_text(c),
{
    match c {
        Column::Name => "name",
        Column::Notes => "notes",
        Column::Password => "password",
        Column::Url => "url",
        Column::Username => "username",
    }
}

/// A header: known columns, none twice, with url, username and password.
pub open spec fn is_valid_header(cols: Seq<Column>) -> bool {
    &&& forall|i: int, j: int| 0 <= i < cols.len() && 0 <= j < cols.len() && i != j ==> #[trigger] cols[i] != #[trigger] cols[j]
    &&& cols.contains(Column::Url)
    &&& cols.contains(Column::Username)
    &&& cols.contains(Column::Password)
}

/// The lowercase hexadecimal digit for `n < 16`, as a byte.
pub open spec fn hex_byte(n: int) -> u8 {
    if n < 10 {
        (48 + n) as u8
    } else {
        (87 + n) as u8
    }
}

/// How `serde_json` writes one byte inside a string: quote and backslash
/// are escaped, control bytes get a short escape or `\u00XX`, and every other
/// byte is written as is.
pub open spec fn json_escape_byte(b: u8) -> Seq<u8> {
    if b == 0x22 {
        seq![0x5cu8, 0x22u8]
    } else if b == 0x5c {
        seq![0x5cu8, 0x5cu8]
    } else if b == 0x08 {
        seq![0x5cu8, 0x62u8]
    } else if b == 0x09 {
        seq![0x5cu8, 0x74u8]
    } else if b == 0x0a {
        seq![0x5cu8, 0x6eu8]
    } else if b == 0x0c {
        seq![0x5cu8, 0x66u8]
    } else if b == 0x0d {
        seq![0x5cu8, 0x72u8]
    } else if b < 0x20 {
        seq![0x5cu8, 0x75u8, 0x30u8, 0x30u8, hex_byte(b as int / 16), hex_byte(b as int % 16)]
    } else {
        seq![b]
    }
}

pub open spec fn json_escape(s: Seq<u8>) -> Seq<u8>
    decreases s.len(),
{
    if s.len() == 0 {
        seq![]
    } else {
        json_escape(s.drop_last()) + json_escape_byte(s.last())
    }
}

/// A JSON string literal for text.
pub open spec fn json_string(s: Seq<char>) -> Seq<u8> {
    seq![0x22u8] + json_escape(encode_utf8(s)) + seq![0x22u8]
}

/// The members of a flat JSON object, comma-separated.
pub open spec fn json_members(pairs: Seq<(Seq<char>, Seq<char>)>) -> Seq<u8>
    decreases pairs.len(),
{
    if pairs.len() == 0 {
        seq![]
    } else {
        let m = json_string(pairs.last().0) + seq![0x3au8] + json_string(pairs.last().1);
        if pairs.len() == 1 {
            m
        } else {
            json_members(pairs.drop_last()) + seq![0x2cu8] + m
        }
    }
}

/// The compact JSON object of text members, as `serde_json::to_writer`
/// writes a map of strings.
pub open spec fn json_object(pairs: Seq<(Seq<char>, Seq<char>)>) -> Seq<u8> {
    seq![0x7bu8] + json_members(pairs) + seq![0x7du8]
}

fn hex_digit_byte(n: u8) -> (r: u8)
    requires
        n < 16,
    ensures
        r == hex_byte(n as int),
{
    if n < 10 {
        48 + n
    } else {
        87 + n
    }
}

pub(crate) fn push_json_string(out: &mut Vec<u8>, s: &str)
    ensures
        final(out)@ == old(out)@ + json_string(s@),
{
    proof {
        broadcast use vstd::utf8::group_utf8_lib;
    }
    let b = bytes_of(s);
    let ghost start = old(out)@;
    out.push(0x22);
    let mut i: usize = 0;
    while i < b.len()
        invariant
            i <= b@.len(),
            b@ == encode_utf8(s@),
            out@ == start + seq![0x22u8] + json_escape(b@.take(i as int)),
        decreases b@.len() - i,
    {
        let c = b[i];
        assert(b@.take(i as int + 1).drop_last() =~= b@.take(i as int));
        let ghost before = out@;
        if c == 0x22 {
            out.push(0x5c);
            out.push(0x22);
        } else if c == 0x5c {
            out.push(0x5c);
            out.push(0x5c);
        } else if c == 0x08 {
            out.push(0x5c);
            out.push(0x62);
        } else if c == 0x09 {
            out.push(0x5c);
            out.push(0x74);
        } else if c == 0x0a {
            out.push(0x5c);
            out.push(0x6e);
        } else if c == 0x0c {
            out.push(0x5c);
            out.push(0x66);
        } else if c == 0x0d {
            out.push(0x5c);
            out.push(0x72);
        } else if c < 0x20 {
            out.push(0x5c);
            out.push(0x75);
            out.push(0x30);
            out.push(0x30);
            out.push(hex_digit_byte(c / 16));
            out.push(hex_digit_byte(c % 16));
        } else {
            out.push(c);
        }
        assert(out@ =~= before + json_escape_byte(c));
        i = i + 1;
    }
    assert(b@.take(b@.len() as int) =~= b@);
    out.push(0x22);
    assert(out@ =~= start + json_string(s@));
}

/// The position of column `c` in a header.
pub open spec fn col_pos(cols: Seq<Column>, c: Column) -> int {
    choose|i: int| 0 <= i < cols.len() && cols[i] == c
}

/// The members for the columns of `order` that the header has, each with
/// the record's value in that column.
pub open spec fn members_for(order: Seq<Column>, cols: Seq<Column>, values: Seq<Seq<char>>) -> Seq<(Seq<char>, Seq<char>)>
    decreases order.len(),
{
    if order.len() == 0 {
        seq![]
    } else {
        let rest = members_for(order.drop_last(), cols, values);
        let c = order.last();
        if cols.contains(c) {
            rest.push((column_text(c), values[col_pos(cols, c)]))
        } else {
            rest
        }
    }
}

/// Every column in name order.
pub open spec fn name_order() -> Seq<Column> {
    seq![Column::Name, Column::Notes, Column::Password, Column::Url, Column::Username]
}

/// The record's members in name order: each header column with its value.
pub open spec fn record_pairs(cols: Seq<Column>, values: Seq<Seq<char>>) -> Seq<(Seq<char>, Seq<char>)> {
    members_for(name_order(), cols, values)
}

pub open spec fn texts(v: Seq<String>) -> Seq<Seq<char>> {
    v.map_values(|s: String| s@)
}

fn find_column(cols: &Vec<Column>, c: Column) -> (r: Option<usize>)
    requires
        forall|i: int, j: int| 0 <= i < cols@.len() && 0 <= j < cols@.len() && i != j ==> #[trigger] cols@[i] != #[trigger] cols@[j],
    ensures
        match r {
            Some(j) => cols@.contains(c) && j == col_pos(cols@, c) && j < cols@.len(),
            None => !cols@.contains(c),
        },
{
    let mut i: usize = 0;
    while i < cols.len()
        invariant
            i <= cols@.len(),
            forall|a: int, b: int| 0 <= a < cols@.len() && 0 <= b < cols@.len() && a != b ==> #[trigger] cols@[a] != #[trigger] cols@[b],
            forall|j: int| 0 <= j < i ==> cols@[j] != c,
        decreases cols@.len() - i,
    {
        if cols[i] == c {
            proof {
                assert(cols@[i as int] == c);
                let k = col_pos(cols@, c);
                assert(0 <= k < cols@.len() && cols@[k] == c);
                if k != i {
                    assert(cols@[k] != cols@[i as int]);
                }
            }
            return Some(i);
        }
        i = i + 1;
    }
    None
}

/// The JSON text of one record.
fn record_json(cols: &Vec<Column>, values: &Vec<String>) -> (r: Vec<u8>)
    requires
        forall|i: int, j: int| 0 <= i < cols@.len() && 0 <= j < cols@.len() && i != j ==> #[trigger] cols@[i] != #[trigger] cols@[j],
        values@.len() == cols@.len(),
    ensures
        r@ == json_object(record_pairs(cols@, texts(values@))),
{
    let order: [Column; 5] = [Column::Name, Column::Notes, Column::Password, Column::Url, Column::Username];
    assert(order@ =~= name_order());
    let mut out: Vec<u8> = Vec::new();
    out.push(0x7b);
    let mut any = false;
    let mut k: usize = 0;
    while k < 5
        invariant
            k <= 5,
            any == (members_for(name_order().take(k as int), cols@, texts(values@)).len() > 0),
            order@ == name_order(),
            values@.len() == cols@.len(),
            forall|i: int, j: int| 0 <= i < cols@.len() && 0 <= j < cols@.len() && i != j ==> #[trigger] cols@[i] != #[trigger] cols@[j],
            out@ == seq![0x7bu8] + json_members(members_for(name_order().take(k as int), cols@, texts(values@))),
        decreases 5 - k,
    {
        let c = order[k];
        assert(name_order().take(k as int + 1).drop_last() =~= name_order().take(k as int));
        let ghost before = members_for(name_order().take(k as int), cols@, texts(values@));
        match find_column(cols, c) {
            Some(j) => {
                if any {
                    out.push(0x2c);
                }
                any = true;
                push_json_string(&mut out, column_label(c));
                out.push(0x3a);
                push_json_string(&mut out, values[j].as_str());
                proof {
                    let after = before.push((column_text(c), texts(values@)[j as int]));
                    assert(after.drop_last() =~= before);
                    assert(out@ =~= seq![0x7bu8] + json_members(after));
                }
            },
            None => {},
        }
        k = k + 1;
    }
    assert(name_order().take(5) =~= name_order());
    out.push(0x7d);
    assert(out@ =~= json_object(record_pairs(cols@, texts(values@))));
    out
}

/// Zero-padded to four digits, as `{:04}` writes a number below 10000.
pub open spec fn pad4(n: nat) -> Seq<char> {
    let d = decimal(n);
    if d.len() >= 4 {
        d
    } else {
        Seq::new((4 - d.len()) as nat, |i: int| '0') + d
    }
}

/// The name of the `n`-th imported entry: `{prefix}-{n:04}`.
pub open spec fn entry_name(prefix: Seq<char>, n: nat) -> Seq<char> {
    prefix + seq!['-'] + pad4(n)
}

fn entry_name_of(prefix: &str, n: u64) -> (r: String)
    ensures
        r@ == entry_name(prefix@, n as nat),
{
    let d = format_u64(n);
    let dn = crate::text::chars_of(d.as_str()).len();
    let mut out = prefix.to_owned();
    push_char(&mut out, '-');
    let ghost base = out@;
    let mut k: usize = dn;
    while k < 4
        invariant
            dn <= k,
            k <= 4 || k == dn,
            dn == decimal(n as nat).len(),
            out@ == base + Seq::new((k - dn) as nat, |i: int| '0'),
        decreases 4 - k,
    {
        push_char(&mut out, '0');
        assert(out@ =~= base + Seq::new((k + 1 - dn) as nat, |i: int| '0'));
        k = k + 1;
    }
    push_text(&mut out, d.as_str());
    assert(out@ =~= entry_name(prefix@, n as nat)) by {
        if dn >= 4 {
            assert(Seq::new((k - dn) as nat, |i: int| '0') =~= Seq::<char>::empty());
        }
    }
    out
}

/// The columns a header row names, when it is a valid header.
pub open spec fn header_of(values: Seq<Seq<char>>) -> Option<Seq<Column>> {
    if forall|i: int| 0 <= i < values.len() ==> #[trigger] column_named(values[i]) is Some {
        let cols = values.map_values(|v: Seq<char>| column_named(v)->0);
        if is_valid_header(cols) {
            Some(cols)
        } else {
            None
        }
    } else {
        None
    }
}

fn header_columns(values: &Vec<String>) -> (r: Option<Vec<Column>>)
    ensures
        match (r, header_of(texts(values@))) {
            (Some(c), Some(h)) => c@ == h,
            (None, None) => true,
            _ => false,
        },
{
    let ghost t = texts(values@);
    let mut cols: Vec<Column> = Vec::new();
    let mut i: usize = 0;
    while i < values.len()
        invariant
            i <= values@.len(),
            t == texts(values@),
            cols@.len() == i,
            forall|j: int| 0 <= j < i ==> #[trigger] column_named(t[j]) is Some && cols@[j] == column_named(t[j])->0,
            forall|a: int, b: int| 0 <= a < cols@.len() && 0 <= b < cols@.len() && a != b ==> #[trigger] cols@[a] != #[trigger] cols@[b],
        decreases values@.len() - i,
    {
        let c = match column_of(values[i].as_str()) {
            Some(c) => c,
            None => {
                assert(column_named(t[i as int]) is None);
                return None;
            },
        };
        match find_column(&cols, c) {
            Some(j) => {
                proof {
                    let full = t.map_values(|v: Seq<char>| column_named(v)->0);
                    assert(full[j as int] == c && full[i as int] == c);
                    if forall|k: int| 0 <= k < t.len() ==> #[trigger] column_named(t[k]) is Some {
                        assert(!is_valid_header(full));
                    }
                }
                return None;
            },
            None => {},
        }
        let ghost before = cols@;
        cols.push(c);
        proof {
            assert forall|a: int, b: int| 0 <= a < cols@.len() && 0 <= b < cols@.len() && a != b implies #[trigger] cols@[a] != #[trigger] cols@[b] by {
                if a == i {
                    assert(before[b] == cols@[b]);
                    if before[b] == c {
                        assert(before.contains(c));
                    }
                } else if b == i {
                    assert(before[a] == cols@[a]);
                    if before[a] == c {
                        assert(before.contains(c));
                    }
                }
            }
        }
        i = i + 1;
    }
    let ghost full = t.map_values(|v: Seq<char>| column_named(v)->0);
    assert(cols@ =~= full);
    let has_url = find_column(&cols, Column::Url).is_some();
    let has_user = find_column(&cols, Column::Username).is_some();
    let has_password = find_column(&cols, Column::Password).is_some();
    if !(has_url && has_user && has_password) {
        return None;
    }
    Some(cols)
}

/// The field values of a record, in the stated order and count.
pub open spec fn is_record_for(cols: Seq<Column>, values: Seq<Seq<char>>) -> bool {
    &&& values.len() == cols.len()
    &&& values[col_pos(cols, Column::Url)].len() > 0
    &&& values[col_pos(cols, Column::Password)].len() > 0
}

/// The entries an import makes of a header and its records: record `i`
/// becomes `{prefix}-{i+1:04}`, a JSON text of its members.
pub open spec fn imported(prefix: Seq<char>, cols: Seq<Column>, records: Seq<Seq<Seq<char>>>, entries: Seq<(String, SecretPayload)>) -> bool {
    &&& entries.len() == records.len()
    &&& forall|i: int| 0 <= i < entries.len() ==> {
        &&& #[trigger] entries[i].0@ == entry_name(prefix, (i + 1) as nat)
        &&& entries[i].1.declared_kind() == SecretType::Json
        &&& is_record_for(cols, records[i])
        &&& entries[i].1.bytes() == json_object(record_pairs(cols, records[i]))
    }
}

/// The entries are the import of some valid header and its records.
pub open spec fn is_import(prefix: Seq<char>, entries: Seq<(String, SecretPayload)>) -> bool {
    exists|cols: Seq<Column>, records: Seq<Seq<Seq<char>>>|
        #[trigger] is_valid_header(cols) && #[trigger] imported(prefix, cols, records, entries)
}

/// The export without a leading UTF-8 byte order mark.
pub open spec fn without_bom(b: Seq<u8>) -> Seq<u8> {
    if b.len() >= 3 && b[0] == 0xef && b[1] == 0xbb && b[2] == 0xbf {
        b.skip(3)
    } else {
        b
    }
}

/// What one read of the CSV reader ended on.
#[derive(Clone, Copy, Debug, PartialEq, Eq, Structural)]
pub enum CsvStep {
    InputEmpty,
    OutputFull,
    OutputEndsFull,
    Record,
    End,
}

/// What a fresh `csv_core::Reader` reads of `input` in one `read_record`
/// call into buffers of `output_len` bytes and `ends_len` field ends: how it
/// stopped, the input bytes it used, the bytes it wrote and the field ends
/// it recorded.
pub uninterp spec fn csv_first_record(input: Seq<u8>, output_len: nat, ends_len: nat) -> (CsvStep, nat, Seq<u8>, Seq<usize>);

/// `csv_core::Reader::new` (comma-separated, double-quoted, CR, LF or CRLF
/// records) and one `Reader::read_record` on `input`: the result is named
/// by `csv_first_record`, and the counts stay within their buffers, as the
/// method's documentation says.
#[verifier::external_body]
fn csv_read_record(input: &[u8], output: &mut [u8], ends: &mut [usize]) -> (r: (CsvStep, usize, usize, usize))
    ensures
        r.1 <= input@.len(),
        r.2 <= old(output)@.len(),
        r.3 <= old(ends)@.len(),
        final(output)@.len() == old(output)@.len(),
        final(ends)@.len() == old(ends)@.len(),
        csv_first_record(input@, old(output)@.len() as nat, old(ends)@.len() as nat)
            == (r.0, r.1 as nat, final(output)@.take(r.2 as int), final(ends)@.take(r.3 as int)),
{
    let mut reader = csv_core::Reader::new();
    let (result, used, produced, count) = reader.read_record(input, output, ends);
    let step = match result {
        csv_core::ReadRecordResult::InputEmpty => CsvStep::InputEmpty,
        csv_core::ReadRecordResult::OutputFull => CsvStep::OutputFull,
        csv_core::ReadRecordResult::OutputEndsFull => CsvStep::OutputEndsFull,
        csv_core::ReadRecordResult::Record => CsvStep::Record,
        csv_core::ReadRecordResult::End => CsvStep::End,
    };
    (step, used, produced, count)
}

/// Where field `k` of a record starts in the reader's output.
pub open spec fn field_start(ends: Seq<usize>, k: int) -> int {
    if k == 0 {
        0
    } else {
        ends[k - 1] as int
    }
}

/// The fields a record's output and field ends describe, when the ends
/// climb within the output.
pub open spec fn fields_of(out: Seq<u8>, ends: Seq<usize>) -> Option<Seq<Seq<u8>>> {
    if forall|k: int| 0 <= k < ends.len() ==> field_start(ends, k) <= #[trigger] ends[k] <= out.len() {
        Some(Seq::new(ends.len(), |k: int| out.subrange(field_start(ends, k), ends[k] as int)))
    } else {
        None
    }
}

/// The records read from `input`, one fresh read at a time, each from where
/// the last stopped, with an output buffer of `out_len` bytes and room for
/// six fields; none when a read overflows, a record's ends are out of
/// order, or `fuel` reads do not reach the end.
pub open spec fn csv_rows(input: Seq<u8>, out_len: nat, fuel: nat) -> Option<Seq<Seq<Seq<u8>>>>
    decreases fuel,
{
    if fuel == 0 {
        None
    } else {
        let res = csv_first_record(input, out_len, 6);
        match res.0 {
            CsvStep::End => Some(seq![]),
            CsvStep::InputEmpty => csv_rows(input.skip(res.1 as int), out_len, (fuel - 1) as nat),
            CsvStep::Record => match (fields_of(res.2, res.3), csv_rows(input.skip(res.1 as int), out_len, (fuel - 1) as nat)) {
                (Some(f), Some(rest)) => Some(seq![f] + rest),
                _ => None,
            },
            _ => None,
        }
    }
}

/// A record's fields as text, when each is UTF-8.
pub open spec fn row_texts(f: Seq<Seq<u8>>) -> Option<Seq<Seq<char>>> {
    if forall|k: int| 0 <= k < f.len() ==> valid_utf8(#[trigger] f[k]) {
        Some(f.map_values(|b: Seq<u8>| decode_utf8(b)))
    } else {
        None
    }
}

/// All records as text, when every field is UTF-8.
pub open spec fn rows_texts(rows: Seq<Seq<Seq<u8>>>) -> Option<Seq<Seq<Seq<char>>>> {
    if forall|i: int| 0 <= i < rows.len() ==> (#[trigger] row_texts(rows[i])) is Some {
        Some(rows.map_values(|r: Seq<Seq<u8>>| row_texts(r)->0))
    } else {
        None
    }
}

/// The export with its last record terminated by a line feed.
pub open spec fn terminated(b: Seq<u8>) -> Seq<u8> {
    if b.len() > 0 && (b.last() == 0x0a || b.last() == 0x0d) {
        b
    } else {
        b.push(0x0a)
    }
}

/// The records of an export body as text.
pub open spec fn export_rows(body: Seq<u8>) -> Option<Seq<Seq<Seq<char>>>> {
    let input = terminated(body);
    match csv_rows(input, (input.len() + 1) as nat, (2 * input.len() + 4) as nat) {
        Some(rows) => rows_texts(rows),
        None => None,
    }
}

/// Rows that make an import: a valid header, then 1 to 1000 records, each
/// with a value per column and a non-empty url and password.
pub open spec fn is_valid_import(rows: Seq<Seq<Seq<char>>>) -> bool {
    &&& 2 <= rows.len() <= MAX_RECORDS + 1
    &&& header_of(rows[0]) matches Some(cols) && forall|i: int| 1 <= i < rows.len() ==> is_record_for(cols, #[trigger] rows[i])
}

/// The rows as text.
pub open spec fn rows_view(rows: Seq<Vec<String>>) -> Seq<Seq<Seq<char>>> {
    rows.map_values(|r: Vec<String>| texts(r@))
}

proof fn lemma_imported_push(
    prefix: Seq<char>,
    cols: Seq<Column>,
    records: Seq<Seq<Seq<char>>>,
    entries: Seq<(String, SecretPayload)>,
    rec: Seq<Seq<char>>,
    e: (String, SecretPayload),
)
    requires
        imported(prefix, cols, records, entries),
        e.0@ == entry_name(prefix, (entries.len() + 1) as nat),
        e.1.declared_kind() == SecretType::Json,
        is_record_for(cols, rec),
        e.1.bytes() == json_object(record_pairs(cols, rec)),
    ensures
        imported(prefix, cols, records.push(rec), entries.push(e)),
{
    let r2 = records.push(rec);
    let e2 = entries.push(e);
    assert forall|i: int| 0 <= i < e2.len() implies {
        &&& #[trigger] e2[i].0@ == entry_name(prefix, (i + 1) as nat)
        &&& e2[i].1.declared_kind() == SecretType::Json
        &&& is_record_for(cols, r2[i])
        &&& e2[i].1.bytes() == json_object(record_pairs(cols, r2[i]))
    } by {
        if i < entries.len() {
            assert(e2[i] == entries[i]);
            assert(r2[i] == records[i]);
            assert(entries[i].0@ == entry_name(prefix, (i + 1) as nat));
        }
    }
}

/// The entry made of record number `n` (from zero) under a valid header.
fn record_entry(prefix: &str, n: usize, cols: &Vec<Column>, values: &Vec<String>) -> (r: Result<(String, SecretPayload), &'static str>)
    requires
        is_valid_header(cols@),
        n < MAX_RECORDS,
    ensures
        r is Ok <==> is_record_for(cols@, texts(values@)),
        r matches Err(m) ==> m@ == invalid_message(),
        r matches Ok(e) ==> {
            &&& e.0@ == entry_name(prefix@, (n + 1) as nat)
            &&& e.1.declared_kind() == SecretType::Json
            &&& e.1.bytes() == json_object(record_pairs(cols@, texts(values@)))
        },
{
    proof {
        reveal_strlit("Invalid browser CSV. No entries were imported.");
        assert(cols@.contains(Column::Url));
        assert(cols@.contains(Column::Password));
    }
    if values.len() != cols.len() {
        return Err("Invalid browser CSV. No entries were imported.");
    }
    let url = match find_column(cols, Column::Url) {
        Some(j) => j,
        None => return Err("Invalid browser CSV. No entries were imported."),
    };
    let password = match find_column(cols, Column::Password) {
        Some(j) => j,
        None => return Err("Invalid browser CSV. No entries were imported."),
    };
    let ghost nr = texts(values@);
    assert(nr[url as int] == values@[url as int]@);
    assert(nr[password as int] == values@[password as int]@);
    if crate::text::is_empty_text(values[url].as_str()) || crate::text::is_empty_text(values[password].as_str()) {
        return Err("Invalid browser CSV. No entries were imported.");
    }
    let json = record_json(cols, values);
    let name = entry_name_of(prefix, (n + 1) as u64);
    Ok((name, SecretPayload::new(json, SecretType::Json)))
}

/// The texts of the fields of a record just read: field `k` spans
/// `output[ends[k-1]..ends[k]]` (from 0 for the first), and must be UTF-8.
#[verifier::rlimit(40)]
fn record_values(output: &Vec<u8>, ends: &Vec<usize>, fields: usize, written: usize) -> (r: Result<Vec<String>, &'static str>)
    requires
        fields <= ends@.len(),
        written <= output@.len(),
    ensures
        match fields_of(output@.take(written as int), ends@.take(fields as int)) {
            Some(f) => match row_texts(f) {
                Some(t) => r matches Ok(v) && texts(v@) == t,
                None => r matches Err(m) && m@ == invalid_message(),
            },
            None => r matches Err(m) && m@ == invalid_message(),
        },
{
    proof {
        reveal_strlit("Invalid browser CSV. No entries were imported.");
    }
    let ghost out = output@.take(written as int);
    let ghost es = ends@.take(fields as int);
    let mut values: Vec<String> = Vec::new();
    let mut start: usize = 0;
    let mut k: usize = 0;
    while k < fields
        invariant
            k <= fields <= ends@.len(),
            written <= output@.len(),
            out == output@.take(written as int),
            es == ends@.take(fields as int),
            start as int == field_start(es, k as int),
            start <= written,
            values@.len() == k,
            forall|j: int| 0 <= j < k ==> field_start(es, j) <= #[trigger] es[j] <= out.len(),
            forall|j: int| 0 <= j < k ==> valid_utf8(out.subrange(field_start(es, j), #[trigger] es[j] as int))
                && values@[j]@ == decode_utf8(out.subrange(field_start(es, j), es[j] as int)),
        decreases fields - k,
    {
        let e = ends[k];
        assert(es[k as int] == e);
        if e < start || e > written {
            assert(fields_of(out, es) is None);
            return Err("Invalid browser CSV. No entries were imported.");
        }
        let field = slice_subrange(output.as_slice(), start, e);
        assert(field@ =~= out.subrange(start as int, e as int));
        match utf8_text(field) {
            Some(t) => values.push(t.to_owned()),
            None => {
                proof {
                    if fields_of(out, es) is Some {
                        let f = fields_of(out, es)->0;
                        assert(f[k as int] == out.subrange(field_start(es, k as int), es[k as int] as int));
                        assert(!valid_utf8(f[k as int]));
                        assert(row_texts(f) is None);
                    }
                }
                return Err("Invalid browser CSV. No entries were imported.");
            },
        }
        start = e;
        k = k + 1;
    }
    proof {
        assert(fields_of(out, es) is Some);
        let f = fields_of(out, es)->0;
        assert forall|j: int| 0 <= j < f.len() implies valid_utf8(#[trigger] f[j]) by {
            assert(f[j] == out.subrange(field_start(es, j), es[j] as int));
        }
        assert(texts(values@) =~= f.map_values(|b: Seq<u8>| decode_utf8(b))) by {
            assert forall|j: int| 0 <= j < f.len() implies texts(values@)[j] == decode_utf8(#[trigger] f[j]) by {
                assert(f[j] == out.subrange(field_start(es, j), es[j] as int));
            }
        }
    }
    Ok(values)
}

/// Turns the rows of an export into vault entries: the first row is the
/// header, and each further row becomes entry `{prefix}-{i:04}` holding the
/// JSON text of its columns. Nothing is returned unless every row is valid.
pub fn import_records(rows: &Vec<Vec<String>>, prefix: &str) -> (r: Result<Vec<(String, SecretPayload)>, &'static str>)
    ensures
        r is Ok <==> is_valid_import(rows_view(rows@)),
        r matches Err(m) ==> m@ == invalid_message(),
        r matches Ok(entries) ==> header_of(rows_view(rows@)[0]) matches Some(cols)
            && imported(prefix@, cols, rows_view(rows@).skip(1), entries@),
{
    proof {
        reveal_strlit("Invalid browser CSV. No entries were imported.");
    }
    let ghost rv = rows_view(rows@);
    if rows.len() < 2 || rows.len() - 1 > MAX_RECORDS {
        return Err("Invalid browser CSV. No entries were imported.");
    }
    assert(rv[0] == texts(rows@[0]@));
    let cols = match header_columns(&rows[0]) {
        Some(c) => c,
        None => return Err("Invalid browser CSV. No entries were imported."),
    };
    let mut entries: Vec<(String, SecretPayload)> = Vec::new();
    let mut i: usize = 1;
    while i < rows.len()
        invariant
            1 <= i <= rows@.len() <= MAX_RECORDS + 1,
            rv == rows_view(rows@),
            header_of(rv[0]) == Some(cols@),
            is_valid_header(cols@),
            imported(prefix@, cols@, rv.subrange(1, i as int), entries@),
            forall|j: int| 1 <= j < i ==> is_record_for(cols@, #[trigger] rv[j]),
        decreases rows@.len() - i,
    {
        assert(rv[i as int] == texts(rows@[i as int]@));
        let e = match record_entry(prefix, i - 1, &cols, &rows[i]) {
            Ok(e) => e,
            Err(m) => return Err(m),
        };
        proof {
            assert(entries@.len() == i - 1);
            lemma_imported_push(prefix@, cols@, rv.subrange(1, i as int), entries@, rv[i as int], e);
            assert(rv.subrange(1, i as int).push(rv[i as int]) =~= rv.subrange(1, i + 1));
        }
        entries.push(e);
        i = i + 1;
    }
    assert(rv.subrange(1, rows@.len() as int) =~= rv.skip(1));
    Ok(entries)
}

/// `o` with `done` in front of the records it holds.
pub open spec fn after_rows(done: Seq<Seq<Seq<u8>>>, o: Option<Seq<Seq<Seq<u8>>>>) -> Option<Seq<Seq<Seq<u8>>>> {
    match o {
        Some(rest) => Some(done + rest),
        None => None,
    }
}

/// Turns a browser password export into vault entries: a header naming the
/// url, username and password columns (name and notes optional), then 1 to
/// 1000 records whose url and password are non-empty. The records are what
/// the CSV reader reads from the export without its byte order mark, the
/// last record terminated. Nothing is returned unless the whole export is
/// valid.
pub fn parse(bytes: &[u8], prefix: &str) -> (r: Result<Vec<(String, SecretPayload)>, &'static str>)
    ensures
        bytes@.len() == 0 || bytes@.len() > MAX_CSV_BYTES || !is_safe_label(prefix@) || encode_utf8(prefix@).len() > 48
            ==> (r matches Err(m) && m@ == invalid_message()),
        !(bytes@.len() == 0 || bytes@.len() > MAX_CSV_BYTES || !is_safe_label(prefix@) || encode_utf8(prefix@).len() > 48) ==> {
            &&& quote_scan(without_bom(bytes@)) is None ==> (r matches Err(m) && m@ == malformed_message())
            &&& quote_scan(without_bom(bytes@)) == Some(QuoteState::Quoted) ==> (r matches Err(m) && m@ == incomplete_message())
            &&& (quote_scan(without_bom(bytes@)) matches Some(q) && q != QuoteState::Quoted) ==> match export_rows(without_bom(bytes@)) {
                Some(rows) => {
                    &&& (r is Ok <==> is_valid_import(rows))
                    &&& (r matches Err(m) ==> m@ == invalid_message())
                    &&& (r matches Ok(entries) ==> header_of(rows[0]) matches Some(cols)
                        && imported(prefix@, cols, rows.skip(1), entries@))
                },
                None => r matches Err(m) && m@ == invalid_message(),
            }
        },
        r matches Err(m) ==> (m@ == invalid_message() || m@ == malformed_message() || m@ == incomplete_message()),
        r matches Ok(entries) ==> 1 <= entries@.len() <= MAX_RECORDS,
        r matches Ok(entries) ==> is_import(prefix@, entries@),
{
    proof {
        reveal_strlit("Invalid browser CSV. No entries were imported.");
        broadcast use vstd::utf8::group_utf8_lib;
    }
    if bytes.len() == 0 || bytes.len() > MAX_CSV_BYTES || !safe_label(prefix) || bytes_of(prefix).len() > 48 {
        return Err("Invalid browser CSV. No entries were imported.");
    }
    let body: &[u8] = if bytes.len() >= 3 && bytes[0] == 0xef && bytes[1] == 0xbb && bytes[2] == 0xbf {
        slice_subrange(bytes, 3, bytes.len())
    } else {
        bytes
    };
    assert(body@ == without_bom(bytes@));
    match strict_quotes(body) {
        Ok(()) => {},
        Err(m) => return Err(m),
    }
    let mut input: Vec<u8> = Vec::new();
    let mut c: usize = 0;
    while c < body.len()
        invariant
            c <= body@.len() <= MAX_CSV_BYTES,
            input@ == body@.take(c as int),
        decreases body@.len() - c,
    {
        input.push(body[c]);
        c = c + 1;
        assert(input@ =~= body@.take(c as int));
    }
    assert(body@.take(body@.len() as int) =~= body@);
    let ends_line = body.len() > 0 && (body[body.len() - 1] == 0x0a || body[body.len() - 1] == 0x0d);
    if !ends_line {
        input.push(0x0a);
    }
    assert(input@ == terminated(body@));
    let n = input.len();
    let mut output: Vec<u8> = vec![0u8; n + 1];
    let mut ends: Vec<usize> = vec![0usize; 6];
    let ghost out_len = (n + 1) as nat;
    let ghost full = input@;
    let limit: usize = 2 * n + 4;
    let mut pos: usize = 0;
    let mut rows: Vec<Vec<String>> = Vec::new();
    let ghost mut done: Seq<Seq<Seq<u8>>> = seq![];
    let mut steps: usize = 0;
    let mut finished = false;
    proof {
        if let Some(all) = csv_rows(full, out_len, limit as nat) {
            assert(done + all =~= all);
        }
        assert(full.skip(0) =~= full);
    }
    while steps < limit && !finished
        invariant
            full == input@,
            full == terminated(body@),
            body@ == without_bom(bytes@),
            !(bytes@.len() == 0 || bytes@.len() > MAX_CSV_BYTES || !is_safe_label(prefix@) || encode_utf8(prefix@).len() > 48),
            quote_scan(without_bom(bytes@)) matches Some(q) && q != QuoteState::Quoted,
            n == input@.len(),
            n <= MAX_CSV_BYTES + 1,
            limit == 2 * n + 4,
            out_len == n + 1,
            output@.len() == n + 1,
            ends@.len() == 6,
            pos <= n,
            steps <= limit,
            !finished ==> after_rows(done, csv_rows(full.skip(pos as int), out_len, (limit - steps) as nat))
                == csv_rows(full, out_len, limit as nat),
            finished ==> csv_rows(full, out_len, limit as nat) == Some(done),
            rows@.len() == done.len(),
            forall|i: int| 0 <= i < done.len() ==> (#[trigger] row_texts(done[i])) == Some(texts(rows@[i]@)),
        decreases limit - steps + (if finished { 0int } else { 1int }),
    {
        proof {
            reveal_strlit("Invalid browser CSV. No entries were imported.");
        }
        let ghost rest = full.skip(pos as int);
        let ghost fuel = (limit - steps) as nat;
        steps = steps + 1;
        let slice = slice_subrange(input.as_slice(), pos, n);
        assert(slice@ =~= rest);
        let res = csv_read_record(slice, output.as_mut_slice(), ends.as_mut_slice());
        let step = res.0;
        let used = res.1;
        let produced = res.2;
        let count = res.3;
        assert(full.skip(pos as int).skip(used as int) =~= full.skip(pos + used));
        match step {
            CsvStep::InputEmpty => {
                pos = pos + used;
            },
            CsvStep::End => {
                assert(csv_rows(rest, out_len, fuel) == Some(Seq::<Seq<Seq<u8>>>::empty()));
                assert(done + Seq::<Seq<Seq<u8>>>::empty() =~= done);
                finished = true;
            },
            CsvStep::OutputFull | CsvStep::OutputEndsFull => {
                assert(csv_rows(rest, out_len, fuel) is None);
                return Err("Invalid browser CSV. No entries were imported.");
            },
            CsvStep::Record => {
                let values = match record_values(&output, &ends, count, produced) {
                    Ok(v) => v,
                    Err(m) => {
                        proof {
                            let f0 = fields_of(output@.take(produced as int), ends@.take(count as int));
                            if let Some(f) = f0 {
                                if let Some(tail) = csv_rows(full.skip(pos + used), out_len, (fuel - 1) as nat) {
                                    let all = done + (seq![f] + tail);
                                    assert(csv_rows(full, out_len, limit as nat) == Some(all));
                                    assert(all[done.len() as int] == f);
                                    assert(row_texts(all[done.len() as int]) is None);
                                    assert(rows_texts(all) is None);
                                }
                            }
                        }
                        return Err(m);
                    },
                };
                proof {
                    let f = fields_of(output@.take(produced as int), ends@.take(count as int))->0;
                    match csv_rows(full.skip(pos + used), out_len, (fuel - 1) as nat) {
                        Some(tail) => {
                            assert(done + (seq![f] + tail) =~= done.push(f) + tail);
                        },
                        None => {},
                    }
                    done = done.push(f);
                }
                rows.push(values);
                pos = pos + used;
            },
        }
    }
    if !finished {
        proof {
            assert(csv_rows(full.skip(pos as int), out_len, 0) is None);
        }
        return Err("Invalid browser CSV. No entries were imported.");
    }
    proof {
        assert forall|i: int| 0 <= i < done.len() implies (#[trigger] row_texts(done[i])) is Some by {}
        assert(rows_texts(done) == Some(rows_view(rows@))) by {
            assert(done.map_values(|r: Seq<Seq<u8>>| row_texts(r)->0) =~= rows_view(rows@));
        }
        assert(export_rows(body@) == Some(rows_view(rows@)));
    }
    let result = import_records(&rows, prefix);
    proof {
        if result is Ok {
            let entries = result->Ok_0;
            let rv = rows_view(rows@);
            let cols = header_of(rv[0])->0;
            assert(is_valid_header(cols));
            assert(imported(prefix@, cols, rv.skip(1), entries@));
            assert(is_import(prefix@, entries@));
        }
    }
    result
}

/// The checks made before an export is read: the user's explicit consent,
/// an unlocked vault, and a prefix of 1 to 48 label bytes.
pub fn check_import_request(consent: bool, unlocked: bool, prefix: &str) -> (r: Result<(), &'static str>)
    ensures
        !consent ==> (r matches Err(m) && m@ == "Explicit import consent is required."@),
        consent && !unlocked ==> (r matches Err(m) && m@ == "Unlock the vault before importing."@),
        consent && unlocked && !(is_safe_label(prefix@) && encode_utf8(prefix@).len() <= 48)
            ==> (r matches Err(m) && m@ == "Use a unique import prefix of 1–48 letters, numbers, dots, dashes or underscores."@),
        consent && unlocked && is_safe_label(prefix@) && encode_utf8(prefix@).len() <= 48 ==> r is Ok,
{
    proof {
        reveal_strlit("Explicit import consent is required.");
        reveal_strlit("Unlock the vault before importing.");
        reveal_strlit("Use a unique import prefix of 1–48 letters, numbers, dots, dashes or underscores.");
        broadcast use vstd::utf8::group_utf8_lib;
    }
    if !consent {
        return Err("Explicit import consent is required.");
    }
    if !unlocked {
        return Err("Unlock the vault before importing.");
    }
    if !safe_label(prefix) || bytes_of(prefix).len() > 48 {
        return Err("Use a unique import prefix of 1–48 letters, numbers, dots, dashes or underscores.");
    }
    Ok(())
}

/// The selected file must be a regular file of at most 8 MiB.
pub fn check_import_file(is_file: bool, len: u64) -> (r: Result<(), &'static str>)
    ensures
        r is Ok <==> (is_file && len <= MAX_CSV_BYTES),
        r matches Err(m) ==> m@ == "Select a regular CSV file no larger than 8 MiB."@,
{
    proof {
        reveal_strlit("Select a regular CSV file no larger than 8 MiB.");
    }
    if !is_file || len > MAX_CSV_BYTES as u64 {
        return Err("Select a regular CSV file no larger than 8 MiB.");
    }
    Ok(())
}

} // verus!
