//! The batching sinkers: how a batch is cut into windows, the StarRocks
//! stream-load request for a window and the check of its response, and the
//! Kafka topic routing and delivery check.

use vstd::prelude::*;
use vstd::utf8::{decode_utf8, encode_utf8, valid_utf8};

use crate::cdc::utf8_text;
use crate::codec::{
    dec_text, hex_char, hex_value, is_digit, is_hex_digit, lemma_hex_char_value, lemma_text_round_trip,
    push_decimal, push_value_text, signed_text, text_decodes, text_form_fits, value_fits_type,
    value_text,
};
use crate::model::{cv_eq, ColType, ColValue, ColValues, DtError, RowData, RowType};
use crate::monitor::Monitor;

verus! {

/// Whether `w` cuts `n` rows into windows as the batching loop does:
/// contiguous windows of `batch_size` rows from the start, the last one
/// holding what is left; no window at all for a batch size of zero.
pub open spec fn windows_cut(w: Seq<(usize, usize)>, n: nat, batch_size: nat) -> bool {
    if batch_size == 0 || n == 0 {
        w.len() == 0
    } else {
        &&& w.len() > 0
        &&& w[0].0 == 0
        &&& forall|i: int| 0 <= i < w.len() - 1 ==> #[trigger] w[i + 1].0 == w[i].0 + w[i].1
        &&& forall|i: int| 0 <= i < w.len() - 1 ==> #[trigger] w[i].1 == batch_size
        &&& 0 < w.last().1 <= batch_size
        &&& w.last().0 + w.last().1 == n
    }
}

/// Cuts `all_count` rows into windows of at most `batch_size`, as
/// (start, length) pairs.
pub fn batch_windows(all_count: usize, batch_size: usize) -> (r: Vec<(usize, usize)>)
    ensures
        windows_cut(r@, all_count as nat, batch_size as nat),
{
    let mut r: Vec<(usize, usize)> = Vec::new();
    let mut sinked_count: usize = 0;
    if batch_size == 0 {
        return r;
    }
    while sinked_count < all_count
        invariant
            batch_size > 0,
            sinked_count <= all_count,
            r@.len() == 0 <==> sinked_count == 0,
            r@.len() > 0 ==> r@[0].0 == 0,
            r@.len() > 0 ==> r@.last().0 + r@.last().1 == sinked_count,
            r@.len() > 0 ==> 0 < r@.last().1 <= batch_size,
            forall|i: int| 0 <= i < r@.len() - 1 ==> #[trigger] r@[i + 1].0 == r@[i].0 + r@[i].1,
            forall|i: int| 0 <= i < r@.len() - 1 ==> #[trigger] r@[i].1 == batch_size,
            r@.len() > 0 && sinked_count < all_count ==> r@.last().1 == batch_size,
        decreases all_count - sinked_count,
    {
        let mut size = batch_size;
        if all_count - sinked_count < batch_size {
            size = all_count - sinked_count;
        }
        let ghost before = r@;
        r.push((sinked_count, size));
        assert forall|i: int| 0 <= i < r@.len() - 1 implies #[trigger] r@[i].1 == batch_size by {
            if i < before.len() - 1 {
                assert(r@[i] == before[i]);
            } else {
                assert(r@[i] == before.last());
            }
        }
        assert forall|i: int| 0 <= i < r@.len() - 1 implies #[trigger] r@[i + 1].0 == r@[i].0
            + r@[i].1 by {
            if i < before.len() - 1 {
                assert(r@[i] == before[i] && r@[i + 1] == before[i + 1]);
            } else {
                assert(r@[i] == before.last());
            }
        }
        sinked_count = sinked_count + size;
    }
    r
}

/// Whether `w` hands each of `n` rows alone, in order.
pub open spec fn windows_serial(w: Seq<(usize, usize)>, n: nat) -> bool {
    &&& w.len() == n
    &&& forall|i: int| 0 <= i < n ==> #[trigger] w[i] == (i as usize, 1usize)
}

/// One window per row.
pub fn serial_windows(all_count: usize) -> (r: Vec<(usize, usize)>)
    ensures
        windows_serial(r@, all_count as nat),
{
    let mut r: Vec<(usize, usize)> = Vec::new();
    let mut i: usize = 0;
    while i < all_count
        invariant
            i <= all_count,
            windows_serial(r@, i as nat),
        decreases all_count - i,
    {
        r.push((i, 1));
        i = i + 1;
    }
    r
}

/// How JSON writes one character of a string: a backslash before `"` and
/// `\`, the short escapes `\b \t \n \f \r`, `\u00XX` in lower-case
/// hexadecimal for the other control characters, any other character as it
/// is.
pub open spec fn json_escape_char(c: char) -> Seq<char> {
    if c == '"' {
        seq!['\\', '"']
    } else if c == '\\' {
        seq!['\\', '\\']
    } else if c == '\u{8}' {
        seq!['\\', 'b']
    } else if c == '\t' {
        seq!['\\', 't']
    } else if c == '\n' {
        seq!['\\', 'n']
    } else if c == '\u{c}' {
        seq!['\\', 'f']
    } else if c == '\r' {
        seq!['\\', 'r']
    } else if (c as u32) < 0x20 {
        seq!['\\', 'u', '0', '0', hex_char((c as u32 / 16) as int), hex_char((c as u32 % 16) as int)]
    } else {
        seq![c]
    }
}

/// The escaped characters of a string.
pub open spec fn json_escaped(s: Seq<char>) -> Seq<char>
    decreases s.len(),
{
    if s.len() == 0 {
        Seq::empty()
    } else {
        json_escape_char(s[0]) + json_escaped(s.drop_first())
    }
}

/// The JSON string literal of a text: its escaped characters in quotes.
pub open spec fn json_quoted(s: Seq<char>) -> Seq<char> {
    seq!['"'] + json_escaped(s) + seq!['"']
}

/// Relies on `serde_json::to_string` of a `str`: the JSON string literal of
/// the text, escaped as `format_escaped_str` does (it cannot fail on a
/// `str`).
#[verifier::external_body]
fn json_quote(s: &str) -> (r: String)
    ensures
        r@ == json_quoted(s@),
{
    match serde_json::to_string(s) {
        Ok(q) => q,
        Err(_) => String::new(),
    }
}

/// What the JSON object of a key names in `text` holds as a string.
pub uninterp spec fn json_str_field_of(text: Seq<char>, key: Seq<char>) -> Option<Seq<char>>;

/// Relies on `serde_json::from_str`, `Value::get` and `Value::as_str`: the
/// string that the JSON document `text` holds under `key`; `None` if the
/// text is not JSON, has no such key, or holds something else there.
#[verifier::external_body]
fn json_str_field(text: &str, key: &str) -> (r: Option<String>)
    ensures
        r is Some <==> json_str_field_of(text@, key@) is Some,
        r matches Some(s) ==> json_str_field_of(text@, key@) == Some(s@),
{
    match serde_json::from_str::<serde_json::Value>(text) {
        Ok(v) => match v.get(key) {
            Some(field) => match field.as_str() {
                Some(s) => Some(s.to_string()),
                None => None,
            },
            None => None,
        },
        Err(_) => None,
    }
}

/// The JSON of a column value: `null`, a number or a boolean as its text,
/// bytes as a string of their UTF-8 text (of their hexadecimal text when
/// they are not UTF-8), anything else as a string of its text.
pub open spec fn json_value(v: ColValue) -> Seq<char> {
    match v {
        ColValue::Null => seq!['n', 'u', 'l', 'l'],
        ColValue::Blob(b) => if valid_utf8(b@) {
            json_quoted(decode_utf8(b@))
        } else {
            json_quoted(value_text(v))
        },
        ColValue::Bool(_) | ColValue::Tiny(_) | ColValue::Short(_) | ColValue::Long(_)
        | ColValue::LongLong(_) | ColValue::UnsignedTiny(_) | ColValue::UnsignedShort(_)
        | ColValue::UnsignedLong(_) | ColValue::UnsignedLongLong(_) | ColValue::Year(_)
        | ColValue::Bit(_) => value_text(v),
        _ => json_quoted(value_text(v)),
    }
}

/// The character a JSON short escape `\x` stands for.
pub open spec fn short_escape_value(c: char) -> Option<char> {
    if c == '"' {
        Some('"')
    } else if c == '\\' {
        Some('\\')
    } else if c == '/' {
        Some('/')
    } else if c == 'b' {
        Some('\u{8}')
    } else if c == 'f' {
        Some('\u{c}')
    } else if c == 'n' {
        Some('\n')
    } else if c == 'r' {
        Some('\r')
    } else if c == 't' {
        Some('\t')
    } else {
        None
    }
}

/// Whether the inside `e` of a JSON string literal reads as the text `s`:
/// unescaped characters stand for themselves, a short escape for its
/// character, `\uXXXX` for the character of that code; a bare `"` does not
/// occur.
pub open spec fn json_str_denotes(e: Seq<char>, s: Seq<char>) -> bool
    decreases e.len(),
{
    if e.len() == 0 {
        s.len() == 0
    } else if e[0] == '\\' {
        if e.len() >= 2 && short_escape_value(e[1]) is Some {
            s.len() > 0 && s[0] == short_escape_value(e[1])->0 && json_str_denotes(
                e.subrange(2, e.len() as int),
                s.drop_first(),
            )
        } else if e.len() >= 6 && e[1] == 'u' && is_hex_digit(e[2]) && is_hex_digit(e[3])
            && is_hex_digit(e[4]) && is_hex_digit(e[5]) {
            s.len() > 0 && s[0] as u32 == hex_value(e[2]) * 4096 + hex_value(e[3]) * 256
                + hex_value(e[4]) * 16 + hex_value(e[5]) && json_str_denotes(
                e.subrange(6, e.len() as int),
                s.drop_first(),
            )
        } else {
            false
        }
    } else if e[0] == '"' {
        false
    } else {
        s.len() > 0 && s[0] == e[0] && json_str_denotes(e.drop_first(), s.drop_first())
    }
}

/// How a stream-load target reads back a column value of type `t` from the
/// JSON text `j`: a string literal by its text (the UTF-8 bytes of it for a
/// binary column), anything else as the value text itself.
pub open spec fn json_reads_as(t: ColType, j: Seq<char>, w: ColValue) -> bool {
    if j.len() >= 2 && j[0] == '"' && j.last() == '"' {
        exists|s: Seq<char>|
            #[trigger] json_str_denotes(j.subrange(1, j.len() - 1), s) && if t == ColType::Blob
                || t == ColType::Binary || t == ColType::VarBinary {
                w matches ColValue::Blob(x) && x@ == encode_utf8(s)
            } else {
                text_decodes(t, s, w)
            }
    } else {
        text_decodes(t, j, w)
    }
}

proof fn lemma_escaped_denotes(s: Seq<char>)
    ensures
        json_str_denotes(json_escaped(s), s),
    decreases s.len(),
{
    if s.len() > 0 {
        lemma_escaped_denotes(s.drop_first());
        let c = s[0];
        let rest = json_escaped(s.drop_first());
        let e = json_escaped(s);
        let k = json_escape_char(c).len();
        assert(e == json_escape_char(c) + rest);
        assert(e.subrange(k as int, e.len() as int) =~= rest);
        if (c as u32) < 0x20 && c != '\u{8}' && c != '\t' && c != '\n' && c != '\u{c}' && c != '\r' {
            lemma_hex_char_value((c as u32 / 16) as int);
            lemma_hex_char_value((c as u32 % 16) as int);
            assert(e[2] == '0' && e[3] == '0');
            assert(e[1] == 'u');
            assert(short_escape_value(e[1]) is None);
        } else if c == '"' || c == '\\' || c == '\u{8}' || c == '\t' || c == '\n' || c == '\u{c}'
            || c == '\r' {
            assert(e[0] == '\\');
        } else {
            assert(e[0] == c);
            assert(e.drop_first() =~= rest);
        }
    }
}

proof fn lemma_denotes_unique(e: Seq<char>, s1: Seq<char>, s2: Seq<char>)
    requires
        json_str_denotes(e, s1),
        json_str_denotes(e, s2),
    ensures
        s1 == s2,
    decreases e.len(),
{
    if e.len() > 0 {
        if e[0] == '\\' {
            if e.len() >= 2 && short_escape_value(e[1]) is Some {
                lemma_denotes_unique(e.subrange(2, e.len() as int), s1.drop_first(), s2.drop_first());
            } else {
                lemma_denotes_unique(e.subrange(6, e.len() as int), s1.drop_first(), s2.drop_first());
                let u = s1[0] as u32;
                vstd::utf8::char_u32_cast(s1[0], u);
                vstd::utf8::char_u32_cast(s2[0], u);
            }
        } else {
            lemma_denotes_unique(e.drop_first(), s1.drop_first(), s2.drop_first());
        }
        assert(s1 =~= seq![s1[0]] + s1.drop_first());
        assert(s2 =~= seq![s2[0]] + s2.drop_first());
    }
}

proof fn lemma_quoted_reads_back(x: Seq<char>)
    ensures
        ({
            let j = json_quoted(x);
            &&& j.len() >= 2 && j[0] == '"' && j.last() == '"'
            &&& json_str_denotes(j.subrange(1, j.len() - 1), x)
            &&& forall|s: Seq<char>| #[trigger] json_str_denotes(j.subrange(1, j.len() - 1), s) ==> s == x
        }),
{
    let j = json_quoted(x);
    assert(j.subrange(1, j.len() - 1) =~= json_escaped(x));
    lemma_escaped_denotes(x);
    assert forall|s: Seq<char>| #[trigger] json_str_denotes(j.subrange(1, j.len() - 1), s) implies s
        == x by {
        lemma_denotes_unique(json_escaped(x), s, x);
    }
}

/// A column value written into a stream-load body and read back from that
/// JSON at its column's type is the same value: exactly for numbers, text,
/// decimal, enum, set, JSON and UTF-8 bytes, and to the microsecond for
/// temporal values whose fields fit their text.
pub proof fn lemma_json_round_trip(t: ColType, v: ColValue)
    requires
        value_fits_type(v, t),
        text_form_fits(v),
        v matches ColValue::Blob(b) ==> valid_utf8(b@),
    ensures
        json_reads_as(t, json_value(v), v),
        forall|w: ColValue| #[trigger] json_reads_as(t, json_value(v), w) ==> cv_eq(w, v),
{
    lemma_text_round_trip(t, v);
    let x = value_text(v);
    match v {
        ColValue::Blob(b) => {
            let d = decode_utf8(b@);
            lemma_quoted_reads_back(d);
            vstd::utf8::decode_utf8_encode_utf8(b@);
            let j = json_quoted(d);
            assert(json_str_denotes(j.subrange(1, j.len() - 1), d));
        },
        ColValue::Bool(_) | ColValue::Tiny(_) | ColValue::Short(_) | ColValue::Long(_)
        | ColValue::LongLong(_) | ColValue::UnsignedTiny(_) | ColValue::UnsignedShort(_)
        | ColValue::UnsignedLong(_) | ColValue::UnsignedLongLong(_) | ColValue::Year(_)
        | ColValue::Bit(_) => {
            lemma_value_text_not_quoted(v);
        },
        _ => {
            lemma_quoted_reads_back(x);
            let j = json_quoted(x);
            assert(json_str_denotes(j.subrange(1, j.len() - 1), x));
        },
    }
}

proof fn lemma_value_text_not_quoted(v: ColValue)
    requires
        v is Bool || v is Tiny || v is Short || v is Long || v is LongLong || v is UnsignedTiny
            || v is UnsignedShort || v is UnsignedLong || v is UnsignedLongLong || v is Year
            || v is Bit,
    ensures
        value_text(v).len() > 0 && value_text(v)[0] != '"',
{
    match v {
        ColValue::Tiny(n) => lemma_signed_first(n as int),
        ColValue::Short(n) => lemma_signed_first(n as int),
        ColValue::Long(n) => lemma_signed_first(n as int),
        ColValue::LongLong(n) => lemma_signed_first(n as int),
        ColValue::UnsignedTiny(n) => lemma_dec_first(n as nat),
        ColValue::UnsignedShort(n) => lemma_dec_first(n as nat),
        ColValue::UnsignedLong(n) => lemma_dec_first(n as nat),
        ColValue::UnsignedLongLong(n) => lemma_dec_first(n as nat),
        ColValue::Year(n) => lemma_dec_first(n as nat),
        ColValue::Bit(n) => lemma_dec_first(n as nat),
        _ => {},
    }
}

proof fn lemma_dec_first(n: nat)
    ensures
        dec_text(n).len() > 0 && is_digit(dec_text(n)[0]),
    decreases n,
{
    if n >= 10 {
        lemma_dec_first(n / 10);
        assert(dec_text(n)[0] == dec_text(n / 10)[0]);
    }
}

proof fn lemma_signed_first(v: int)
    ensures
        signed_text(v).len() > 0 && signed_text(v)[0] != '"',
{
    if v >= 0 {
        lemma_dec_first(v as nat);
    }
}

/// The members of a JSON object of column values, comma-separated.
pub open spec fn json_members(vals: Seq<(String, ColValue)>) -> Seq<char>
    decreases vals.len(),
{
    if vals.len() == 0 {
        Seq::empty()
    } else {
        let m = json_quoted(vals.last().0@) + seq![':'] + json_value(vals.last().1);
        if vals.len() == 1 {
            m
        } else {
            json_members(vals.drop_last()) + seq![','] + m
        }
    }
}

/// The JSON object of column values, in their order.
pub open spec fn json_object(vals: Seq<(String, ColValue)>) -> Seq<char> {
    seq!['{'] + json_members(vals) + seq!['}']
}

/// The image a stream load sends of a row: the before image of a delete,
/// the after image otherwise.
pub open spec fn load_image(r: RowData, delete: bool) -> Seq<(String, ColValue)> {
    if delete {
        r.before->0@
    } else {
        r.after->0@
    }
}

/// Whether every row of a window has the image a stream load sends.
pub open spec fn window_has_images(rows: Seq<RowData>, start: int, len: int, delete: bool) -> bool {
    forall|i: int|
        start <= i < start + len ==> if delete {
            (#[trigger] rows[i]).before is Some
        } else {
            rows[i].after is Some
        }
}

/// The objects of the first `k` rows of a window, comma-separated.
pub open spec fn json_rows(rows: Seq<RowData>, start: int, k: int, delete: bool) -> Seq<char>
    decreases k,
{
    if k <= 0 {
        Seq::empty()
    } else if k == 1 {
        json_object(load_image(rows[start], delete))
    } else {
        json_rows(rows, start, k - 1, delete) + seq![','] + json_object(
            load_image(rows[start + k - 1], delete),
        )
    }
}

/// The body of a stream load: the JSON array of the window's images.
pub open spec fn load_body(rows: Seq<RowData>, start: int, len: int, delete: bool) -> Seq<char> {
    seq!['['] + json_rows(rows, start, len, delete) + seq![']']
}

/// The stream-load address of a table.
pub open spec fn load_url(host: Seq<char>, port: Seq<char>, db: Seq<char>, tb: Seq<char>) -> Seq<char> {
    "http://"@ + host + ":"@ + port + "/api/"@ + db + "/"@ + tb + "/_stream_load"@
}

/// The views of a list of headers.
pub open spec fn header_views(h: Seq<(String, String)>) -> Seq<(Seq<char>, Seq<char>)> {
    h.map_values(|p: (String, String)| (p.0@, p.1@))
}

/// The headers of a stream load: JSON format, an outer array, a continue
/// expectation, and for deletes the column that marks the operation.
pub open spec fn load_headers(delete: bool) -> Seq<(Seq<char>, Seq<char>)> {
    let base = seq![
        ("Expect"@, "100-continue"@),
        ("format"@, "json"@),
        ("strip_outer_array"@, "true"@),
    ];
    if delete {
        base.push(("columns"@, "__op='delete'"@))
    } else {
        base
    }
}

/// Sum that stops at `u64::MAX`, of the sizes of a window's rows.
pub open spec fn window_size(rows: Seq<RowData>, start: int, k: int) -> u64
    decreases k,
{
    if k <= 0 {
        0
    } else {
        crate::monitor::sat_add(window_size(rows, start, k - 1), rows[start + k - 1].data_size)
    }
}

/// A stream-load request, ready to be sent with HTTP PUT and basic
/// authentication.
pub struct StreamLoadRequest {
    pub url: String,
    pub username: String,
    /// No password is sent when the configured one is empty.
    pub password: Option<String>,
    pub headers: Vec<(String, String)>,
    pub body: String,
    /// The accounted size of the rows sent.
    pub data_size: u64,
}

/// The StarRocks sinker's configuration and counters.
pub struct StarRocksSinker {
    pub batch_size: usize,
    pub host: String,
    pub port: String,
    pub username: String,
    pub password: String,
    pub monitor: Monitor,
}

fn push_json_value(out: &mut String, v: &ColValue)
    ensures
        final(out)@ == old(out)@ + json_value(*v),
{
    proof {
        reveal_strlit("null");
    }
    match v {
        ColValue::Null => {
            out.append("null");
            assert(final(out)@ =~= old(out)@ + json_value(*v));
        },
        ColValue::Bool(_) | ColValue::Tiny(_) | ColValue::Short(_) | ColValue::Long(_)
        | ColValue::LongLong(_) | ColValue::UnsignedTiny(_) | ColValue::UnsignedShort(_)
        | ColValue::UnsignedLong(_) | ColValue::UnsignedLongLong(_) | ColValue::Year(_)
        | ColValue::Bit(_) => {
            push_value_text(out, v);
        },
        ColValue::Blob(b) => {
            let t = match utf8_text(b) {
                Some(text) => text,
                None => crate::codec::value_to_text(v),
            };
            let q = json_quote(t.as_str());
            out.append(q.as_str());
        },
        _ => {
            let t = crate::codec::value_to_text(v);
            let q = json_quote(t.as_str());
            out.append(q.as_str());
        },
    }
}

fn push_json_object(out: &mut String, vals: &ColValues)
    ensures
        final(out)@ == old(out)@ + json_object(vals@),
{
    proof {
        reveal_strlit("{");
        reveal_strlit("}");
        reveal_strlit(",");
        reveal_strlit(":");
    }
    assert(","@ =~= seq![',']);
    assert(":"@ =~= seq![':']);
    out.append("{");
    let ghost start = out@;
    let mut i: usize = 0;
    assert(vals@.subrange(0, 0) =~= Seq::<(String, ColValue)>::empty());
    while i < vals.len()
        invariant
            i <= vals@.len(),
            out@ == start + json_members(vals@.subrange(0, i as int)),
        decreases vals.len() - i,
    {
        proof {
            reveal_strlit(",");
            reveal_strlit(":");
        }
        assert(","@ =~= seq![',']);
        assert(":"@ =~= seq![':']);
        let ghost prev = out@;
        if i > 0 {
            out.append(",");
        }
        let ghost with_comma = out@;
        let key = json_quote(vals[i].0.as_str());
        out.append(key.as_str());
        out.append(":");
        push_json_value(out, &vals[i].1);
        let ghost m = json_quoted(vals@[i as int].0@) + seq![':'] + json_value(vals@[i as int].1);
        assert(out@ =~= with_comma + m);
        i = i + 1;
        let ghost sub = vals@.subrange(0, i as int);
        assert(sub.drop_last() =~= vals@.subrange(0, i - 1));
        assert(sub.last() == vals@[i - 1]);
        if i == 1 {
            assert(with_comma == prev);
            assert(vals@.subrange(0, 0) =~= Seq::<(String, ColValue)>::empty());
            assert(json_members(sub) == m);
        } else {
            assert(with_comma =~= prev + seq![',']);
            assert(json_members(sub) == json_members(vals@.subrange(0, i - 1)) + seq![','] + m);
        }
        assert(out@ =~= start + json_members(sub));
    }
    assert(vals@.subrange(0, vals@.len() as int) =~= vals@);
    out.append("}");
    assert(final(out)@ =~= old(out)@ + json_object(vals@));
}

impl StarRocksSinker {
    /// A sinker for the stream-load service at `host:port`, writing at most
    /// `batch_size` rows per load; a configuration error for a batch size of
    /// zero, with which no row would ever be written.
    pub fn new(batch_size: usize, host: String, port: String, username: String, password: String) -> (r: Result<
        StarRocksSinker,
        DtError,
    >)
        ensures
            batch_size == 0 <==> r is Err,
            r matches Err(e) ==> e is Config,
            r matches Ok(s) ==> s.batch_size == batch_size && s.host == host && s.port == port
                && s.username == username && s.password == password && s.monitor
                == Monitor::new_spec(),
    {
        if batch_size == 0 {
            return Err(DtError::Config("batch_size must be positive".to_string()));
        }
        Ok(StarRocksSinker { batch_size, host, port, username, password, monitor: Monitor::new() })
    }

    /// Whether a batch goes out row by row: for updates, or when batching is
    /// off.
    pub fn is_serial(&self, data: &Vec<RowData>, batch: bool) -> (r: bool)
        ensures
            r == (data@.len() > 0 && (!batch || data@[0].row_type == RowType::Update)),
    {
        data.len() > 0 && (!batch || data[0].row_type == RowType::Update)
    }

    /// The windows a batch goes out in: one stream load per window of at
    /// most `batch_size` inserts or deletes, one per row for updates or
    /// when batching is off.
    pub fn sink_windows(&self, data: &Vec<RowData>, batch: bool) -> (r: Vec<(usize, usize)>)
        requires
            self.batch_size > 0,
        ensures
            data@.len() == 0 ==> r@.len() == 0,
            data@.len() > 0 && batch && data@[0].row_type != RowType::Update ==> windows_cut(
                r@,
                data@.len(),
                self.batch_size as nat,
            ),
            data@.len() > 0 && (!batch || data@[0].row_type == RowType::Update) ==> windows_serial(
                r@,
                data@.len(),
            ),
    {
        if data.len() == 0 {
            return Vec::new();
        }
        if !batch {
            return serial_windows(data.len());
        }
        match data[0].row_type {
            RowType::Insert | RowType::Delete => batch_windows(data.len(), self.batch_size),
            RowType::Update => serial_windows(data.len()),
        }
    }

    /// The stream-load request for the window `start..start + len` of a
    /// batch: deletes if its first row is a delete, upserts otherwise. A
    /// sink error if a row of the window lacks the image to send.
    pub fn build_request(&self, data: &Vec<RowData>, start: usize, len: usize) -> (r: Result<StreamLoadRequest, DtError>)
        requires
            len > 0,
            start + len <= data@.len(),
        ensures
            ({
                let delete = data@[start as int].row_type == RowType::Delete;
                let first = data@[start as int];
                &&& r is Ok <==> window_has_images(data@, start as int, len as int, delete)
                &&& r matches Err(e) ==> e is Sink
                &&& r matches Ok(req) ==> {
                    &&& req.url@ == load_url(self.host@, self.port@, first.schema@, first.tb@)
                    &&& req.username == self.username
                    &&& (self.password@.len() == 0 ==> req.password is None)
                    &&& (self.password@.len() > 0 ==> req.password == Some(self.password))
                    &&& header_views(req.headers@) == load_headers(delete)
                    &&& req.body@ == load_body(data@, start as int, len as int, delete)
                    &&& req.data_size == window_size(data@, start as int, len as int)
                }
            }),
    {
        proof {
            reveal_strlit("[");
            reveal_strlit("]");
            reveal_strlit(",");
        }
        assert(","@ =~= seq![',']);
        let n = data.len();
        let delete = data[start].row_type == RowType::Delete;
        let mut body = String::new();
        body.append("[");
        let ghost b0 = body@;
        let mut data_size: u64 = 0;
        let mut k: usize = 0;
        while k < len
            invariant
                len > 0,
                n == data@.len(),
                start + len <= n,
                delete == (data@[start as int].row_type == RowType::Delete),
                k <= len,
                window_has_images(data@, start as int, k as int, delete),
                body@ == b0 + json_rows(data@, start as int, k as int, delete),
                data_size == window_size(data@, start as int, k as int),
            decreases len - k,
        {
            let row = &data[start + k];
            let image = if delete {
                &row.before
            } else {
                &row.after
            };
            proof {
                reveal_strlit(",");
            }
            assert(","@ =~= seq![',']);
            let ghost prev = body@;
            match image {
                Some(vals) => {
                    if k > 0 {
                        body.append(",");
                    }
                    let ghost with_comma = body@;
                    push_json_object(&mut body, vals);
                    assert(data@[start + k] == *row);
                    assert(load_image(data@[start + k], delete) == vals@);
                    if k == 0 {
                        assert(with_comma == prev);
                    } else {
                        assert(with_comma =~= prev + seq![',']);
                    }
                },
                None => {
                    assert(!window_has_images(data@, start as int, len as int, delete)) by {
                        assert(data@[start + k] == *row);
                    }
                    return Err(DtError::Sink("row lacks the image to load".to_string()));
                },
            }
            data_size = if row.data_size > u64::MAX - data_size {
                u64::MAX
            } else {
                data_size + row.data_size
            };
            k = k + 1;
            assert(body@ =~= b0 + json_rows(data@, start as int, k as int, delete));
        }
        body.append("]");
        assert(body@ =~= load_body(data@, start as int, len as int, delete));
        let first = &data[start];
        let mut url = String::new();
        url.append("http://");
        url.append(self.host.as_str());
        url.append(":");
        url.append(self.port.as_str());
        url.append("/api/");
        url.append(first.schema.as_str());
        url.append("/");
        url.append(first.tb.as_str());
        url.append("/_stream_load");
        assert(url@ =~= load_url(self.host@, self.port@, first.schema@, first.tb@));
        let mut headers: Vec<(String, String)> = Vec::new();
        headers.push(("Expect".to_owned(), "100-continue".to_owned()));
        headers.push(("format".to_owned(), "json".to_owned()));
        headers.push(("strip_outer_array".to_owned(), "true".to_owned()));
        if delete {
            headers.push(("columns".to_owned(), "__op='delete'".to_owned()));
        }
        assert(header_views(headers@) =~= load_headers(delete));
        let password = if self.password.as_str().is_empty() {
            None
        } else {
            Some(self.password.clone())
        };
        Ok(
            StreamLoadRequest {
                url,
                username: self.username.clone(),
                password,
                headers,
                body,
                data_size,
            },
        )
    }

    /// Checks a stream load's outcome from its HTTP status, the `Status` its
    /// JSON response reports and the response text: success only for status
    /// 200 and `Success`. A failure names the status, and for status 200 the
    /// response too.
    pub fn check_load_status(status_code: u16, load_status: &Option<String>, body: &str) -> (r: Result<(), DtError>)
        ensures
            r is Ok <==> (status_code == 200 && (load_status matches Some(s) && s@ == "Success"@)),
            status_code != 200 ==> (r matches Err(DtError::Sink(m)) && m@ == status_error_text(
                status_code,
            )),
            r is Err && status_code == 200 ==> (r matches Err(DtError::Sink(m)) && m@
                == load_error_text(status_code, body@)),
    {
        if status_code != 200 {
            return Err(DtError::Sink(status_error(status_code)));
        }
        let success = "Success".to_owned();
        let ok = match load_status {
            Some(s) => *s == success,
            None => false,
        };
        if ok {
            Ok(())
        } else {
            let mut m = status_error(status_code);
            m.append(", load_result: ");
            m.append(body);
            Err(DtError::Sink(m))
        }
    }

    /// Checks a stream load's response: its HTTP status and the `Status`
    /// field of its JSON body. A failure names the status, and for status
    /// 200 the response too.
    pub fn check_response(status_code: u16, body: &str) -> (r: Result<(), DtError>)
        ensures
            r is Ok <==> status_code == 200 && json_str_field_of(body@, "Status"@) == Some(
                "Success"@,
            ),
            status_code != 200 ==> (r matches Err(DtError::Sink(m)) && m@ == status_error_text(
                status_code,
            )),
            r is Err && status_code == 200 ==> (r matches Err(DtError::Sink(m)) && m@
                == load_error_text(status_code, body@)),
    {
        if status_code != 200 {
            return Err(DtError::Sink(status_error(status_code)));
        }
        let status = json_str_field(body, "Status");
        StarRocksSinker::check_load_status(status_code, &status, body)
    }
}

/// The message of a stream load refused with an HTTP status.
pub open spec fn status_error_text(status_code: u16) -> Seq<char> {
    "stream load request failed, status_code: "@ + dec_text(status_code as nat)
}

/// The message of a stream load whose result is not a success.
pub open spec fn load_error_text(status_code: u16, body: Seq<char>) -> Seq<char> {
    status_error_text(status_code) + ", load_result: "@ + body
}

fn status_error(status_code: u16) -> (r: String)
    ensures
        r@ == status_error_text(status_code),
{
    let mut m = "stream load request failed, status_code: ".to_owned();
    push_decimal(&mut m, status_code as u64);
    m
}

/// The topic of a table: the first rule for its (schema, table), else the
/// default topic.
pub open spec fn topic_for(
    rules: Seq<(String, String, String)>,
    default_topic: Seq<char>,
    schema: Seq<char>,
    tb: Seq<char>,
) -> Seq<char>
    decreases rules.len(),
{
    if rules.len() == 0 {
        default_topic
    } else if rules[0].0@ == schema && rules[0].1@ == tb {
        rules[0].2@
    } else {
        topic_for(rules.drop_first(), default_topic, schema, tb)
    }
}

/// Routing rules from (schema, table) to a topic.
pub struct RdbRouter {
    /// (schema, table, topic) rules, the first match winning.
    pub topic_map: Vec<(String, String, String)>,
    pub default_topic: String,
}

impl RdbRouter {
    /// The topic of a table.
    pub fn get_topic(&self, schema: &String, tb: &String) -> (r: String)
        ensures
            r@ == topic_for(self.topic_map@, self.default_topic@, schema@, tb@),
    {
        let mut i: usize = 0;
        assert(self.topic_map@.subrange(0, self.topic_map@.len() as int) =~= self.topic_map@);
        while i < self.topic_map.len()
            invariant
                i <= self.topic_map@.len(),
                topic_for(self.topic_map@, self.default_topic@, schema@, tb@) == topic_for(
                    self.topic_map@.subrange(i as int, self.topic_map@.len() as int),
                    self.default_topic@,
                    schema@,
                    tb@,
                ),
            decreases self.topic_map.len() - i,
        {
            assert(self.topic_map@.subrange(i as int, self.topic_map@.len() as int).drop_first()
                =~= self.topic_map@.subrange(i + 1, self.topic_map@.len() as int));
            let rule = &self.topic_map[i];
            if rule.0 == *schema && rule.1 == *tb {
                return rule.2.clone();
            }
            i = i + 1;
        }
        self.default_topic.clone()
    }
}

/// The message of a batch whose delivery failed with `error`.
pub open spec fn producer_error_text(error: Seq<char>) -> Seq<char> {
    "failed in kafka producer, error: "@ + error
}

/// The Kafka sinker's configuration and counters.
pub struct RdkafkaSinker {
    pub batch_size: usize,
    pub router: RdbRouter,
    pub queue_timeout_secs: u64,
    pub monitor: Monitor,
}

impl RdkafkaSinker {
    /// The topic of each row of a batch, in order.
    pub fn topics(&self, data: &Vec<RowData>) -> (r: Vec<String>)
        ensures
            r@.len() == data@.len(),
            forall|i: int|
                0 <= i < data@.len() ==> #[trigger] r@[i]@ == topic_for(
                    self.router.topic_map@,
                    self.router.default_topic@,
                    data@[i].schema@,
                    data@[i].tb@,
                ),
    {
        let mut r: Vec<String> = Vec::new();
        let mut i: usize = 0;
        while i < data.len()
            invariant
                i <= data@.len(),
                r@.len() == i,
                forall|j: int|
                    0 <= j < i ==> #[trigger] r@[j]@ == topic_for(
                        self.router.topic_map@,
                        self.router.default_topic@,
                        data@[j].schema@,
                        data@[j].tb@,
                    ),
            decreases data.len() - i,
        {
            r.push(self.router.get_topic(&data[i].schema, &data[i].tb));
            i = i + 1;
        }
        r
    }

    /// The outcome of a batch from the delivery result of each record, in
    /// the order they were sent: a sink error if any delivery failed, a
    /// producer diagnostic naming the first failure.
    pub fn check_deliveries(results: &Vec<Result<(), String>>) -> (r: Result<(), DtError>)
        ensures
            r is Ok <==> forall|i: int| 0 <= i < results@.len() ==> #[trigger] results@[i] is Ok,
            r matches Err(e) ==> (e matches DtError::Sink(m) && exists|i: int|
                0 <= i < results@.len() && (#[trigger] results@[i] matches Err(x) && m@
                    == producer_error_text(x@)) && forall|j: int| 0 <= j < i ==> results@[j] is Ok),
    {
        let mut i: usize = 0;
        while i < results.len()
            invariant
                i <= results@.len(),
                forall|j: int| 0 <= j < i ==> #[trigger] results@[j] is Ok,
            decreases results.len() - i,
        {
            match &results[i] {
                Ok(()) => {},
                Err(m) => {
                    let mut msg = "failed in kafka producer, error: ".to_owned();
                    msg.append(m.as_str());
                    assert(results@[i as int] matches Err(x) && msg@ == producer_error_text(x@));
                    return Err(DtError::Sink(msg));
                },
            }
            i = i + 1;
        }
        Ok(())
    }
}

} // verus!
