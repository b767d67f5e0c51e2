//! Text forms of column values: the decimal and literal texts that the
//! logical-replication stream carries and that stream-load bodies hold.

use vstd::prelude::*;
use vstd::string::*;
use vstd::utf8::{decode_utf8, encode_utf8, valid_utf8};

use crate::cdc::utf8_text;

use crate::model::{cv_eq, ColType, ColValue, DateTimeValue, DateValue, TimeValue};

verus! {

/// Whether `c` is a decimal digit.
pub open spec fn is_digit(c: char) -> bool {
    '0' <= c <= '9'
}

/// The value of a decimal digit.
pub open spec fn digit_value(c: char) -> int {
    c as int - '0' as int
}

/// A non-empty run of decimal digits.
pub open spec fn is_digits(s: Seq<char>) -> bool {
    s.len() > 0 && forall|i: int| 0 <= i < s.len() ==> is_digit(#[trigger] s[i])
}

/// The number a run of decimal digits writes.
pub open spec fn digits_value(s: Seq<char>) -> int
    decreases s.len(),
{
    if s.len() == 0 {
        0
    } else {
        digits_value(s.drop_last()) * 10 + digit_value(s.last())
    }
}

/// The digit character of `d`.
pub open spec fn digit_char(d: nat) -> char {
    if d == 0 { '0' }
    else if d == 1 { '1' }
    else if d == 2 { '2' }
    else if d == 3 { '3' }
    else if d == 4 { '4' }
    else if d == 5 { '5' }
    else if d == 6 { '6' }
    else if d == 7 { '7' }
    else if d == 8 { '8' }
    else { '9' }
}

/// The decimal text of `n`, without leading zeros.
pub open spec fn dec_text(n: nat) -> Seq<char>
    decreases n,
{
    if n < 10 {
        seq![digit_char(n)]
    } else {
        dec_text(n / 10).push(digit_char(n % 10))
    }
}

/// The decimal text of a signed number: a minus sign before a negative one.
pub open spec fn signed_text(v: int) -> Seq<char> {
    if v < 0 {
        seq!['-'] + dec_text((-v) as nat)
    } else {
        dec_text(v as nat)
    }
}

/// The number a signed decimal text writes, if it is one.
pub open spec fn signed_value(s: Seq<char>) -> Option<int> {
    if s.len() > 0 && s[0] == '-' && is_digits(s.drop_first()) {
        Some(-digits_value(s.drop_first()))
    } else if is_digits(s) {
        Some(digits_value(s))
    } else {
        None
    }
}

/// The number a decimal text writes, if it is one and lies in `lo..=hi`.
pub open spec fn number_in(s: Seq<char>, lo: int, hi: int) -> Option<int> {
    match signed_value(s) {
        Some(v) => if lo <= v <= hi {
            Some(v)
        } else {
            None
        },
        None => None,
    }
}

proof fn lemma_digits_prefix_le(s: Seq<char>, k: int)
    requires
        is_digits(s),
        0 <= k <= s.len(),
    ensures
        digits_value(s.subrange(0, k)) <= digits_value(s),
        digits_value(s.subrange(0, k)) >= 0,
    decreases s.len() - k,
{
    if k < s.len() {
        lemma_digits_prefix_le(s, k + 1);
        assert(s.subrange(0, k + 1).drop_last() =~= s.subrange(0, k));
        assert(is_digit(s[k]));
    } else {
        assert(s.subrange(0, k) =~= s);
        lemma_digits_nonneg(s);
    }
}

proof fn lemma_digits_nonneg(s: Seq<char>)
    requires
        forall|i: int| 0 <= i < s.len() ==> is_digit(#[trigger] s[i]),
    ensures
        digits_value(s) >= 0,
    decreases s.len(),
{
    if s.len() > 0 {
        lemma_digits_nonneg(s.drop_last());
        assert(is_digit(s[s.len() - 1]));
    }
}

/// Reads a run of decimal digits from `s[from..]`; `None` unless it is a
/// non-empty run whose value fits in a `u64`.
fn parse_digits(s: &str, from: usize) -> (r: Option<u64>)
    requires
        from <= s@.len(),
    ensures
        ({
            let t = s@.subrange(from as int, s@.len() as int);
            &&& r matches Some(v) ==> is_digits(t) && v == digits_value(t)
            &&& r is None ==> !is_digits(t) || digits_value(t) > u64::MAX
        }),
{
    let n = s.unicode_len();
    let ghost t = s@.subrange(from as int, s@.len() as int);
    if from >= n {
        return None;
    }
    let mut acc: u64 = 0;
    let mut i: usize = from;
    while i < n
        invariant
            n == s@.len(),
            from < n,
            from <= i <= n,
            t == s@.subrange(from as int, n as int),
            forall|j: int| 0 <= j < i - from ==> is_digit(#[trigger] t[j]),
            acc == digits_value(t.subrange(0, i - from)),
        decreases n - i,
    {
        let c = s.get_char(i);
        assert(t[i - from] == c);
        if !('0' <= c && c <= '9') {
            return None;
        }
        let d = (c as u32 - '0' as u32) as u64;
        assert(t.subrange(0, i + 1 - from).drop_last() =~= t.subrange(0, i - from));
        if acc > 1844674407370955161 || (acc == 1844674407370955161 && d > 5) {
            proof {
                assert(is_digits(t) ==> digits_value(t) > u64::MAX) by {
                    if is_digits(t) {
                        lemma_digits_prefix_le(t, i + 1 - from);
                    }
                }
            }
            return None;
        }
        acc = acc * 10 + d;
        i = i + 1;
    }
    assert(t.subrange(0, n - from) =~= t);
    Some(acc)
}

/// Reads a signed decimal number that lies in `lo..=hi`.
pub fn parse_number(s: &str, lo: i64, hi: i64) -> (r: Option<i64>)
    ensures
        r matches Some(v) ==> number_in(s@, lo as int, hi as int) == Some(v as int),
        r is None ==> number_in(s@, lo as int, hi as int) is None,
{
    let n = s.unicode_len();
    if n > 0 && s.get_char(0) == '-' {
        assert(s@.subrange(1, s@.len() as int) =~= s@.drop_first());
        match parse_digits(s, 1) {
            Some(m) => {
                if m > 9223372036854775808 {
                    return None;
                }
                let v: i128 = -(m as i128);
                if v < lo as i128 || v > hi as i128 {
                    return None;
                }
                Some(v as i64)
            },
            None => None,
        }
    } else {
        assert(s@.subrange(0, s@.len() as int) =~= s@);
        match parse_digits(s, 0) {
            Some(m) => {
                if m > hi as u64 || hi < 0 || (m as i128) < lo as i128 {
                    return None;
                }
                Some(m as i64)
            },
            None => None,
        }
    }
}

/// Reads an unsigned decimal number no larger than `hi`.
pub fn parse_unsigned(s: &str, hi: u64) -> (r: Option<u64>)
    ensures
        r matches Some(v) ==> is_digits(s@) && v == digits_value(s@) && v <= hi,
        r is None ==> !(is_digits(s@) && digits_value(s@) <= hi),
{
    assert(s@.subrange(0, s@.len() as int) =~= s@);
    match parse_digits(s, 0) {
        Some(m) => if m <= hi {
            Some(m)
        } else {
            None
        },
        None => None,
    }
}

/// The number an unsigned decimal text writes, if it lies in `0..=hi`.
pub open spec fn unsigned_in(s: Seq<char>, hi: int) -> Option<int> {
    if is_digits(s) && digits_value(s) <= hi {
        Some(digits_value(s))
    } else {
        None
    }
}

/// The boolean a text writes: `t` or `true`, `f` or `false`.
pub open spec fn bool_text_value(s: Seq<char>) -> Option<bool> {
    if s == seq!['t'] || s == seq!['t', 'r', 'u', 'e'] {
        Some(true)
    } else if s == seq!['f'] || s == seq!['f', 'a', 'l', 's', 'e'] {
        Some(false)
    } else {
        None
    }
}

/// Whether `c` is a hexadecimal digit.
pub open spec fn is_hex_digit(c: char) -> bool {
    ('0' <= c <= '9') || ('a' <= c <= 'f') || ('A' <= c <= 'F')
}

/// The value of a hexadecimal digit.
pub open spec fn hex_value(c: char) -> int {
    if '0' <= c <= '9' {
        c as int - '0' as int
    } else if 'a' <= c <= 'f' {
        c as int - 'a' as int + 10
    } else {
        c as int - 'A' as int + 10
    }
}

/// The lower-case hexadecimal digit of `d < 16`.
pub open spec fn hex_char(d: int) -> char {
    if d < 10 {
        digit_char(d as nat)
    } else if d == 10 { 'a' }
    else if d == 11 { 'b' }
    else if d == 12 { 'c' }
    else if d == 13 { 'd' }
    else if d == 14 { 'e' }
    else { 'f' }
}

/// The bytes a `\x`-prefixed hexadecimal text writes, two digits a byte.
pub open spec fn hex_bytes_value(s: Seq<char>) -> Option<Seq<u8>> {
    if s.len() >= 2 && s[0] == '\\' && s[1] == 'x' && (s.len() - 2) % 2 == 0 && forall|i: int|
        2 <= i < s.len() ==> is_hex_digit(#[trigger] s[i]) {
        Some(
            Seq::new(
                ((s.len() - 2) / 2) as nat,
                |k: int| (hex_value(s[2 + 2 * k]) * 16 + hex_value(s[3 + 2 * k])) as u8,
            ),
        )
    } else {
        None
    }
}

/// The `\x`-prefixed lower-case hexadecimal text of some bytes.
pub open spec fn hex_text(b: Seq<u8>) -> Seq<char> {
    seq!['\\', 'x'] + Seq::new(
        2 * b.len(),
        |i: int|
            if i % 2 == 0 {
                hex_char(b[i / 2] as int / 16)
            } else {
                hex_char(b[i / 2] as int % 16)
            },
    )
}

/// Whether `v` is what the text `s` of a column of type `t` decodes to.
/// Numbers are decimal and must fit the column's width; booleans are `t`,
/// `true`, `f` or `false`; bytes are `\x`-prefixed hexadecimal; decimal,
/// floating-point, text, enum and set columns keep the text; JSON columns
/// keep its UTF-8 bytes.
pub open spec fn text_decodes(t: ColType, s: Seq<char>, v: ColValue) -> bool {
    match t {
        ColType::Bool => bool_text_value(s) matches Some(b) && v == ColValue::Bool(b),
        ColType::Tiny => number_in(s, -128, 127) matches Some(n) && v == ColValue::Tiny(n as i8),
        ColType::Short => number_in(s, -32768, 32767) matches Some(n) && v == ColValue::Short(
            n as i16,
        ),
        ColType::Long => number_in(s, -2147483648, 2147483647) matches Some(n) && v
            == ColValue::Long(n as i32),
        ColType::LongLong => number_in(s, -9223372036854775808, 9223372036854775807) matches Some(
            n,
        ) && v == ColValue::LongLong(n as i64),
        ColType::UnsignedTiny => unsigned_in(s, 255) matches Some(n) && v
            == ColValue::UnsignedTiny(n as u8),
        ColType::UnsignedShort => unsigned_in(s, 65535) matches Some(n) && v
            == ColValue::UnsignedShort(n as u16),
        ColType::UnsignedLong => unsigned_in(s, 4294967295) matches Some(n) && v
            == ColValue::UnsignedLong(n as u32),
        ColType::UnsignedLongLong => unsigned_in(s, 18446744073709551615) matches Some(n) && v
            == ColValue::UnsignedLongLong(n as u64),
        ColType::Year => unsigned_in(s, 65535) matches Some(n) && v == ColValue::Year(n as u16),
        ColType::Bit => unsigned_in(s, 18446744073709551615) matches Some(n) && v == ColValue::Bit(
            n as u64,
        ),
        ColType::Blob | ColType::Binary | ColType::VarBinary => hex_bytes_value(s) matches Some(b)
            && v matches ColValue::Blob(x) && x@ == b,
        ColType::Float => v matches ColValue::Float(x) && x@ == s,
        ColType::Double => v matches ColValue::Double(x) && x@ == s,
        ColType::Decimal => v matches ColValue::Decimal(x) && x@ == s,
        ColType::Set2 => v matches ColValue::Set2(x) && x@ == s,
        ColType::Enum => v matches ColValue::Enum(x) && x@ == s,
        ColType::Json => v matches ColValue::Json(x) && x@ == encode_utf8(s),
        ColType::String | ColType::Unknown => v matches ColValue::String(x) && x@ == s,
        ColType::Time => time_text_value(s) matches Some(x) && v == ColValue::Time(x),
        ColType::Date => date_text_value(s) matches Some(x) && v == ColValue::Date(x),
        ColType::DateTime => datetime_text_value(s) matches Some(x) && v == ColValue::DateTime(x),
        ColType::Timestamp => datetime_text_value(s) matches Some(x) && v == ColValue::Timestamp(x),
    }
}

/// Whether the text `s` of a column of type `t` decodes at all.
pub open spec fn text_decodable(t: ColType, s: Seq<char>) -> bool {
    match t {
        ColType::Bool => bool_text_value(s) is Some,
        ColType::Tiny => number_in(s, -128, 127) is Some,
        ColType::Short => number_in(s, -32768, 32767) is Some,
        ColType::Long => number_in(s, -2147483648, 2147483647) is Some,
        ColType::LongLong => number_in(s, -9223372036854775808, 9223372036854775807) is Some,
        ColType::UnsignedTiny => unsigned_in(s, 255) is Some,
        ColType::UnsignedShort | ColType::Year => unsigned_in(s, 65535) is Some,
        ColType::UnsignedLong => unsigned_in(s, 4294967295) is Some,
        ColType::UnsignedLongLong | ColType::Bit => unsigned_in(s, 18446744073709551615) is Some,
        ColType::Blob | ColType::Binary | ColType::VarBinary => hex_bytes_value(s) is Some,
        ColType::Time => time_text_value(s) is Some,
        ColType::Date => date_text_value(s) is Some,
        ColType::DateTime | ColType::Timestamp => datetime_text_value(s) is Some,
        _ => true,
    }
}

fn text_is(s: &str, lit: &str) -> (r: bool)
    ensures
        r == (s@ == lit@),
{
    let n = s.unicode_len();
    if n != lit.unicode_len() {
        return false;
    }
    let mut i: usize = 0;
    while i < n
        invariant
            n == s@.len() == lit@.len(),
            i <= n,
            forall|j: int| 0 <= j < i ==> s@[j] == lit@[j],
        decreases n - i,
    {
        if s.get_char(i) != lit.get_char(i) {
            return false;
        }
        i = i + 1;
    }
    assert(s@ =~= lit@);
    true
}

fn parse_bool(s: &str) -> (r: Option<bool>)
    ensures
        r == bool_text_value(s@),
{
    proof {
        reveal_strlit("t");
        reveal_strlit("true");
        reveal_strlit("f");
        reveal_strlit("false");
    }
    assert("t"@ =~= seq!['t']);
    assert("true"@ =~= seq!['t', 'r', 'u', 'e']);
    assert("f"@ =~= seq!['f']);
    assert("false"@ =~= seq!['f', 'a', 'l', 's', 'e']);
    if text_is(s, "t") || text_is(s, "true") {
        Some(true)
    } else if text_is(s, "f") || text_is(s, "false") {
        Some(false)
    } else {
        None
    }
}

fn hex_digit_value(c: char) -> (r: Option<u8>)
    ensures
        r matches Some(v) ==> is_hex_digit(c) && v == hex_value(c),
        r is None ==> !is_hex_digit(c),
{
    if '0' <= c && c <= '9' {
        Some((c as u32 - '0' as u32) as u8)
    } else if 'a' <= c && c <= 'f' {
        Some((c as u32 - 'a' as u32 + 10) as u8)
    } else if 'A' <= c && c <= 'F' {
        Some((c as u32 - 'A' as u32 + 10) as u8)
    } else {
        None
    }
}

/// Reads `\x`-prefixed hexadecimal text into bytes.
pub fn parse_hex_bytes(s: &str) -> (r: Option<Vec<u8>>)
    ensures
        r matches Some(b) ==> hex_bytes_value(s@) == Some(b@),
        r is None ==> hex_bytes_value(s@) is None,
{
    let n = s.unicode_len();
    if n < 2 || s.get_char(0) != '\\' || s.get_char(1) != 'x' || (n - 2) % 2 != 0 {
        return None;
    }
    let ghost sv = s@;
    let mut out: Vec<u8> = Vec::new();
    let mut i: usize = 2;
    while i < n
        invariant
            n == sv.len(),
            sv == s@,
            2 <= i <= n,
            (i - 2) % 2 == 0,
            (n - 2) % 2 == 0,
            out.len() == (i - 2) / 2,
            forall|j: int| 2 <= j < i ==> is_hex_digit(#[trigger] sv[j]),
            forall|k: int|
                0 <= k < out.len() ==> #[trigger] out@[k] == (hex_value(sv[2 + 2 * k]) * 16
                    + hex_value(sv[3 + 2 * k])) as u8,
        decreases n - i,
    {
        let hi = hex_digit_value(s.get_char(i));
        let lo = hex_digit_value(s.get_char(i + 1));
        match (hi, lo) {
            (Some(h), Some(l)) => {
                out.push(h * 16 + l);
                i = i + 2;
            },
            _ => {
                return None;
            },
        }
    }
    assert(out@ =~= hex_bytes_value(s@)->0);
    Some(out)
}

/// Decodes the text of a column of type `t`.
pub fn decode_text(t: ColType, s: &str) -> (r: Option<ColValue>)
    ensures
        r is Some <==> text_decodable(t, s@),
        r matches Some(v) ==> text_decodes(t, s@, v),
{
    match t {
        ColType::Bool => match parse_bool(s) {
            Some(b) => Some(ColValue::Bool(b)),
            None => None,
        },
        ColType::Tiny => match parse_number(s, -128, 127) {
            Some(n) => Some(ColValue::Tiny(n as i8)),
            None => None,
        },
        ColType::Short => match parse_number(s, -32768, 32767) {
            Some(n) => Some(ColValue::Short(n as i16)),
            None => None,
        },
        ColType::Long => match parse_number(s, -2147483648, 2147483647) {
            Some(n) => Some(ColValue::Long(n as i32)),
            None => None,
        },
        ColType::LongLong => match parse_number(s, -9223372036854775808, 9223372036854775807) {
            Some(n) => Some(ColValue::LongLong(n)),
            None => None,
        },
        ColType::UnsignedTiny => match parse_unsigned(s, 255) {
            Some(n) => Some(ColValue::UnsignedTiny(n as u8)),
            None => None,
        },
        ColType::UnsignedShort => match parse_unsigned(s, 65535) {
            Some(n) => Some(ColValue::UnsignedShort(n as u16)),
            None => None,
        },
        ColType::UnsignedLong => match parse_unsigned(s, 4294967295) {
            Some(n) => Some(ColValue::UnsignedLong(n as u32)),
            None => None,
        },
        ColType::UnsignedLongLong => match parse_unsigned(s, 18446744073709551615) {
            Some(n) => Some(ColValue::UnsignedLongLong(n)),
            None => None,
        },
        ColType::Year => match parse_unsigned(s, 65535) {
            Some(n) => Some(ColValue::Year(n as u16)),
            None => None,
        },
        ColType::Bit => match parse_unsigned(s, 18446744073709551615) {
            Some(n) => Some(ColValue::Bit(n)),
            None => None,
        },
        ColType::Blob | ColType::Binary | ColType::VarBinary => match parse_hex_bytes(s) {
            Some(b) => Some(ColValue::Blob(b)),
            None => None,
        },
        ColType::Float => Some(ColValue::Float(s.to_owned())),
        ColType::Double => Some(ColValue::Double(s.to_owned())),
        ColType::Decimal => Some(ColValue::Decimal(s.to_owned())),
        ColType::Set2 => Some(ColValue::Set2(s.to_owned())),
        ColType::Enum => Some(ColValue::Enum(s.to_owned())),
        ColType::Json => Some(ColValue::Json(s.as_bytes_vec())),
        ColType::String | ColType::Unknown => Some(ColValue::String(s.to_owned())),
        ColType::Time => match parse_time_text(s) {
            Some(x) => Some(ColValue::Time(x)),
            None => None,
        },
        ColType::Date => match parse_date_text(s) {
            Some(x) => Some(ColValue::Date(x)),
            None => None,
        },
        ColType::DateTime => match parse_datetime_text(s) {
            Some(x) => Some(ColValue::DateTime(x)),
            None => None,
        },
        ColType::Timestamp => match parse_datetime_text(s) {
            Some(x) => Some(ColValue::Timestamp(x)),
            None => None,
        },
    }
}

/// The text of a value as a stream-load body or a replication stream
/// writes it: numbers in decimal, booleans as `true` or `false`, bytes in
/// `\x`-prefixed hexadecimal, textual values as they are, a JSON document as
/// its UTF-8 text (in hexadecimal if its bytes are not UTF-8).
pub open spec fn value_text(v: ColValue) -> Seq<char> {
    match v {
        ColValue::Null => Seq::empty(),
        ColValue::Bool(b) => if b {
            seq!['t', 'r', 'u', 'e']
        } else {
            seq!['f', 'a', 'l', 's', 'e']
        },
        ColValue::Tiny(n) => signed_text(n as int),
        ColValue::Short(n) => signed_text(n as int),
        ColValue::Long(n) => signed_text(n as int),
        ColValue::LongLong(n) => signed_text(n as int),
        ColValue::UnsignedTiny(n) => dec_text(n as nat),
        ColValue::UnsignedShort(n) => dec_text(n as nat),
        ColValue::UnsignedLong(n) => dec_text(n as nat),
        ColValue::UnsignedLongLong(n) => dec_text(n as nat),
        ColValue::Year(n) => dec_text(n as nat),
        ColValue::Bit(n) => dec_text(n as nat),
        ColValue::Float(x) => x@,
        ColValue::Double(x) => x@,
        ColValue::Decimal(x) => x@,
        ColValue::String(x) => x@,
        ColValue::Set2(x) => x@,
        ColValue::Enum(x) => x@,
        ColValue::Json(b) => if valid_utf8(b@) {
            decode_utf8(b@)
        } else {
            hex_text(b@)
        },
        ColValue::Blob(b) => hex_text(b@),
        ColValue::Time(t) => time_text(t),
        ColValue::Date(d) => date_text(d),
        ColValue::DateTime(d) => datetime_text(d),
        ColValue::Timestamp(d) => datetime_text(d),
    }
}

/// Whether `v` is a value a column of type `t` holds.
pub open spec fn value_fits_type(v: ColValue, t: ColType) -> bool {
    match v {
        ColValue::Null => false,
        ColValue::Bool(_) => t == ColType::Bool,
        ColValue::Tiny(_) => t == ColType::Tiny,
        ColValue::Short(_) => t == ColType::Short,
        ColValue::Long(_) => t == ColType::Long,
        ColValue::LongLong(_) => t == ColType::LongLong,
        ColValue::UnsignedTiny(_) => t == ColType::UnsignedTiny,
        ColValue::UnsignedShort(_) => t == ColType::UnsignedShort,
        ColValue::UnsignedLong(_) => t == ColType::UnsignedLong,
        ColValue::UnsignedLongLong(_) => t == ColType::UnsignedLongLong,
        ColValue::Year(_) => t == ColType::Year,
        ColValue::Bit(_) => t == ColType::Bit,
        ColValue::Float(_) => t == ColType::Float,
        ColValue::Double(_) => t == ColType::Double,
        ColValue::Decimal(_) => t == ColType::Decimal,
        ColValue::String(_) => t == ColType::String || t == ColType::Unknown,
        ColValue::Set2(_) => t == ColType::Set2,
        ColValue::Enum(_) => t == ColType::Enum,
        ColValue::Json(_) => t == ColType::Json,
        ColValue::Blob(_) => t == ColType::Blob || t == ColType::Binary || t == ColType::VarBinary,
        ColValue::Time(_) => t == ColType::Time,
        ColValue::Date(_) => t == ColType::Date,
        ColValue::DateTime(_) => t == ColType::DateTime,
        ColValue::Timestamp(_) => t == ColType::Timestamp,
    }
}

proof fn lemma_dec_text_digits(n: nat)
    ensures
        is_digits(dec_text(n)),
        digits_value(dec_text(n)) == n,
    decreases n,
{
    if n >= 10 {
        lemma_dec_text_digits(n / 10);
        let t = dec_text(n);
        assert(t.drop_last() =~= dec_text(n / 10));
        assert(digit_value(digit_char(n % 10)) == n % 10);
        assert(n == (n / 10) * 10 + n % 10) by {
            vstd::arithmetic::div_mod::lemma_fundamental_div_mod(n as int, 10);
        }
        assert(t.last() == digit_char(n % 10));
        assert(digits_value(t) == digits_value(t.drop_last()) * 10 + digit_value(t.last()));
    } else {
        let t = dec_text(n);
        assert(t.drop_last() =~= Seq::<char>::empty());
        assert(digit_value(digit_char(n)) == n);
        assert(digits_value(t) == digits_value(t.drop_last()) * 10 + digit_value(t.last()));
        assert forall|i: int| 0 <= i < t.len() implies is_digit(#[trigger] t[i]) by {
            if i < t.len() - 1 {
                assert(t[i] == dec_text(n / 10)[i]);
            }
        }
    }
}

proof fn lemma_signed_text_value(v: int)
    ensures
        signed_value(signed_text(v)) == Some(v),
{
    if v < 0 {
        lemma_dec_text_digits((-v) as nat);
        assert(signed_text(v).drop_first() =~= dec_text((-v) as nat));
    } else {
        lemma_dec_text_digits(v as nat);
        assert(is_digit(dec_text(v as nat)[0]));
    }
}

pub proof fn lemma_hex_char_value(d: int)
    requires
        0 <= d < 16,
    ensures
        is_hex_digit(hex_char(d)),
        hex_value(hex_char(d)) == d,
{
}

proof fn lemma_hex_text_value(b: Seq<u8>)
    ensures
        hex_bytes_value(hex_text(b)) == Some(b),
{
    let s = hex_text(b);
    assert forall|i: int| 2 <= i < s.len() implies is_hex_digit(#[trigger] s[i]) by {
        let k = (i - 2) / 2;
        lemma_hex_char_value(b[k] as int / 16);
        lemma_hex_char_value(b[k] as int % 16);
    }
    assert forall|k: int| 0 <= k < b.len() implies (hex_value(s[2 + 2 * k]) * 16 + hex_value(
        s[3 + 2 * k],
    )) as u8 == #[trigger] b[k] by {
        lemma_hex_char_value(b[k] as int / 16);
        lemma_hex_char_value(b[k] as int % 16);
        assert(s[2 + 2 * k] == hex_char(b[k] as int / 16));
        assert(s[3 + 2 * k] == hex_char(b[k] as int % 16));
    }
    assert(hex_bytes_value(s)->0 =~= b);
}

/// Whether a value's text form can hold it: the fields of a temporal value
/// fit the widths of its text (four digits of year, two of month, day,
/// hour, minute and second, six of microseconds, nine of a time's hours),
/// and a JSON document is UTF-8.
pub open spec fn text_form_fits(v: ColValue) -> bool {
    match v {
        ColValue::Json(b) => valid_utf8(b@),
        ColValue::Date(d) => date_fits(d),
        ColValue::DateTime(d) | ColValue::Timestamp(d) => datetime_fits(d),
        ColValue::Time(t) => t.hours <= 999999999 && t.minutes <= 99 && t.seconds <= 99 && t.micros
            <= 999999,
        _ => true,
    }
}

/// Whether a date's fields fit `YYYY-MM-DD`.
pub open spec fn date_fits(d: DateValue) -> bool {
    d.year <= 9999 && d.month <= 99 && d.day <= 99
}

/// Whether a date-time's fields fit `YYYY-MM-DD HH:MM:SS.ffffff`.
pub open spec fn datetime_fits(d: DateTimeValue) -> bool {
    date_fits(d.date) && d.hour <= 99 && d.minute <= 99 && d.second <= 99 && d.micros <= 999999
}

proof fn lemma_padded(n: nat, w: nat)
    requires
        n < pow10(w),
    ensures
        padded(n, w).len() == w,
        forall|i: int| 0 <= i < w ==> is_digit(#[trigger] padded(n, w)[i]),
        digits_value(padded(n, w)) == n,
    decreases w,
{
    if w == 0 {
        assert(n == 0);
    } else {
        let q = n / 10;
        assert(q < pow10((w - 1) as nat)) by {
            vstd::arithmetic::div_mod::lemma_fundamental_div_mod(n as int, 10);
        }
        lemma_padded(q, (w - 1) as nat);
        let t = padded(n, w);
        assert(t.drop_last() =~= padded(q, (w - 1) as nat));
        assert(digit_value(digit_char(n % 10)) == n % 10);
        assert(n == q * 10 + n % 10) by {
            vstd::arithmetic::div_mod::lemma_fundamental_div_mod(n as int, 10);
        }
        assert forall|i: int| 0 <= i < w implies is_digit(#[trigger] t[i]) by {
            if i < w - 1 {
                assert(t[i] == padded(q, (w - 1) as nat)[i]);
            }
        }
        assert(digits_value(t) == digits_value(t.drop_last()) * 10 + digit_value(t.last()));
    }
}

proof fn lemma_digits_at_padded(s: Seq<char>, a: int, n: nat, w: nat)
    requires
        w >= 1,
        0 <= a,
        a + w <= s.len(),
        s.subrange(a, a + w) == padded(n, w),
        n < pow10(w),
    ensures
        digits_at(s, a, a + w) == Some(n as int),
{
    lemma_padded(n, w);
}

proof fn lemma_dec_text_short(n: nat, w: nat)
    requires
        n < pow10(w),
        w >= 1,
    ensures
        dec_text(n).len() <= w,
    decreases n,
{
    if n >= 10 {
        assert(n / 10 < pow10((w - 1) as nat)) by {
            vstd::arithmetic::div_mod::lemma_fundamental_div_mod(n as int, 10);
        }
        if w == 1 {
            assert(pow10(0) == 1);
            assert(false);
        }
        lemma_dec_text_short(n / 10, (w - 1) as nat);
    }
}

proof fn lemma_first_colon_skips(s: Seq<char>, i: int, k: int)
    requires
        0 <= i <= k < s.len(),
        s[k] == ':',
        forall|j: int| i <= j < k ==> s[j] != ':',
    ensures
        first_colon(s, i) == k,
    decreases k - i,
{
    if i < k {
        lemma_first_colon_skips(s, i + 1, k);
    }
}

proof fn lemma_clock_tail_round_trip(s: Seq<char>, p: int, m: nat, sec: nat, us: nat)
    requires
        0 <= p,
        s.len() == p + 13,
        s.subrange(p, p + 13) == clock_tail_text(m, sec, us),
        m <= 99,
        sec <= 99,
        us <= 999999,
    ensures
        clock_tail_at(s, p) == Some((m as int, sec as int, us as int)),
{
    reveal_with_fuel(pow10, 7);
    let t = clock_tail_text(m, sec, us);
    lemma_padded(m, 2);
    lemma_padded(sec, 2);
    lemma_padded(us, 6);
    assert(s[p] == t[0] && s[p + 3] == t[3] && s[p + 6] == t[6]);
    assert(s.subrange(p + 1, p + 3) =~= padded(m, 2)) by {
        assert forall|i: int| 0 <= i < 2 implies s.subrange(p + 1, p + 3)[i] == padded(m, 2)[i] by {
            assert(s[p + 1 + i] == t[1 + i]);
        }
    }
    assert(s.subrange(p + 4, p + 6) =~= padded(sec, 2)) by {
        assert forall|i: int| 0 <= i < 2 implies s.subrange(p + 4, p + 6)[i] == padded(sec, 2)[i] by {
            assert(s[p + 4 + i] == t[4 + i]);
        }
    }
    assert(s.subrange(p + 7, p + 13) =~= padded(us, 6)) by {
        assert forall|i: int| 0 <= i < 6 implies s.subrange(p + 7, p + 13)[i] == padded(us, 6)[i] by {
            assert(s[p + 7 + i] == t[7 + i]);
        }
    }
    lemma_digits_at_padded(s, p + 1, m, 2);
    lemma_digits_at_padded(s, p + 4, sec, 2);
    lemma_digits_at_padded(s, p + 7, us, 6);
    assert(t.len() == 13);
    assert(t[0] == ':' && t[3] == ':' && t[6] == '.');
    assert(s.len() - (p + 6) - 1 == 6);
    assert(digits_at(s, p + 7, s.len() as int) == Some(us as int));
    assert(pow10(0) == 1);
    assert(frac_at(s, p + 6) == Some(us as int));
}

proof fn lemma_date_round_trip(d: DateValue)
    requires
        date_fits(d),
    ensures
        date_at(date_text(d)) == Some(d),
        date_text_value(date_text(d)) == Some(d),
{
    reveal_with_fuel(pow10, 5);
    let t = date_text(d);
    lemma_padded(d.year as nat, 4);
    lemma_padded(d.month as nat, 2);
    lemma_padded(d.day as nat, 2);
    assert(t.subrange(0, 4) =~= padded(d.year as nat, 4));
    assert(t.subrange(5, 7) =~= padded(d.month as nat, 2));
    assert(t.subrange(8, 10) =~= padded(d.day as nat, 2));
    lemma_digits_at_padded(t, 0, d.year as nat, 4);
    lemma_digits_at_padded(t, 5, d.month as nat, 2);
    lemma_digits_at_padded(t, 8, d.day as nat, 2);
}

proof fn lemma_datetime_round_trip(d: DateTimeValue)
    requires
        datetime_fits(d),
    ensures
        datetime_text_value(datetime_text(d)) == Some(d),
{
    reveal_with_fuel(pow10, 5);
    let t = datetime_text(d);
    let dt = date_text(d.date);
    lemma_padded(d.date.year as nat, 4);
    lemma_padded(d.date.month as nat, 2);
    lemma_padded(d.date.day as nat, 2);
    lemma_padded(d.hour as nat, 2);
    lemma_padded(d.minute as nat, 2);
    lemma_padded(d.second as nat, 2);
    lemma_padded(d.micros as nat, 6);
    lemma_date_round_trip(d.date);
    assert(t.len() == 26);
    assert(t.subrange(0, 4) =~= padded(d.date.year as nat, 4));
    assert(t.subrange(5, 7) =~= padded(d.date.month as nat, 2));
    assert(t.subrange(8, 10) =~= padded(d.date.day as nat, 2));
    lemma_digits_at_padded(t, 0, d.date.year as nat, 4);
    lemma_digits_at_padded(t, 5, d.date.month as nat, 2);
    lemma_digits_at_padded(t, 8, d.date.day as nat, 2);
    assert(t.subrange(11, 13) =~= padded(d.hour as nat, 2));
    lemma_digits_at_padded(t, 11, d.hour as nat, 2);
    assert(t.subrange(13, 26) =~= clock_tail_text(d.minute as nat, d.second as nat, d.micros as nat));
    lemma_clock_tail_round_trip(t, 13, d.minute as nat, d.second as nat, d.micros as nat);
}

#[verifier::spinoff_prover]
#[verifier::rlimit(100)]
proof fn lemma_time_round_trip(x: TimeValue)
    requires
        x.hours <= 999999999,
        x.minutes <= 99,
        x.seconds <= 99,
        x.micros <= 999999,
    ensures
        time_text_value(time_text(x)) == Some(x),
{
    reveal_with_fuel(pow10, 10);
    let t = time_text(x);
    let sign: Seq<char> = if x.negative {
        seq!['-']
    } else {
        Seq::empty()
    };
    let h = hours_text(x.hours as nat);
    let tail = clock_tail_text(x.minutes as nat, x.seconds as nat, x.micros as nat);
    lemma_padded(x.minutes as nat, 2);
    lemma_padded(x.seconds as nat, 2);
    lemma_padded(x.micros as nat, 6);
    assert(tail.len() == 13);
    assert(t == sign + h + tail);
    let st: int = if x.negative { 1 } else { 0 };
    assert(sign.len() == st);
    if x.hours < 10 {
        lemma_padded(x.hours as nat, 2);
    } else {
        lemma_dec_text_digits(x.hours as nat);
        lemma_dec_text_short(x.hours as nat, 9);
    }
    assert(forall|i: int| 0 <= i < h.len() ==> is_digit(#[trigger] h[i]));
    assert(digits_value(h) == x.hours);
    let k = st + h.len();
    assert(1 <= h.len() <= 9);
    assert(t[k] == ':') by {
        assert(t[k] == tail[0]);
    }
    assert forall|j: int| st <= j < k implies t[j] != ':' by {
        assert(t[j] == h[j - st]);
        assert(is_digit(h[j - st]));
    }
    assert(!x.negative ==> (t.len() == 0 || t[0] != '-')) by {
        if !x.negative {
            assert(t[0] == h[0]);
            assert(is_digit(h[0]));
        }
    }
    lemma_first_colon_skips(t, st, k);
    assert(t.subrange(st, k) =~= h);
    assert(t.subrange(k, k + 13) =~= tail);
    lemma_clock_tail_round_trip(t, k, x.minutes as nat, x.seconds as nat, x.micros as nat);
}

/// Writing a value as text and decoding that text at the value's column
/// type gives the value back: exactly for every non-temporal value (a JSON
/// document when it is UTF-8), and to the microsecond for temporal values
/// whose fields fit their text.
#[verifier::spinoff_prover]
#[verifier::rlimit(100)]
pub proof fn lemma_text_round_trip(t: ColType, v: ColValue)
    requires
        value_fits_type(v, t),
        text_form_fits(v),
    ensures
        text_decodable(t, value_text(v)),
        text_decodes(t, value_text(v), v),
        forall|w: ColValue| #[trigger] text_decodes(t, value_text(v), w) ==> cv_eq(w, v),
{
    match v {
        ColValue::Tiny(n) => lemma_signed_text_value(n as int),
        ColValue::Short(n) => lemma_signed_text_value(n as int),
        ColValue::Long(n) => lemma_signed_text_value(n as int),
        ColValue::LongLong(n) => lemma_signed_text_value(n as int),
        ColValue::UnsignedTiny(n) => lemma_dec_text_digits(n as nat),
        ColValue::UnsignedShort(n) => lemma_dec_text_digits(n as nat),
        ColValue::UnsignedLong(n) => lemma_dec_text_digits(n as nat),
        ColValue::UnsignedLongLong(n) => lemma_dec_text_digits(n as nat),
        ColValue::Year(n) => lemma_dec_text_digits(n as nat),
        ColValue::Bit(n) => lemma_dec_text_digits(n as nat),
        ColValue::Blob(b) => lemma_hex_text_value(b@),
        ColValue::Date(d) => lemma_date_round_trip(d),
        ColValue::DateTime(d) => lemma_datetime_round_trip(d),
        ColValue::Timestamp(d) => lemma_datetime_round_trip(d),
        ColValue::Time(x) => lemma_time_round_trip(x),
        ColValue::Json(b) => vstd::utf8::decode_utf8_encode_utf8(b@),
        _ => {},
    }
}

/// Values equal by content have the same text.
pub proof fn lemma_value_text_respects_eq(a: ColValue, b: ColValue)
    requires
        cv_eq(a, b),
    ensures
        value_text(a) == value_text(b),
{
}

fn digit_str(d: u64) -> (r: &'static str)
    requires
        d < 10,
    ensures
        r@ == seq![digit_char(d as nat)],
{
    proof {
        reveal_strlit("0");
        reveal_strlit("1");
        reveal_strlit("2");
        reveal_strlit("3");
        reveal_strlit("4");
        reveal_strlit("5");
        reveal_strlit("6");
        reveal_strlit("7");
        reveal_strlit("8");
        reveal_strlit("9");
    }
    let r = if d == 0 { "0" }
    else if d == 1 { "1" }
    else if d == 2 { "2" }
    else if d == 3 { "3" }
    else if d == 4 { "4" }
    else if d == 5 { "5" }
    else if d == 6 { "6" }
    else if d == 7 { "7" }
    else if d == 8 { "8" }
    else { "9" };
    assert(r@ =~= seq![digit_char(d as nat)]);
    r
}

fn hex_str(d: u8) -> (r: &'static str)
    requires
        d < 16,
    ensures
        r@ == seq![hex_char(d as int)],
{
    proof {
        reveal_strlit("a");
        reveal_strlit("b");
        reveal_strlit("c");
        reveal_strlit("d");
        reveal_strlit("e");
        reveal_strlit("f");
    }
    if d < 10 {
        return digit_str(d as u64);
    }
    let r = if d == 10 { "a" }
    else if d == 11 { "b" }
    else if d == 12 { "c" }
    else if d == 13 { "d" }
    else if d == 14 { "e" }
    else { "f" };
    assert(r@ =~= seq![hex_char(d as int)]);
    r
}

/// Appends the decimal text of `n`.
pub fn push_decimal(out: &mut String, n: u64)
    ensures
        final(out)@ == old(out)@ + dec_text(n as nat),
    decreases n,
{
    if n >= 10 {
        push_decimal(out, n / 10);
    }
    out.append(digit_str(n % 10));
    assert(dec_text(n as nat) == if n < 10 {
        seq![digit_char(n as nat)]
    } else {
        dec_text((n / 10) as nat).push(digit_char((n % 10) as nat))
    });
    assert(final(out)@ =~= old(out)@ + dec_text(n as nat));
}

/// Appends the decimal text of a signed `n`.
pub fn push_signed(out: &mut String, n: i64)
    ensures
        final(out)@ == old(out)@ + signed_text(n as int),
{
    if n < 0 {
        out.append("-");
        proof {
            reveal_strlit("-");
        }
        let m: u64 = if n == -9223372036854775808 {
            9223372036854775808
        } else {
            (-n) as u64
        };
        push_decimal(out, m);
    } else {
        push_decimal(out, n as u64);
    }
    assert(final(out)@ =~= old(out)@ + signed_text(n as int));
}

/// Appends the `\x`-prefixed hexadecimal text of some bytes.
pub fn push_hex(out: &mut String, b: &Vec<u8>)
    ensures
        final(out)@ == old(out)@ + hex_text(b@),
{
    proof {
        reveal_strlit("\\x");
    }
    out.append("\\x");
    let ghost start = old(out)@ + seq!['\\', 'x'];
    assert(out@ =~= start);
    let mut i: usize = 0;
    while i < b.len()
        invariant
            i <= b.len(),
            out@ == start + Seq::new(
                2 * i as nat,
                |j: int|
                    if j % 2 == 0 {
                        hex_char(b@[j / 2] as int / 16)
                    } else {
                        hex_char(b@[j / 2] as int % 16)
                    },
            ),
        decreases b.len() - i,
    {
        out.append(hex_str(b[i] / 16));
        out.append(hex_str(b[i] % 16));
        i = i + 1;
        assert(out@ =~= start + Seq::new(
            2 * i as nat,
            |j: int|
                if j % 2 == 0 {
                    hex_char(b@[j / 2] as int / 16)
                } else {
                    hex_char(b@[j / 2] as int % 16)
                },
        ));
    }
    assert(final(out)@ =~= old(out)@ + hex_text(b@));
}

/// Appends the text of a value.
pub fn push_value_text(out: &mut String, v: &ColValue)
    ensures
        final(out)@ == old(out)@ + value_text(*v),
{
    proof {
        reveal_strlit("true");
        reveal_strlit("false");
    }
    match v {
        ColValue::Null => {},
        ColValue::Bool(b) => {
            if *b {
                out.append("true");
            } else {
                out.append("false");
            }
        },
        ColValue::Tiny(n) => push_signed(out, *n as i64),
        ColValue::Short(n) => push_signed(out, *n as i64),
        ColValue::Long(n) => push_signed(out, *n as i64),
        ColValue::LongLong(n) => push_signed(out, *n),
        ColValue::UnsignedTiny(n) => push_decimal(out, *n as u64),
        ColValue::UnsignedShort(n) => push_decimal(out, *n as u64),
        ColValue::UnsignedLong(n) => push_decimal(out, *n as u64),
        ColValue::UnsignedLongLong(n) => push_decimal(out, *n),
        ColValue::Year(n) => push_decimal(out, *n as u64),
        ColValue::Bit(n) => push_decimal(out, *n),
        ColValue::Float(x) => out.append(x.as_str()),
        ColValue::Double(x) => out.append(x.as_str()),
        ColValue::Decimal(x) => out.append(x.as_str()),
        ColValue::String(x) => out.append(x.as_str()),
        ColValue::Set2(x) => out.append(x.as_str()),
        ColValue::Enum(x) => out.append(x.as_str()),
        ColValue::Json(b) => match utf8_text(b) {
            Some(s) => out.append(s.as_str()),
            None => push_hex(out, b),
        },
        ColValue::Blob(b) => push_hex(out, b),
        ColValue::Time(t) => push_time(out, t),
        ColValue::Date(d) => push_date(out, d),
        ColValue::DateTime(d) => push_datetime(out, d),
        ColValue::Timestamp(d) => push_datetime(out, d),
    }
    assert(final(out)@ =~= old(out)@ + value_text(*v));
}

/// The text of a value.
pub fn value_to_text(v: &ColValue) -> (r: String)
    ensures
        r@ == value_text(*v),
{
    let mut out = String::new();
    push_value_text(&mut out, v);
    assert(out@ =~= value_text(*v));
    out
}

/// `n` in exactly `w` decimal digits, zero-padded (the low `w` digits).
pub open spec fn padded(n: nat, w: nat) -> Seq<char>
    decreases w,
{
    if w == 0 {
        Seq::empty()
    } else {
        padded(n / 10, (w - 1) as nat).push(digit_char(n % 10))
    }
}

/// Ten to the power `w`.
pub open spec fn pow10(w: nat) -> nat
    decreases w,
{
    if w == 0 {
        1
    } else {
        10 * pow10((w - 1) as nat)
    }
}

/// `YYYY-MM-DD`.
pub open spec fn date_text(d: DateValue) -> Seq<char> {
    padded(d.year as nat, 4) + seq!['-'] + padded(d.month as nat, 2) + seq!['-'] + padded(d.day as nat, 2)
}

/// `:MM:SS.ffffff`, the part of a clock after the hours.
pub open spec fn clock_tail_text(minute: nat, second: nat, micros: nat) -> Seq<char> {
    seq![':'] + padded(minute, 2) + seq![':'] + padded(second, 2) + seq!['.'] + padded(micros, 6)
}

/// `YYYY-MM-DD HH:MM:SS.ffffff`.
pub open spec fn datetime_text(d: DateTimeValue) -> Seq<char> {
    date_text(d.date) + seq![' '] + padded(d.hour as nat, 2) + clock_tail_text(
        d.minute as nat,
        d.second as nat,
        d.micros as nat,
    )
}

/// The hours of a time: at least two digits.
pub open spec fn hours_text(h: nat) -> Seq<char> {
    if h < 10 {
        padded(h, 2)
    } else {
        dec_text(h)
    }
}

/// `[-]HH:MM:SS.ffffff`, hours with as many digits as they take.
pub open spec fn time_text(t: TimeValue) -> Seq<char> {
    (if t.negative {
        seq!['-']
    } else {
        Seq::empty()
    }) + hours_text(t.hours as nat) + clock_tail_text(t.minutes as nat, t.seconds as nat, t.micros as nat)
}

/// The number the digits `s[a..b]` write, if they are all digits.
pub open spec fn digits_at(s: Seq<char>, a: int, b: int) -> Option<int> {
    if 0 <= a < b <= s.len() && is_digits(s.subrange(a, b)) {
        Some(digits_value(s.subrange(a, b)))
    } else {
        None
    }
}

/// Microseconds of the fraction from `p` to the end: none, or a dot and one
/// to six digits.
pub open spec fn frac_at(s: Seq<char>, p: int) -> Option<int> {
    if p == s.len() {
        Some(0)
    } else if 0 <= p < s.len() && s[p] == '.' && s.len() - p - 1 >= 1 && s.len() - p - 1 <= 6 {
        match digits_at(s, p + 1, s.len() as int) {
            Some(f) => Some(f * pow10((6 - (s.len() - p - 1)) as nat) as int),
            None => None,
        }
    } else {
        None
    }
}

/// Minutes, seconds and microseconds of `:MM:SS[.f]` from `p` to the end.
pub open spec fn clock_tail_at(s: Seq<char>, p: int) -> Option<(int, int, int)> {
    if 0 <= p && p + 6 <= s.len() && s[p] == ':' && s[p + 3] == ':' {
        match (digits_at(s, p + 1, p + 3), digits_at(s, p + 4, p + 6), frac_at(s, p + 6)) {
            (Some(m), Some(sec), Some(us)) => Some((m, sec, us)),
            _ => None,
        }
    } else {
        None
    }
}

/// The date `YYYY-MM-DD` at the start of a text.
pub open spec fn date_at(s: Seq<char>) -> Option<DateValue> {
    if s.len() >= 10 && s[4] == '-' && s[7] == '-' {
        match (digits_at(s, 0, 4), digits_at(s, 5, 7), digits_at(s, 8, 10)) {
            (Some(y), Some(m), Some(d)) => Some(DateValue { year: y as u16, month: m as u8, day: d as u8 }),
            _ => None,
        }
    } else {
        None
    }
}

/// A date text: exactly `YYYY-MM-DD`.
pub open spec fn date_text_value(s: Seq<char>) -> Option<DateValue> {
    if s.len() == 10 {
        date_at(s)
    } else {
        None
    }
}

/// A date-time text: `YYYY-MM-DD HH:MM:SS`, with an optional fraction of
/// one to six digits.
pub open spec fn datetime_text_value(s: Seq<char>) -> Option<DateTimeValue> {
    if s.len() >= 19 && s[10] == ' ' {
        match (date_at(s), digits_at(s, 11, 13), clock_tail_at(s, 13)) {
            (Some(d), Some(h), Some((m, sec, us))) => Some(DateTimeValue {
                date: d,
                hour: h as u8,
                minute: m as u8,
                second: sec as u8,
                micros: us as u32,
            }),
            _ => None,
        }
    } else {
        None
    }
}

/// Where the first `:` at or after `i` stands; the length if there is none.
pub open spec fn first_colon(s: Seq<char>, i: int) -> int
    decreases s.len() - i,
{
    if i >= s.len() || i < 0 {
        s.len() as int
    } else if s[i] == ':' {
        i
    } else {
        first_colon(s, i + 1)
    }
}

/// A time text: an optional minus, one to nine digits of hours, then
/// `:MM:SS` with an optional fraction of one to six digits.
pub open spec fn time_text_value(s: Seq<char>) -> Option<TimeValue> {
    let neg = s.len() > 0 && s[0] == '-';
    let st: int = if neg { 1 } else { 0 };
    let k = first_colon(s, st);
    if k - st >= 1 && k - st <= 9 {
        match (digits_at(s, st, k), clock_tail_at(s, k)) {
            (Some(h), Some((m, sec, us))) => Some(TimeValue {
                negative: neg,
                hours: h as u32,
                minutes: m as u8,
                seconds: sec as u8,
                micros: us as u32,
            }),
            _ => None,
        }
    } else {
        None
    }
}

proof fn lemma_pow10_small(n: nat)
    requires
        n <= 9,
    ensures
        pow10(n) <= 1000000000,
        pow10(n) >= 1,
{
    reveal_with_fuel(pow10, 10);
    assert(n == 0 || n == 1 || n == 2 || n == 3 || n == 4 || n == 5 || n == 6 || n == 7 || n == 8
        || n == 9);
}

/// Reads the digits `s[a..b]`, at most nine of them.
fn digits_between(s: &str, a: usize, b: usize) -> (r: Option<u64>)
    requires
        a <= b <= s@.len(),
        b - a <= 9,
    ensures
        r matches Some(v) ==> digits_at(s@, a as int, b as int) == Some(v as int),
        r is None ==> digits_at(s@, a as int, b as int) is None,
{
    if a == b {
        return None;
    }
    let mut acc: u64 = 0;
    let mut i: usize = a;
    assert(s@.subrange(a as int, a as int) =~= Seq::<char>::empty());
    while i < b
        invariant
            a < b <= s@.len(),
            b - a <= 9,
            a <= i <= b,
            forall|j: int| a <= j < i ==> is_digit(#[trigger] s@[j]),
            acc == digits_value(s@.subrange(a as int, i as int)),
            acc < pow10((i - a) as nat),
        decreases b - i,
    {
        let c = s.get_char(i);
        if !('0' <= c && c <= '9') {
            assert(!is_digits(s@.subrange(a as int, b as int))) by {
                assert(s@.subrange(a as int, b as int)[i - a] == c);
            }
            return None;
        }
        proof {
            lemma_pow10_small((i - a) as nat);
            lemma_pow10_small((i + 1 - a) as nat);
        }
        let d = (c as u32 - '0' as u32) as u64;
        let ghost sub = s@.subrange(a as int, i + 1);
        assert(sub.drop_last() =~= s@.subrange(a as int, i as int));
        acc = acc * 10 + d;
        i = i + 1;
    }
    assert forall|j: int| 0 <= j < s@.subrange(a as int, b as int).len() implies is_digit(
        #[trigger] s@.subrange(a as int, b as int)[j],
    ) by {
        assert(s@.subrange(a as int, b as int)[j] == s@[a + j]);
    }
    Some(acc)
}

proof fn lemma_pow10_add(a: nat, b: nat)
    ensures
        pow10(a + b) == pow10(a) * pow10(b),
    decreases a,
{
    if a > 0 {
        lemma_pow10_add((a - 1) as nat, b);
        assert((a + b - 1) as nat == (a - 1 + b) as nat);
        assert(pow10(a + b) == 10 * pow10((a + b - 1) as nat));
        let x = pow10((a - 1) as nat);
        let y = pow10(b);
        assert(10 * (x * y) == (10 * x) * y) by (nonlinear_arith);
        assert(pow10(a) == 10 * x);
    } else {
        assert(pow10(0) == 1);
        assert(a + b == b);
    }
}

proof fn lemma_frac_scale(f: nat, flen: nat)
    requires
        1 <= flen <= 6,
        f < pow10(flen),
    ensures
        f * pow10((6 - flen) as nat) <= 999999,
{
    lemma_pow10_add(flen, (6 - flen) as nat);
    reveal_with_fuel(pow10, 7);
    assert(pow10(6) == 1000000);
    let a = pow10(flen);
    let b = pow10((6 - flen) as nat);
    assert(f * b <= 999999) by (nonlinear_arith)
        requires
            f < a,
            a * b == 1000000,
            b >= 0;
}

fn pow10_of(w: usize) -> (r: u64)
    requires
        w <= 6,
    ensures
        r == pow10(w as nat),
    decreases w,
{
    if w == 0 {
        1
    } else {
        let r = pow10_of(w - 1);
        proof {
            lemma_pow10_small(w as nat);
        }
        10 * r
    }
}

fn frac_from(s: &str, p: usize) -> (r: Option<u64>)
    requires
        p <= s@.len(),
    ensures
        r matches Some(v) ==> frac_at(s@, p as int) == Some(v as int) && v <= 999999,
        r is None ==> frac_at(s@, p as int) is None,
{
    let n = s.unicode_len();
    if p == n {
        return Some(0);
    }
    if s.get_char(p) != '.' || n - p - 1 < 1 || n - p - 1 > 6 {
        return None;
    }
    let flen = n - p - 1;
    match digits_between(s, p + 1, n) {
        Some(f) => {
            proof {
                lemma_digits_below_pow10(s@.subrange(p + 1, n as int));
                lemma_frac_scale(f as nat, flen as nat);
            }
            let scale = pow10_of(6 - flen);
            Some(f * scale)
        },
        None => None,
    }
}

proof fn lemma_digits_below_pow10(s: Seq<char>)
    requires
        forall|i: int| 0 <= i < s.len() ==> is_digit(#[trigger] s[i]),
    ensures
        digits_value(s) < pow10(s.len()),
        digits_value(s) >= 0,
    decreases s.len(),
{
    if s.len() > 0 {
        lemma_digits_below_pow10(s.drop_last());
        assert(is_digit(s[s.len() - 1]));
    }
}

/// Reads `YYYY-MM-DD`.
fn parse_date_text(s: &str) -> (r: Option<DateValue>)
    ensures
        r == date_text_value(s@),
{
    if s.unicode_len() != 10 {
        return None;
    }
    parse_date_at(s)
}

fn parse_date_at(s: &str) -> (r: Option<DateValue>)
    ensures
        r == date_at(s@),
{
    let n = s.unicode_len();
    if !(n >= 10 && s.get_char(4) == '-' && s.get_char(7) == '-') {
        return None;
    }
    match (digits_between(s, 0, 4), digits_between(s, 5, 7), digits_between(s, 8, 10)) {
        (Some(y), Some(m), Some(d)) => Some(DateValue { year: y as u16, month: m as u8, day: d as u8 }),
        _ => None,
    }
}

/// Reads `YYYY-MM-DD HH:MM:SS[.f]`.
fn parse_datetime_text(s: &str) -> (r: Option<DateTimeValue>)
    ensures
        r is Some <==> datetime_text_value(s@) is Some,
        r matches Some(x) ==> datetime_text_value(s@) == Some(x),
{
    let n = s.unicode_len();
    if !(n >= 19 && s.get_char(10) == ' ') {
        return None;
    }
    let date = parse_date_at(s);
    let hour = digits_between(s, 11, 13);
    let tail = clock_tail_from(s, 13);
    match (date, hour, tail) {
        (Some(d), Some(h), Some((m, sec, us))) => Some(DateTimeValue {
            date: d,
            hour: h as u8,
            minute: m as u8,
            second: sec as u8,
            micros: us as u32,
        }),
        _ => None,
    }
}

fn clock_tail_from(s: &str, p: usize) -> (r: Option<(u64, u64, u64)>)
    requires
        p <= s@.len(),
    ensures
        r matches Some((m, sec, us)) ==> clock_tail_at(s@, p as int) == Some((m as int, sec as int, us as int)),
        r is None ==> clock_tail_at(s@, p as int) is None,
{
    let n = s.unicode_len();
    if !(n >= 6 && p <= n - 6 && s.get_char(p) == ':' && s.get_char(p + 3) == ':') {
        return None;
    }
    match (digits_between(s, p + 1, p + 3), digits_between(s, p + 4, p + 6), frac_from(s, p + 6)) {
        (Some(m), Some(sec), Some(us)) => Some((m, sec, us)),
        _ => None,
    }
}

/// Reads `[-]H:MM:SS[.f]`, one to nine digits of hours.
fn parse_time_text(s: &str) -> (r: Option<TimeValue>)
    ensures
        r is Some <==> time_text_value(s@) is Some,
        r matches Some(x) ==> time_text_value(s@) == Some(x),
{
    let n = s.unicode_len();
    let neg = n > 0 && s.get_char(0) == '-';
    let st: usize = if neg { 1 } else { 0 };
    let mut k: usize = st;
    while k < n && s.get_char(k) != ':'
        invariant
            n == s@.len(),
            st <= k <= n,
            st <= n,
            first_colon(s@, st as int) == first_colon(s@, k as int),
        decreases n - k,
    {
        k = k + 1;
    }
    assert(first_colon(s@, k as int) == k);
    if k - st < 1 || k - st > 9 {
        return None;
    }
    match (digits_between(s, st, k), clock_tail_from(s, k)) {
        (Some(h), Some((m, sec, us))) => Some(TimeValue {
            negative: neg,
            hours: h as u32,
            minutes: m as u8,
            seconds: sec as u8,
            micros: us as u32,
        }),
        _ => None,
    }
}

/// Appends `n` in exactly `w` digits.
pub fn push_padded(out: &mut String, n: u64, w: usize)
    ensures
        final(out)@ == old(out)@ + padded(n as nat, w as nat),
    decreases w,
{
    if w > 0 {
        push_padded(out, n / 10, w - 1);
        out.append(digit_str(n % 10));
        assert(final(out)@ =~= old(out)@ + padded(n as nat, w as nat));
    } else {
        assert(final(out)@ =~= old(out)@ + padded(n as nat, w as nat));
    }
}

fn push_date(out: &mut String, d: &DateValue)
    ensures
        final(out)@ == old(out)@ + date_text(*d),
{
    proof {
        reveal_strlit("-");
    }
    push_padded(out, d.year as u64, 4);
    out.append("-");
    push_padded(out, d.month as u64, 2);
    out.append("-");
    push_padded(out, d.day as u64, 2);
    assert(final(out)@ =~= old(out)@ + date_text(*d));
}

fn push_clock_tail(out: &mut String, minute: u8, second: u8, micros: u32)
    ensures
        final(out)@ == old(out)@ + clock_tail_text(minute as nat, second as nat, micros as nat),
{
    proof {
        reveal_strlit(":");
        reveal_strlit(".");
    }
    out.append(":");
    push_padded(out, minute as u64, 2);
    out.append(":");
    push_padded(out, second as u64, 2);
    out.append(".");
    push_padded(out, micros as u64, 6);
    assert(final(out)@ =~= old(out)@ + clock_tail_text(minute as nat, second as nat, micros as nat));
}

fn push_datetime(out: &mut String, d: &DateTimeValue)
    ensures
        final(out)@ == old(out)@ + datetime_text(*d),
{
    proof {
        reveal_strlit(" ");
    }
    push_date(out, &d.date);
    out.append(" ");
    push_padded(out, d.hour as u64, 2);
    push_clock_tail(out, d.minute, d.second, d.micros);
    assert(final(out)@ =~= old(out)@ + datetime_text(*d));
}

fn push_time(out: &mut String, t: &TimeValue)
    ensures
        final(out)@ == old(out)@ + time_text(*t),
{
    proof {
        reveal_strlit("-");
    }
    if t.negative {
        out.append("-");
    }
    if t.hours < 10 {
        push_padded(out, t.hours as u64, 2);
    } else {
        push_decimal(out, t.hours as u64);
    }
    push_clock_tail(out, t.minutes, t.seconds, t.micros);
    assert(final(out)@ =~= old(out)@ + time_text(*t));
}

} // verus!
