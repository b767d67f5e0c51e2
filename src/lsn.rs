//! Log sequence numbers of PostgreSQL and the text of positions.

use vstd::prelude::*;

use crate::codec::{dec_text, digit_char, hex_value, is_hex_digit, push_decimal};
use crate::model::Position;

verus! {

/// The upper-case hexadecimal digit of `d < 16`.
pub open spec fn upper_hex_char(d: nat) -> char {
    if d < 10 {
        digit_char(d)
    } else if d == 10 { 'A' }
    else if d == 11 { 'B' }
    else if d == 12 { 'C' }
    else if d == 13 { 'D' }
    else if d == 14 { 'E' }
    else { 'F' }
}

/// The upper-case hexadecimal text of `n`, without leading zeros.
pub open spec fn upper_hex_text(n: nat) -> Seq<char>
    decreases n,
{
    if n < 16 {
        seq![upper_hex_char(n)]
    } else {
        upper_hex_text(n / 16).push(upper_hex_char(n % 16))
    }
}

/// The `H/L` text of a log sequence number: the high and the low 32 bits in
/// upper-case hexadecimal.
pub open spec fn lsn_text(lsn: u64) -> Seq<char> {
    upper_hex_text((lsn as nat) / 0x1_0000_0000) + seq!['/'] + upper_hex_text(
        (lsn as nat) % 0x1_0000_0000,
    )
}

/// The number the hexadecimal digits of `s` write.
pub open spec fn hex_digits_value(s: Seq<char>) -> int
    decreases s.len(),
{
    if s.len() == 0 {
        0
    } else {
        hex_digits_value(s.drop_last()) * 16 + hex_value(s.last())
    }
}

/// What `u64::from_str_radix(s, 16)` gives: an optional `+` and then one or
/// more hexadecimal digits whose value fits 64 bits.
pub open spec fn hex_u64_value(s: Seq<char>) -> Option<u64> {
    let d = if s.len() > 0 && s[0] == '+' {
        s.drop_first()
    } else {
        s
    };
    if d.len() > 0 && (forall|i: int| 0 <= i < d.len() ==> is_hex_digit(#[trigger] d[i]))
        && hex_digits_value(d) <= u64::MAX {
        Some(hex_digits_value(d) as u64)
    } else {
        None
    }
}

/// Where the first `/` at or after `i` stands; the length if there is none.
pub open spec fn first_slash(s: Seq<char>, i: int) -> int
    decreases s.len() - i,
{
    if i >= s.len() || i < 0 {
        s.len() as int
    } else if s[i] == '/' {
        i
    } else {
        first_slash(s, i + 1)
    }
}

/// What `PgLsn` parses from a text: the two sides of its first `/`, each a
/// hexadecimal `u64`, combined as `(hi << 32) | lo`.
pub open spec fn pg_lsn_parsed(s: Seq<char>) -> Option<u64> {
    let k = first_slash(s, 0);
    if k < s.len() {
        match (hex_u64_value(s.subrange(0, k)), hex_u64_value(s.subrange(k + 1, s.len() as int))) {
            (Some(hi), Some(lo)) => Some((hi << 32u64) | lo),
            _ => None,
        }
    } else {
        None
    }
}

#[verifier::external_body]
pub(crate) fn parse_pg_lsn(s: &str) -> (r: Option<u64>)
    ensures
        r == pg_lsn_parsed(s@),
{
    match s.parse::<postgres_types::PgLsn>() {
        Ok(lsn) => Some(u64::from(lsn)),
        Err(_) => None,
    }
}

/// Relies on `postgres_types::PgLsn`'s `Display`: `{:X}/{:X}` of the high
/// and the low 32 bits.
#[verifier::external_body]
fn pg_lsn_display(lsn: u64) -> (r: String)
    ensures
        r@ == lsn_text(lsn),
{
    postgres_types::PgLsn::from(lsn).to_string()
}

/// The short text of a position for logs: nothing for no position, `H/L` for
/// a log sequence number, `file:offset` for a binlog position.
pub open spec fn position_text(p: Position) -> Seq<char> {
    match p {
        Position::Nil => Seq::empty(),
        Position::PgCdc { lsn } => lsn_text(lsn),
        Position::MysqlCdc { file_index, offset } => dec_text(file_index as nat) + seq![':']
            + dec_text(offset as nat),
    }
}

/// The short text of a position.
pub fn position_to_text(p: &Position) -> (r: String)
    ensures
        r@ == position_text(*p),
{
    match p {
        Position::Nil => String::new(),
        Position::PgCdc { lsn } => pg_lsn_display(*lsn),
        Position::MysqlCdc { file_index, offset } => {
            let mut out = String::new();
            push_decimal(&mut out, *file_index);
            proof {
                reveal_strlit(":");
            }
            out.append(":");
            push_decimal(&mut out, *offset);
            assert(out@ =~= position_text(*p));
            out
        },
    }
}

/// Microseconds between the Unix epoch and PostgreSQL's, 2000-01-01T00:00:00Z.
pub const PG_EPOCH_UNIX_MICROS: u64 = 946684800000000;

/// The timestamp of a standby status update: microseconds since
/// 2000-01-01T00:00:00Z of a time given in microseconds since the Unix epoch.
pub fn standby_timestamp(unix_micros: u64) -> (r: i64)
    requires
        unix_micros <= i64::MAX,
    ensures
        r == unix_micros as int - PG_EPOCH_UNIX_MICROS as int,
{
    unix_micros as i64 - PG_EPOCH_UNIX_MICROS as i64
}

} // verus!
