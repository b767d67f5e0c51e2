//! The snapshot extractor: a table read in slices ordered by its order
//! column, and the decoding of the values a row read gives.

use vstd::prelude::*;

use crate::codec::{dec_text, push_decimal};
use crate::meta::TbMeta;
use crate::monitor::sat_add;
use crate::queue::{queue_capacity, queue_items, ItemQueue};
use crate::model::{
    cv_eq, keys_distinct, ColType, ColValue, ColValues, DateTimeValue, DateValue, DtData, DtError, DtItem,
    Position, RowData, RowType, TimeValue,
};

verus! {

/// `SELECT * FROM db.tb`: the whole table at once.
pub open spec fn full_scan_sql(db: Seq<char>, tb: Seq<char>) -> Seq<char> {
    "SELECT * FROM "@ + db + "."@ + tb
}

/// The first slice: the first `n` rows by the order column.
pub open spec fn first_slice_sql(db: Seq<char>, tb: Seq<char>, col: Seq<char>, n: nat) -> Seq<char> {
    full_scan_sql(db, tb) + " ORDER BY "@ + col + " ASC LIMIT "@ + dec_text(n)
}

/// A later slice: the next `n` rows after a bound value of the order column.
pub open spec fn next_slice_sql(db: Seq<char>, tb: Seq<char>, col: Seq<char>, n: nat) -> Seq<char> {
    full_scan_sql(db, tb) + " WHERE "@ + col + " > ? ORDER BY "@ + col + " ASC LIMIT "@ + dec_text(
        n,
    )
}

/// The next query of a scan: its text and, for a later slice, the bound.
pub struct SliceQuery {
    pub sql: String,
    pub start_value: Option<ColValue>,
}

/// The bound a slice scan resumes after, once a query returned `count` rows
/// whose last order value is `last`: that value, or the old bound after an
/// empty slice.
pub open spec fn resume_value<V>(start: Option<V>, count: nat, last: Option<V>) -> Option<V> {
    if count > 0 {
        last
    } else {
        start
    }
}

/// A scan ends with the first slice that has fewer rows than asked for.
pub open spec fn slice_scan_done(count: nat, slice_size: nat) -> bool {
    count < slice_size
}

/// The snapshot extractor of one table.
pub struct MysqlSnapshotExtractor {
    pub db: String,
    pub tb: String,
    pub slice_size: usize,
    /// The order column, when the table has one.
    pub order_col: Option<String>,
    /// The order value to resume after; `None` before the first slice.
    pub start_value: Option<ColValue>,
    /// Whether every row has been read.
    pub done: bool,
}

impl MysqlSnapshotExtractor {
    /// An extractor of `db.tb` reading slices of `slice_size` rows by
    /// `order_col`, or the whole table without one; a configuration error
    /// for a slice size of zero, with which no slice scan would end.
    pub fn new(db: String, tb: String, slice_size: usize, order_col: Option<String>) -> (r: Result<MysqlSnapshotExtractor, DtError>)
        ensures
            slice_size == 0 <==> r is Err,
            r matches Err(e) ==> e is Config,
            r matches Ok(x) ==> x.db == db && x.tb == tb && x.slice_size == slice_size
                && x.order_col == order_col && x.start_value is None && !x.done,
    {
        if slice_size == 0 {
            return Err(DtError::Config("slice_size must be positive".to_string()));
        }
        Ok(MysqlSnapshotExtractor { db, tb, slice_size, order_col, start_value: None, done: false })
    }

    /// The query of the next slice, or of the whole table when there is no
    /// order column; `None` once every row has been read.
    pub fn next_query(&self) -> (r: Option<SliceQuery>)
        ensures
            self.done ==> r is None,
            !self.done ==> (r matches Some(q) && match self.order_col {
                None => q.sql@ == full_scan_sql(self.db@, self.tb@) && q.start_value is None,
                Some(col) => match self.start_value {
                    None => q.sql@ == first_slice_sql(self.db@, self.tb@, col@, self.slice_size as nat)
                        && q.start_value is None,
                    Some(v) => q.sql@ == next_slice_sql(self.db@, self.tb@, col@, self.slice_size as nat)
                        && (q.start_value matches Some(w) && cv_eq(w, v)),
                },
            }),
    {
        if self.done {
            return None;
        }
        let mut sql = String::new();
        sql.append("SELECT * FROM ");
        sql.append(self.db.as_str());
        sql.append(".");
        sql.append(self.tb.as_str());
        assert(sql@ =~= full_scan_sql(self.db@, self.tb@));
        match &self.order_col {
            None => Some(SliceQuery { sql, start_value: None }),
            Some(col) => match &self.start_value {
                None => {
                    sql.append(" ORDER BY ");
                    sql.append(col.as_str());
                    sql.append(" ASC LIMIT ");
                    push_decimal(&mut sql, self.slice_size as u64);
                    assert(sql@ =~= first_slice_sql(self.db@, self.tb@, col@, self.slice_size as nat));
                    Some(SliceQuery { sql, start_value: None })
                },
                Some(v) => {
                    sql.append(" WHERE ");
                    sql.append(col.as_str());
                    sql.append(" > ? ORDER BY ");
                    sql.append(col.as_str());
                    sql.append(" ASC LIMIT ");
                    push_decimal(&mut sql, self.slice_size as u64);
                    assert(sql@ =~= next_slice_sql(self.db@, self.tb@, col@, self.slice_size as nat));
                    Some(SliceQuery { sql, start_value: Some(v.duplicate()) })
                },
            },
        }
    }

    /// Records what the last query returned: how many rows, and the order
    /// value of its last row. The scan resumes after that value, and ends
    /// after a short slice or after the whole-table read.
    pub fn on_slice(&mut self, count: usize, last_value: Option<ColValue>)
        ensures
            final(self).db == old(self).db && final(self).tb == old(self).tb,
            final(self).slice_size == old(self).slice_size,
            final(self).order_col == old(self).order_col,
            final(self).start_value == resume_value(old(self).start_value, count as nat, last_value),
            final(self).done == (old(self).order_col is None || slice_scan_done(
                count as nat,
                old(self).slice_size as nat,
            )),
    {
        if count > 0 {
            self.start_value = last_value;
        }
        self.done = self.order_col.is_none() || count < self.slice_size;
    }
}

/// Keys of a strictly ascending sequence.
pub open spec fn strictly_ascending(keys: Seq<int>) -> bool {
    forall|i: int, j: int| 0 <= i < j < keys.len() ==> keys[i] < keys[j]
}

/// The keys above a bound, in order.
pub open spec fn keys_above(keys: Seq<int>, b: int) -> Seq<int>
    decreases keys.len(),
{
    if keys.len() == 0 {
        Seq::empty()
    } else if keys[0] > b {
        seq![keys[0]] + keys_above(keys.drop_first(), b)
    } else {
        keys_above(keys.drop_first(), b)
    }
}

/// What a slice query returns from a table with these order keys: the
/// first `n` keys, or the first `n` keys above the bound.
pub open spec fn slice_rows(keys: Seq<int>, start: Option<int>, n: nat) -> Seq<int> {
    let above = match start {
        None => keys,
        Some(b) => keys_above(keys, b),
    };
    above.subrange(0, if n < above.len() { n as int } else { above.len() as int })
}

/// A slice scan of a table with these keys, run from bound `start` for at
/// most `fuel` more queries. Each query returns `slice_rows`; the scan then
/// moves on as `on_slice` does, by `resume_value` with the slice's size and
/// last key, and ends as `on_slice` does, on `slice_scan_done`. The number
/// of queries, and the keys read, in order.
pub open spec fn scan_run(keys: Seq<int>, start: Option<int>, n: nat, fuel: nat) -> (nat, Seq<int>)
    decreases fuel,
{
    let slice = slice_rows(keys, start, n);
    if slice_scan_done(slice.len(), n) || fuel == 0 {
        (1, slice)
    } else {
        let last = if slice.len() > 0 {
            Some(slice.last())
        } else {
            None
        };
        let rest = scan_run(keys, resume_value(start, slice.len(), last), n, (fuel - 1) as nat);
        (rest.0 + 1, slice + rest.1)
    }
}

proof fn lemma_keys_above_all(keys: Seq<int>, b: int)
    requires
        forall|i: int| 0 <= i < keys.len() ==> keys[i] > b,
    ensures
        keys_above(keys, b) == keys,
    decreases keys.len(),
{
    if keys.len() > 0 {
        lemma_keys_above_all(keys.drop_first(), b);
        assert(seq![keys[0]] + keys.drop_first() =~= keys);
    }
}

proof fn lemma_keys_above_last_read(keys: Seq<int>, p: int)
    requires
        strictly_ascending(keys),
        0 < p <= keys.len(),
    ensures
        keys_above(keys, keys[p - 1]) == keys.subrange(p, keys.len() as int),
    decreases keys.len(),
{
    let t = keys.drop_first();
    assert(strictly_ascending(t)) by {
        assert forall|i: int, j: int| 0 <= i < j < t.len() implies t[i] < t[j] by {
            assert(t[i] == keys[i + 1] && t[j] == keys[j + 1]);
        }
    }
    if p == 1 {
        assert forall|i: int| 0 <= i < t.len() implies t[i] > keys[0] by {
            assert(t[i] == keys[i + 1]);
        }
        lemma_keys_above_all(t, keys[0]);
        assert(t =~= keys.subrange(1, keys.len() as int));
    } else {
        assert(keys[0] < keys[p - 1]);
        lemma_keys_above_last_read(t, p - 1);
        assert(t[p - 2] == keys[p - 1]);
        assert(t.subrange(p - 1, t.len() as int) =~= keys.subrange(p, keys.len() as int));
    }
}

proof fn lemma_scan_run_from(keys: Seq<int>, pos: nat, n: nat, fuel: nat)
    requires
        strictly_ascending(keys),
        n > 0,
        pos <= keys.len(),
        fuel >= (keys.len() - pos) / (n as int) + 1,
    ensures
        scan_run(keys, if pos == 0 { None } else { Some(keys[pos - 1]) }, n, fuel) == (
            ((keys.len() - pos) / (n as int) + 1) as nat,
            keys.subrange(pos as int, keys.len() as int),
        ),
    decreases keys.len() - pos,
{
    let start = if pos == 0 {
        None
    } else {
        Some(keys[pos - 1])
    };
    let x = keys.len() - pos;
    let above = keys.subrange(pos as int, keys.len() as int);
    if pos == 0 {
        assert(above =~= keys);
    } else {
        lemma_keys_above_last_read(keys, pos as int);
    }
    let slice = slice_rows(keys, start, n);
    vstd::arithmetic::div_mod::lemma_fundamental_div_mod(x, n as int);
    if slice_scan_done(slice.len(), n) {
        assert(slice =~= above);
        vstd::arithmetic::div_mod::lemma_fundamental_div_mod_converse(x, n as int, 0, x);
    } else {
        assert(slice.len() == n);
        assert(slice =~= keys.subrange(pos as int, (pos + n) as int));
        let q = x / (n as int);
        assert(q >= 1) by (nonlinear_arith)
            requires
                x == (n as int) * q + x % (n as int),
                0 <= x % (n as int) < n,
                x >= n,
                n > 0;
        assert(x - n == (q - 1) * (n as int) + x % (n as int)) by (nonlinear_arith)
            requires
                x == (n as int) * q + x % (n as int);
        vstd::arithmetic::div_mod::lemma_fundamental_div_mod_converse(
            x - n,
            n as int,
            q - 1,
            x % (n as int),
        );
        assert(fuel >= 2);
        assert(slice.last() == keys[pos + n - 1]);
        assert(resume_value(start, slice.len(), Some(slice.last())) == Some(keys[(pos + n) - 1]));
        lemma_scan_run_from(keys, (pos + n) as nat, n, (fuel - 1) as nat);
        let rest = scan_run(keys, Some(keys[(pos + n) - 1]), n, (fuel - 1) as nat);
        assert(slice + rest.1 =~= above);
    }
}

/// A slice scan by a unique order column ends after exactly
/// ⌊rows / slice_size⌋ + 1 queries, which is at most ⌈rows / slice_size⌉ + 1,
/// reading every row exactly once and in order.
pub proof fn lemma_slice_scan_reads_each_row_once(keys: Seq<int>, slice_size: nat)
    requires
        strictly_ascending(keys),
        slice_size > 0,
    ensures
        scan_run(keys, None, slice_size, keys.len() + 1).1 == keys,
        scan_run(keys, None, slice_size, keys.len() + 1).0 == keys.len() / slice_size + 1,
        scan_run(keys, None, slice_size, keys.len() + 1).0 <= (keys.len() + slice_size - 1) / (
        slice_size as int) + 1,
{
    let n = slice_size as int;
    let len = keys.len() as int;
    assert(len / n <= len) by {
        vstd::arithmetic::div_mod::lemma_div_is_ordered_by_denominator(len, 1, n);
    }
    lemma_scan_run_from(keys, 0, slice_size, (keys.len() + 1) as nat);
    assert(keys.subrange(0, len) =~= keys);
    assert(len / n <= (len + n - 1) / n) by {
        vstd::arithmetic::div_mod::lemma_div_is_ordered(len, len + n - 1, n);
    }
}

/// What a row read gives for one column, by how the caller read it.
pub enum MysqlCell {
    Null,
    Signed(i64),
    Unsigned(u64),
    /// Raw bytes; temporal values in the binary protocol's layout, led by a
    /// length byte.
    Bytes(Vec<u8>),
    /// Text; floating-point values as their decimal text.
    Text(String),
}

/// How a column of each type is read.
#[derive(Clone, Copy, Debug, PartialEq, Eq, Structural)]
pub enum CellRead {
    Signed,
    Unsigned,
    Bytes,
    Text,
}

/// How a column of type `t` is read: integers as signed or unsigned,
/// decimal, floating-point, enum and set values as text, temporal, string,
/// binary and JSON values as raw bytes.
pub open spec fn cell_read_of(t: ColType) -> CellRead {
    match t {
        ColType::Bool | ColType::Tiny | ColType::Short | ColType::Long | ColType::LongLong => CellRead::Signed,
        ColType::UnsignedTiny | ColType::UnsignedShort | ColType::UnsignedLong
        | ColType::UnsignedLongLong | ColType::Year | ColType::Bit => CellRead::Unsigned,
        ColType::Float | ColType::Double | ColType::Decimal | ColType::Set2 | ColType::Enum => CellRead::Text,
        _ => CellRead::Bytes,
    }
}

/// How a column of type `t` is read.
pub fn cell_read_for(t: ColType) -> (r: CellRead)
    ensures
        r == cell_read_of(t),
{
    match t {
        ColType::Bool | ColType::Tiny | ColType::Short | ColType::Long | ColType::LongLong => CellRead::Signed,
        ColType::UnsignedTiny | ColType::UnsignedShort | ColType::UnsignedLong
        | ColType::UnsignedLongLong | ColType::Year | ColType::Bit => CellRead::Unsigned,
        ColType::Float | ColType::Double | ColType::Decimal | ColType::Set2 | ColType::Enum => CellRead::Text,
        _ => CellRead::Bytes,
    }
}

/// A little-endian 16-bit number at `i`.
pub open spec fn le16(b: Seq<u8>, i: int) -> int {
    b[i] as int + 256 * b[i + 1] as int
}

/// A little-endian 32-bit number at `i`.
pub open spec fn le32(b: Seq<u8>, i: int) -> int {
    b[i] as int + 256 * b[i + 1] as int + 65536 * b[i + 2] as int + 16777216 * b[i + 3] as int
}

/// A date in the binary layout: a length byte of 0 for the zero date, or
/// of at least 4 before a 2-byte year, a month and a day.
pub open spec fn date_of_bytes(b: Seq<u8>) -> Option<DateValue> {
    if b.len() >= 1 && b[0] == 0 {
        Some(DateValue { year: 0, month: 0, day: 0 })
    } else if b.len() >= 5 && b[0] >= 4 {
        Some(DateValue { year: le16(b, 1) as u16, month: b[3], day: b[4] })
    } else {
        None
    }
}

/// A date and time in the binary layout: a length byte of 0, 4, 7 or 11
/// before the date, then hour, minute and second, then 4 bytes of
/// microseconds; absent parts are zero.
pub open spec fn datetime_of_bytes(b: Seq<u8>) -> Option<DateTimeValue> {
    if b.len() >= 1 && b[0] == 0 {
        Some(DateTimeValue { date: DateValue { year: 0, month: 0, day: 0 }, hour: 0, minute: 0, second: 0, micros: 0 })
    } else if b.len() >= 1 && (b[0] == 4 || b[0] == 7 || b[0] == 11) && b.len() >= b[0] + 1 {
        Some(DateTimeValue {
            date: DateValue { year: le16(b, 1) as u16, month: b[3], day: b[4] },
            hour: if b[0] >= 7 { b[5] } else { 0 },
            minute: if b[0] >= 7 { b[6] } else { 0 },
            second: if b[0] >= 7 { b[7] } else { 0 },
            micros: if b[0] == 11 { le32(b, 8) as u32 } else { 0 },
        })
    } else {
        None
    }
}

/// A time in the binary layout: a length byte of 0, 8 or 12, a sign byte,
/// 4 bytes of days, hour, minute, second, then 4 bytes of microseconds.
/// Days count as 24 hours; the total must fit 32 bits.
pub open spec fn time_of_bytes(b: Seq<u8>) -> Option<TimeValue> {
    if b.len() >= 1 && b[0] == 0 {
        Some(TimeValue { negative: false, hours: 0, minutes: 0, seconds: 0, micros: 0 })
    } else if b.len() >= 1 && (b[0] == 8 || b[0] == 12) && b.len() >= b[0] + 1 && le32(b, 2) * 24
        + b[6] <= u32::MAX {
        Some(TimeValue {
            negative: b[1] == 1,
            hours: (le32(b, 2) * 24 + b[6]) as u32,
            minutes: b[7],
            seconds: b[8],
            micros: if b[0] == 12 { le32(b, 9) as u32 } else { 0 },
        })
    } else {
        None
    }
}

/// Whether a cell read for a column of type `t` decodes to `v`.
pub open spec fn cell_decodes(t: ColType, c: MysqlCell, v: ColValue) -> bool {
    match c {
        MysqlCell::Null => v == ColValue::Null,
        MysqlCell::Signed(n) => match t {
            ColType::Bool => v == ColValue::Bool(n != 0),
            ColType::Tiny => -128 <= n <= 127 && v == ColValue::Tiny(n as i8),
            ColType::Short => -32768 <= n <= 32767 && v == ColValue::Short(n as i16),
            ColType::Long => -2147483648 <= n <= 2147483647 && v == ColValue::Long(n as i32),
            ColType::LongLong => v == ColValue::LongLong(n),
            _ => false,
        },
        MysqlCell::Unsigned(n) => match t {
            ColType::UnsignedTiny => n <= 255 && v == ColValue::UnsignedTiny(n as u8),
            ColType::UnsignedShort => n <= 65535 && v == ColValue::UnsignedShort(n as u16),
            ColType::UnsignedLong => n <= 4294967295 && v == ColValue::UnsignedLong(n as u32),
            ColType::UnsignedLongLong => v == ColValue::UnsignedLongLong(n),
            ColType::Year => n <= 65535 && v == ColValue::Year(n as u16),
            ColType::Bit => v == ColValue::Bit(n),
            _ => false,
        },
        MysqlCell::Text(s) => match t {
            ColType::Float => v matches ColValue::Float(x) && x@ == s@,
            ColType::Double => v matches ColValue::Double(x) && x@ == s@,
            ColType::Decimal => v matches ColValue::Decimal(x) && x@ == s@,
            ColType::Set2 => v matches ColValue::Set2(x) && x@ == s@,
            ColType::Enum => v matches ColValue::Enum(x) && x@ == s@,
            _ => false,
        },
        MysqlCell::Bytes(b) => match t {
            ColType::Date => date_of_bytes(b@) matches Some(d) && v == ColValue::Date(d),
            ColType::DateTime => datetime_of_bytes(b@) matches Some(d) && v == ColValue::DateTime(d),
            ColType::Timestamp => datetime_of_bytes(b@) matches Some(d) && v == ColValue::Timestamp(d),
            ColType::Time => time_of_bytes(b@) matches Some(d) && v == ColValue::Time(d),
            ColType::Json => v matches ColValue::Json(x) && x@ == b@,
            ColType::String | ColType::Binary | ColType::VarBinary | ColType::Blob => v matches ColValue::Blob(x)
                && x@ == b@,
            ColType::Unknown => v == ColValue::Null,
            _ => false,
        },
    }
}

/// Whether a cell read for a column of type `t` decodes at all.
pub open spec fn cell_decodable(t: ColType, c: MysqlCell) -> bool {
    exists|v: ColValue| cell_decodes(t, c, v)
}

fn le16_at(b: &Vec<u8>, i: usize) -> (r: u16)
    requires
        i + 2 <= b@.len(),
    ensures
        r == le16(b@, i as int),
{
    let n = b.len();
    assert(i + 2 <= n);
    let x0 = b[i] as u16;
    let x1 = b[i + 1] as u16;
    assert(x0 <= 255 && x1 <= 255);
    x0 + 256 * x1
}

fn le32_at(b: &Vec<u8>, i: usize) -> (r: u64)
    requires
        i + 4 <= b@.len(),
    ensures
        r == le32(b@, i as int),
{
    let n = b.len();
    assert(i + 4 <= n);
    let x0 = b[i] as u64;
    let x1 = b[i + 1] as u64;
    let x2 = b[i + 2] as u64;
    let x3 = b[i + 3] as u64;
    assert(x0 <= 255 && x1 <= 255 && x2 <= 255 && x3 <= 255);
    x0 + 256 * x1 + 65536 * x2 + 16777216 * x3
}

/// Parses a date in the binary layout.
pub fn parse_date(b: &Vec<u8>) -> (r: Option<DateValue>)
    ensures
        r == date_of_bytes(b@),
{
    if b.len() >= 1 && b[0] == 0 {
        Some(DateValue { year: 0, month: 0, day: 0 })
    } else if b.len() >= 5 && b[0] >= 4 {
        Some(DateValue { year: le16_at(b, 1), month: b[3], day: b[4] })
    } else {
        None
    }
}

/// Parses a date and time in the binary layout.
pub fn parse_datetime(b: &Vec<u8>) -> (r: Option<DateTimeValue>)
    ensures
        r == datetime_of_bytes(b@),
{
    if b.len() >= 1 && b[0] == 0 {
        return Some(DateTimeValue { date: DateValue { year: 0, month: 0, day: 0 }, hour: 0, minute: 0, second: 0, micros: 0 });
    }
    if !(b.len() >= 1 && (b[0] == 4 || b[0] == 7 || b[0] == 11) && b.len() >= b[0] as usize + 1) {
        return None;
    }
    let len = b[0];
    let date = DateValue { year: le16_at(b, 1), month: b[3], day: b[4] };
    let (hour, minute, second) = if len >= 7 {
        (b[5], b[6], b[7])
    } else {
        (0u8, 0u8, 0u8)
    };
    let micros: u32 = if len == 11 {
        le32_at(b, 8) as u32
    } else {
        0
    };
    Some(DateTimeValue { date, hour, minute, second, micros })
}

/// Parses a time in the binary layout.
pub fn parse_time(b: &Vec<u8>) -> (r: Option<TimeValue>)
    ensures
        r == time_of_bytes(b@),
{
    if b.len() >= 1 && b[0] == 0 {
        return Some(TimeValue { negative: false, hours: 0, minutes: 0, seconds: 0, micros: 0 });
    }
    if !(b.len() >= 1 && (b[0] == 8 || b[0] == 12) && b.len() >= b[0] as usize + 1) {
        return None;
    }
    let days = le32_at(b, 2);
    let hours = days * 24 + b[6] as u64;
    if hours > 4294967295 {
        return None;
    }
    let micros: u32 = if b[0] == 12 {
        le32_at(b, 9) as u32
    } else {
        0
    };
    Some(TimeValue { negative: b[1] == 1, hours: hours as u32, minutes: b[7], seconds: b[8], micros })
}

impl MysqlSnapshotExtractor {
    /// Decodes what a row read gave for a column of type `t`; a decode error
    /// where the read does not suit the type or the bytes do not parse.
    pub fn get_col_value(t: ColType, cell: MysqlCell) -> (r: Result<ColValue, DtError>)
        ensures
            r is Ok <==> cell_decodable(t, cell),
            r matches Ok(v) ==> cell_decodes(t, cell, v),
            r matches Err(e) ==> e is Decode,
    {
        let ghost c = cell;
        let r = MysqlSnapshotExtractor::decode_cell(t, cell);
        if let Ok(v) = &r {
            assert(cell_decodes(t, c, *v));
        }
        r
    }

    fn decode_cell(t: ColType, cell: MysqlCell) -> (r: Result<ColValue, DtError>)
        ensures
            r matches Ok(v) ==> cell_decodes(t, cell, v),
            r is Err ==> forall|v: ColValue| !cell_decodes(t, cell, v),
            r matches Err(e) ==> e is Decode,
    {
        let bad = DtError::Decode("column value does not suit its type".to_string());
        match cell {
            MysqlCell::Null => Ok(ColValue::Null),
            MysqlCell::Signed(n) => match t {
                ColType::Bool => Ok(ColValue::Bool(n != 0)),
                ColType::Tiny => if -128 <= n && n <= 127 { Ok(ColValue::Tiny(n as i8)) } else { Err(bad) },
                ColType::Short => if -32768 <= n && n <= 32767 { Ok(ColValue::Short(n as i16)) } else { Err(bad) },
                ColType::Long => if -2147483648 <= n && n <= 2147483647 { Ok(ColValue::Long(n as i32)) } else { Err(bad) },
                ColType::LongLong => Ok(ColValue::LongLong(n)),
                _ => Err(bad),
            },
            MysqlCell::Unsigned(n) => match t {
                ColType::UnsignedTiny => if n <= 255 { Ok(ColValue::UnsignedTiny(n as u8)) } else { Err(bad) },
                ColType::UnsignedShort => if n <= 65535 { Ok(ColValue::UnsignedShort(n as u16)) } else { Err(bad) },
                ColType::UnsignedLong => if n <= 4294967295 { Ok(ColValue::UnsignedLong(n as u32)) } else { Err(bad) },
                ColType::UnsignedLongLong => Ok(ColValue::UnsignedLongLong(n)),
                ColType::Year => if n <= 65535 { Ok(ColValue::Year(n as u16)) } else { Err(bad) },
                ColType::Bit => Ok(ColValue::Bit(n)),
                _ => Err(bad),
            },
            MysqlCell::Text(s) => match t {
                ColType::Float => Ok(ColValue::Float(s)),
                ColType::Double => Ok(ColValue::Double(s)),
                ColType::Decimal => Ok(ColValue::Decimal(s)),
                ColType::Set2 => Ok(ColValue::Set2(s)),
                ColType::Enum => Ok(ColValue::Enum(s)),
                _ => Err(bad),
            },
            MysqlCell::Bytes(b) => match t {
                ColType::Date => match parse_date(&b) {
                    Some(d) => Ok(ColValue::Date(d)),
                    None => Err(bad),
                },
                ColType::DateTime => match parse_datetime(&b) {
                    Some(d) => Ok(ColValue::DateTime(d)),
                    None => Err(bad),
                },
                ColType::Timestamp => match parse_datetime(&b) {
                    Some(d) => Ok(ColValue::Timestamp(d)),
                    None => Err(bad),
                },
                ColType::Time => match parse_time(&b) {
                    Some(d) => Ok(ColValue::Time(d)),
                    None => Err(bad),
                },
                ColType::Json => Ok(ColValue::Json(b)),
                ColType::String | ColType::Binary | ColType::VarBinary | ColType::Blob => Ok(ColValue::Blob(b)),
                ColType::Unknown => Ok(ColValue::Null),
                _ => Err(bad),
            },
        }
    }
}

/// Whether `vals` is what a row read decodes to: the i-th cell under the
/// i-th column's name.
pub open spec fn cells_decode(meta: TbMeta, cells: Seq<MysqlCell>, vals: Seq<(String, ColValue)>) -> bool {
    &&& vals.len() == cells.len()
    &&& forall|i: int|
        0 <= i < cells.len() ==> #[trigger] vals[i].0 == meta.cols@[i] && cell_decodes(
            meta.col_types@[i],
            cells[i],
            vals[i].1,
        )
}

/// The size a cell accounts for: eight bytes for a number, the length of
/// its bytes or of its text otherwise.
pub open spec fn cell_bytes(c: MysqlCell) -> u64 {
    match c {
        MysqlCell::Null => 0,
        MysqlCell::Signed(_) | MysqlCell::Unsigned(_) => 8,
        MysqlCell::Bytes(b) => b@.len() as u64,
        MysqlCell::Text(t) => t@.len() as u64,
    }
}

/// The size a row read accounts for, adding up to at most `u64::MAX`.
pub open spec fn cells_bytes(cells: Seq<MysqlCell>) -> u64
    decreases cells.len(),
{
    if cells.len() == 0 {
        0
    } else {
        sat_add(cells_bytes(cells.drop_last()), cell_bytes(cells.last()))
    }
}

fn cells_size(cells: &Vec<MysqlCell>) -> (r: u64)
    ensures
        r == cells_bytes(cells@),
{
    let mut r: u64 = 0;
    let mut i: usize = 0;
    assert(cells@.subrange(0, 0) =~= Seq::<MysqlCell>::empty());
    while i < cells.len()
        invariant
            i <= cells@.len(),
            r == cells_bytes(cells@.subrange(0, i as int)),
        decreases cells.len() - i,
    {
        let n: u64 = match &cells[i] {
            MysqlCell::Null => 0,
            MysqlCell::Signed(_) | MysqlCell::Unsigned(_) => 8,
            MysqlCell::Bytes(b) => b.len() as u64,
            MysqlCell::Text(t) => t.as_str().unicode_len() as u64,
        };
        r = if n > u64::MAX - r {
            u64::MAX
        } else {
            r + n
        };
        i = i + 1;
        assert(cells@.subrange(0, i as int).drop_last() =~= cells@.subrange(0, i - 1));
    }
    assert(cells@.subrange(0, cells@.len() as int) =~= cells@);
    r
}

impl MysqlSnapshotExtractor {
    /// The insert a row read stands for: one cell per column, in the
    /// metadata's column order. A metadata error if the counts differ, a
    /// decode error if a cell does not decode.
    pub fn row_from_cells(&self, meta: &TbMeta, cells: Vec<MysqlCell>) -> (r: Result<RowData, DtError>)
        requires
            meta.wf(),
        ensures
            r is Ok <==> (cells@.len() == meta.cols@.len() && forall|i: int|
                0 <= i < cells@.len() ==> cell_decodable(meta.col_types@[i], #[trigger] cells@[i])),
            r matches Ok(row) ==> row.schema == meta.schema && row.tb == meta.tb && row.row_type
                == RowType::Insert && row.before is None && (row.after matches Some(a)
                && cells_decode(*meta, cells@, a@) && keys_distinct(a@)) && row.data_size
                == cells_bytes(cells@) && crate::model::row_images_ok(row),
            r matches Err(e) ==> (e is Metadata && cells@.len() != meta.cols@.len()) || e is Decode,
    {
        if cells.len() != meta.cols.len() {
            return Err(DtError::Metadata("row has a different number of columns than its table".to_string()));
        }
        let ghost all = cells@;
        let data_size = cells_size(&cells);
        let mut after: ColValues = Vec::new();
        let n = cells.len();
        for cell in it: cells
            invariant
                meta.wf(),
                it.seq() == all,
                n == all.len() == meta.cols@.len(),
                after@.len() == it.index(),
                forall|j: int| 0 <= j < it.index() ==> cell_decodable(meta.col_types@[j], #[trigger] all[j]),
                forall|j: int|
                    0 <= j < it.index() ==> #[trigger] after@[j].0 == meta.cols@[j] && cell_decodes(
                        meta.col_types@[j],
                        all[j],
                        after@[j].1,
                    ),
        {
            let i = after.len();
            let t = meta.col_types[i];
            let v = MysqlSnapshotExtractor::get_col_value(t, cell)?;
            let ghost before = after@;
            after.push((meta.cols[i].clone(), v));
            assert forall|j: int| 0 <= j < i + 1 implies #[trigger] after@[j].0 == meta.cols@[j]
                && cell_decodes(meta.col_types@[j], all[j], after@[j].1) by {
                if j < i {
                    assert(after@[j] == before[j]);
                }
            }
        }
        assert forall|x: int, y: int| 0 <= x < y < after@.len() implies (#[trigger] after@[x]).0@
            != (#[trigger] after@[y]).0@ by {
            assert(after@[x].0 == meta.cols@[x] && after@[y].0 == meta.cols@[y]);
        }
        Ok(
            RowData {
                schema: meta.schema.clone(),
                tb: meta.tb.clone(),
                row_type: RowType::Insert,
                before: None,
                after: Some(after),
                data_size,
            },
        )
    }

    /// Puts a snapshot row in the queue; a full queue hands the item back so
    /// the caller can wait and retry.
    pub fn push_row_to_buffer(&self, queue: &mut ItemQueue, row_data: RowData) -> (r: Result<(), DtItem>)
        ensures
            queue_capacity(*final(queue)) == queue_capacity(*old(queue)),
            queue_items(*old(queue)).len() < queue_capacity(*old(queue)) <==> r is Ok,
            r is Ok ==> queue_items(*final(queue)).len() == queue_items(*old(queue)).len() + 1
                && queue_items(*final(queue)).drop_last() == queue_items(*old(queue)) && ({
                let item = queue_items(*final(queue)).last();
                item.dt_data == (DtData::Dml { row_data }) && item.position == Position::Nil
                    && item.data_origin_node@ == Seq::<char>::empty()
            }),
            r matches Err(item) ==> queue_items(*final(queue)) == queue_items(*old(queue)) && item.dt_data == (DtData::Dml {
                row_data,
            }) && item.position == Position::Nil && item.data_origin_node@ == Seq::<char>::empty(),
    {
        let item = DtItem {
            dt_data: DtData::Dml { row_data },
            position: Position::Nil,
            data_origin_node: String::new(),
        };
        let r = queue.push(item);
        proof {
            if r is Ok {
                assert(queue_items(*queue).drop_last() =~= queue_items(*old(queue)));
            }
        }
        r
    }
}

} // verus!
