//! The data model shared by extractors, the pipeline and the sinkers.

use vstd::prelude::*;

verus! {

/// Kind of a schema-level change.
#[derive(Clone, Copy, Debug, PartialEq, Eq, Structural)]
pub enum DdlType {
    CreateDatabase,
    DropDatabase,
    CreateTable,
    DropTable,
    TruncateTable,
    RenameTable,
    AlterDatabase,
    AlterTable,
    Unknown,
}

/// The snake-case name under which a DDL kind is written in logs and configs.
pub open spec fn ddl_type_name(t: DdlType) -> Seq<char> {
    match t {
        DdlType::CreateDatabase => "create_database"@,
        DdlType::DropDatabase => "drop_database"@,
        DdlType::CreateTable => "create_table"@,
        DdlType::DropTable => "drop_table"@,
        DdlType::TruncateTable => "truncate_table"@,
        DdlType::RenameTable => "rename_table"@,
        DdlType::AlterDatabase => "alter_database"@,
        DdlType::AlterTable => "alter_table"@,
        DdlType::Unknown => "unknown"@,
    }
}

impl DdlType {
    /// The snake-case name of this kind.
    pub fn as_str(&self) -> (r: &'static str)
        ensures
            r@ == ddl_type_name(*self),
    {
        match self {
            DdlType::CreateDatabase => "create_database",
            DdlType::DropDatabase => "drop_database",
            DdlType::CreateTable => "create_table",
            DdlType::DropTable => "drop_table",
            DdlType::TruncateTable => "truncate_table",
            DdlType::RenameTable => "rename_table",
            DdlType::AlterDatabase => "alter_database",
            DdlType::AlterTable => "alter_table",
            DdlType::Unknown => "unknown",
        }
    }
}

impl Default for DdlType {
    fn default() -> (r: Self)
        ensures
            r == DdlType::Unknown,
    {
        DdlType::Unknown
    }
}


/// Column type as far as decoding and encoding need it.
#[derive(Clone, Copy, Debug, PartialEq, Eq, Structural)]
pub enum ColType {
    Bool,
    Tiny,
    UnsignedTiny,
    Short,
    UnsignedShort,
    Long,
    UnsignedLong,
    LongLong,
    UnsignedLongLong,
    Float,
    Double,
    Decimal,
    Time,
    Date,
    DateTime,
    Timestamp,
    Year,
    String,
    Binary,
    VarBinary,
    Blob,
    Bit,
    Set2,
    Enum,
    Json,
    Unknown,
}

/// A calendar date.
#[derive(Clone, Copy, Debug, PartialEq, Eq, Structural)]
pub struct DateValue {
    pub year: u16,
    pub month: u8,
    pub day: u8,
}

/// A time of day, or a signed duration as MySQL's TIME holds it.
#[derive(Clone, Copy, Debug, PartialEq, Eq, Structural)]
pub struct TimeValue {
    pub negative: bool,
    pub hours: u32,
    pub minutes: u8,
    pub seconds: u8,
    pub micros: u32,
}

/// A date with a time of day, to the microsecond.
#[derive(Clone, Copy, Debug, PartialEq, Eq, Structural)]
pub struct DateTimeValue {
    pub date: DateValue,
    pub hour: u8,
    pub minute: u8,
    pub second: u8,
    pub micros: u32,
}

/// A column value. Floating-point columns keep the decimal text the source
/// produced for them; string and binary columns read from a snapshot are
/// held as bytes.
#[derive(Clone, Debug, PartialEq, Eq)]
pub enum ColValue {
    Null,
    Bool(bool),
    Tiny(i8),
    UnsignedTiny(u8),
    Short(i16),
    UnsignedShort(u16),
    Long(i32),
    UnsignedLong(u32),
    LongLong(i64),
    UnsignedLongLong(u64),
    Float(String),
    Double(String),
    Decimal(String),
    Time(TimeValue),
    Date(DateValue),
    DateTime(DateTimeValue),
    Timestamp(DateTimeValue),
    Year(u16),
    String(String),
    Blob(Vec<u8>),
    Bit(u64),
    Set2(String),
    Enum(String),
    /// A JSON document, as the bytes the source holds.
    Json(Vec<u8>),
}

/// Equality of column values, bytes compared by content.
pub open spec fn cv_eq(a: ColValue, b: ColValue) -> bool {
    match (a, b) {
        (ColValue::Blob(x), ColValue::Blob(y)) => x@ == y@,
        (ColValue::Float(x), ColValue::Float(y)) => x@ == y@,
        (ColValue::Double(x), ColValue::Double(y)) => x@ == y@,
        (ColValue::Decimal(x), ColValue::Decimal(y)) => x@ == y@,
        (ColValue::String(x), ColValue::String(y)) => x@ == y@,
        (ColValue::Set2(x), ColValue::Set2(y)) => x@ == y@,
        (ColValue::Enum(x), ColValue::Enum(y)) => x@ == y@,
        (ColValue::Json(x), ColValue::Json(y)) => x@ == y@,
        _ => a == b,
    }
}

impl ColValue {
    /// A copy of this value.
    pub fn duplicate(&self) -> (r: ColValue)
        ensures
            cv_eq(r, *self),
    {
        match self {
            ColValue::Null => ColValue::Null,
            ColValue::Bool(v) => ColValue::Bool(*v),
            ColValue::Tiny(v) => ColValue::Tiny(*v),
            ColValue::UnsignedTiny(v) => ColValue::UnsignedTiny(*v),
            ColValue::Short(v) => ColValue::Short(*v),
            ColValue::UnsignedShort(v) => ColValue::UnsignedShort(*v),
            ColValue::Long(v) => ColValue::Long(*v),
            ColValue::UnsignedLong(v) => ColValue::UnsignedLong(*v),
            ColValue::LongLong(v) => ColValue::LongLong(*v),
            ColValue::UnsignedLongLong(v) => ColValue::UnsignedLongLong(*v),
            ColValue::Float(v) => ColValue::Float(v.clone()),
            ColValue::Double(v) => ColValue::Double(v.clone()),
            ColValue::Decimal(v) => ColValue::Decimal(v.clone()),
            ColValue::Time(v) => ColValue::Time(*v),
            ColValue::Date(v) => ColValue::Date(*v),
            ColValue::DateTime(v) => ColValue::DateTime(*v),
            ColValue::Timestamp(v) => ColValue::Timestamp(*v),
            ColValue::Year(v) => ColValue::Year(*v),
            ColValue::String(v) => ColValue::String(v.clone()),
            ColValue::Blob(v) => ColValue::Blob(copy_bytes(v)),
            ColValue::Bit(v) => ColValue::Bit(*v),
            ColValue::Set2(v) => ColValue::Set2(v.clone()),
            ColValue::Enum(v) => ColValue::Enum(v.clone()),
            ColValue::Json(v) => ColValue::Json(copy_bytes(v)),
        }
    }
}

/// A copy of a byte vector.
pub fn copy_bytes(b: &Vec<u8>) -> (r: Vec<u8>)
    ensures
        r@ == b@,
{
    let mut r: Vec<u8> = Vec::new();
    let mut i: usize = 0;
    while i < b.len()
        invariant
            i <= b.len(),
            r@ == b@.subrange(0, i as int),
        decreases b.len() - i,
    {
        r.push(b[i]);
        i = i + 1;
    }
    r
}

/// Values of a row, column by column, in the order the source gave them.
pub type ColValues = Vec<(String, ColValue)>;

/// The column names of a sequence of column values.
pub open spec fn names_of(vals: Seq<(String, ColValue)>) -> Seq<Seq<char>> {
    vals.map_values(|e: (String, ColValue)| e.0@)
}

/// The value of column `name`: the first entry under that name.
pub open spec fn value_of(vals: Seq<(String, ColValue)>, name: Seq<char>) -> Option<ColValue>
    decreases vals.len(),
{
    if vals.len() == 0 {
        None
    } else if vals[0].0@ == name {
        Some(vals[0].1)
    } else {
        value_of(vals.drop_first(), name)
    }
}

/// No two entries of a list of column values share a column name, so the
/// list maps each name to one value.
pub open spec fn keys_distinct(vals: Seq<(String, ColValue)>) -> bool {
    forall|i: int, j: int| 0 <= i < j < vals.len() ==> (#[trigger] vals[i]).0@ != (#[trigger] vals[j]).0@
}

/// Kind of a row-level change.
#[derive(Clone, Copy, Debug, PartialEq, Eq, Structural)]
pub enum RowType {
    Insert,
    Update,
    Delete,
}

/// A row-level change.
#[derive(Clone, Debug, PartialEq, Eq)]
pub struct RowData {
    pub schema: String,
    pub tb: String,
    pub row_type: RowType,
    pub before: Option<ColValues>,
    pub after: Option<ColValues>,
    pub data_size: u64,
}

/// The presence rule: an insert carries only an after image, a delete only
/// a before image, an update both.
pub open spec fn row_images_ok(r: RowData) -> bool {
    match r.row_type {
        RowType::Insert => r.after is Some && r.before is None,
        RowType::Delete => r.before is Some && r.after is None,
        RowType::Update => r.before is Some && r.after is Some,
    }
}

/// A schema-level change.
#[derive(Clone, Debug, PartialEq, Eq)]
pub struct DdlData {
    pub schema: String,
    pub tb: String,
    pub query: String,
    pub ddl_type: DdlType,
}

/// A raw key-value command as the source logged it.
#[derive(Clone, Debug, PartialEq, Eq)]
pub struct RedisEntry {
    /// Whether the entry is an undecoded blob rather than a parsed command.
    pub raw: bool,
    pub cmd_name: String,
    pub payload: Vec<u8>,
}

/// What an item of the queue carries.
#[derive(Clone, Debug, PartialEq, Eq)]
pub enum DtData {
    Dml { row_data: RowData },
    Ddl { ddl_data: DdlData },
    Begin,
    Commit { xid: u64 },
    Redis { entry: RedisEntry },
}

/// An offset in a source's log. Positions of one source are ordered; those of
/// different kinds are not comparable.
#[derive(Clone, Copy, Debug, PartialEq, Eq, Structural)]
pub enum Position {
    Nil,
    /// A write-ahead log sequence number of a PostgreSQL source.
    PgCdc { lsn: u64 },
    /// A binlog file (by its number) and an offset in it, of a MySQL source.
    MysqlCdc { file_index: u64, offset: u64 },
}

/// The order of positions: `None` precedes every position, and two positions
/// of one kind are ordered by their offsets.
pub open spec fn pos_le(a: Position, b: Position) -> bool {
    match (a, b) {
        (Position::Nil, _) => true,
        (Position::PgCdc { lsn: x }, Position::PgCdc { lsn: y }) => x <= y,
        (
            Position::MysqlCdc { file_index: f1, offset: o1 },
            Position::MysqlCdc { file_index: f2, offset: o2 },
        ) => f1 < f2 || (f1 == f2 && o1 <= o2),
        _ => false,
    }
}

/// An item of the queue: what it carries and where in the source it was read.
#[derive(Clone, Debug, PartialEq, Eq)]
pub struct DtItem {
    pub dt_data: DtData,
    pub position: Position,
    pub data_origin_node: String,
}

/// Errors of the replication core, by kind.
#[derive(Clone, Debug, PartialEq, Eq)]
pub enum DtError {
    Config(String),
    Connection(String),
    Metadata(String),
    Decode(String),
    Sink(String),
    Unexpected(String),
}

} // verus!
