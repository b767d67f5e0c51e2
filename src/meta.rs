//! Table metadata, the type-OID registry and the row filter.

use vstd::prelude::*;

use crate::model::{ColType, RowType};

verus! {

/// What the extractors and sinkers know of a table.
pub struct TbMeta {
    pub schema: String,
    pub tb: String,
    /// The columns, in the order the source writes a row's values.
    pub cols: Vec<String>,
    /// The type of each column of `cols`, at the same index.
    pub col_types: Vec<ColType>,
    /// The column to paginate a snapshot by, if there is one.
    pub order_col: Option<String>,
    /// The columns that identify a row in a replayed update or delete.
    pub where_cols: Vec<String>,
}

impl TbMeta {
    /// Every column has a type, and no two columns share a name.
    pub open spec fn wf(&self) -> bool {
        &&& self.cols@.len() == self.col_types@.len()
        &&& names_distinct(self.cols@)
    }
}

/// No two names of the list are the same.
pub open spec fn names_distinct(s: Seq<String>) -> bool {
    forall|i: int, j: int| 0 <= i < j < s.len() ==> (#[trigger] s[i])@ != (#[trigger] s[j])@
}

/// Whether no two names of the list are the same.
pub fn distinct_names(s: &Vec<String>) -> (r: bool)
    ensures
        r == names_distinct(s@),
{
    let n = s.len();
    let mut i: usize = 0;
    while i < n
        invariant
            n == s@.len(),
            i <= n,
            forall|a: int, b: int| 0 <= a < i && a < b < n ==> (#[trigger] s@[a])@ != (#[trigger] s@[b])@,
        decreases n - i,
    {
        let mut j: usize = i + 1;
        while j < n
            invariant
                n == s@.len(),
                i < n,
                i + 1 <= j <= n,
                forall|a: int, b: int| 0 <= a < i && a < b < n ==> (#[trigger] s@[a])@ != (#[trigger] s@[b])@,
                forall|b: int| i < b < j ==> s@[i as int]@ != (#[trigger] s@[b])@,
            decreases n - j,
        {
            if s[i] == s[j] {
                return false;
            }
            j = j + 1;
        }
        i = i + 1;
    }
    true
}

/// The first registered type of an OID.
pub open spec fn type_of_oid(entries: Seq<(u32, ColType)>, oid: u32) -> Option<ColType>
    decreases entries.len(),
{
    if entries.len() == 0 {
        None
    } else if entries[0].0 == oid {
        Some(entries[0].1)
    } else {
        type_of_oid(entries.drop_first(), oid)
    }
}

/// The column types of a source, by type OID.
pub struct TypeRegistry {
    pub entries: Vec<(u32, ColType)>,
}

impl TypeRegistry {
    /// The types of PostgreSQL's built-in OIDs.
    pub fn builtin() -> (r: TypeRegistry)
        ensures
            r.entries@ == seq![
                (16u32, ColType::Bool),
                (17u32, ColType::Blob),
                (18u32, ColType::String),
                (19u32, ColType::String),
                (20u32, ColType::LongLong),
                (21u32, ColType::Short),
                (23u32, ColType::Long),
                (25u32, ColType::String),
                (26u32, ColType::UnsignedLong),
                (114u32, ColType::Json),
                (700u32, ColType::Float),
                (701u32, ColType::Double),
                (1042u32, ColType::String),
                (1043u32, ColType::String),
                (1082u32, ColType::Date),
                (1083u32, ColType::Time),
                (1114u32, ColType::DateTime),
                (1184u32, ColType::String),
                (1700u32, ColType::Decimal),
                (2950u32, ColType::String),
                (3802u32, ColType::Json),
            ],
    {
        let mut entries: Vec<(u32, ColType)> = Vec::new();
        entries.push((16, ColType::Bool));
        entries.push((17, ColType::Blob));
        entries.push((18, ColType::String));
        entries.push((19, ColType::String));
        entries.push((20, ColType::LongLong));
        entries.push((21, ColType::Short));
        entries.push((23, ColType::Long));
        entries.push((25, ColType::String));
        entries.push((26, ColType::UnsignedLong));
        entries.push((114, ColType::Json));
        entries.push((700, ColType::Float));
        entries.push((701, ColType::Double));
        entries.push((1042, ColType::String));
        entries.push((1043, ColType::String));
        entries.push((1082, ColType::Date));
        entries.push((1083, ColType::Time));
        entries.push((1114, ColType::DateTime));
        entries.push((1184, ColType::String));
        entries.push((1700, ColType::Decimal));
        entries.push((2950, ColType::String));
        entries.push((3802, ColType::Json));
        assert(entries@ =~= seq![
            (16u32, ColType::Bool),
            (17u32, ColType::Blob),
            (18u32, ColType::String),
            (19u32, ColType::String),
            (20u32, ColType::LongLong),
            (21u32, ColType::Short),
            (23u32, ColType::Long),
            (25u32, ColType::String),
            (26u32, ColType::UnsignedLong),
            (114u32, ColType::Json),
            (700u32, ColType::Float),
            (701u32, ColType::Double),
            (1042u32, ColType::String),
            (1043u32, ColType::String),
            (1082u32, ColType::Date),
            (1083u32, ColType::Time),
            (1114u32, ColType::DateTime),
            (1184u32, ColType::String),
            (1700u32, ColType::Decimal),
            (2950u32, ColType::String),
            (3802u32, ColType::Json),
        ]);
        TypeRegistry { entries }
    }

    /// The type of an OID, if it is registered.
    pub fn get(&self, oid: u32) -> (r: Option<ColType>)
        ensures
            r == type_of_oid(self.entries@, oid),
    {
        let mut i: usize = 0;
        assert(self.entries@.subrange(0, self.entries@.len() as int) =~= self.entries@);
        while i < self.entries.len()
            invariant
                i <= self.entries@.len(),
                type_of_oid(self.entries@, oid) == type_of_oid(
                    self.entries@.subrange(i as int, self.entries@.len() as int),
                    oid,
                ),
            decreases self.entries.len() - i,
        {
            assert(self.entries@.subrange(i as int, self.entries@.len() as int).drop_first()
                =~= self.entries@.subrange(i + 1, self.entries@.len() as int));
            if self.entries[i].0 == oid {
                return Some(self.entries[i].1);
            }
            i = i + 1;
        }
        None
    }
}

/// Which changes are dropped before they reach the queue.
pub struct RdbFilter {
    /// Schemas whose changes are dropped.
    pub ignore_dbs: Vec<String>,
    /// Tables, as (schema, table), whose changes are dropped.
    pub ignore_tbs: Vec<(String, String)>,
    /// Kinds of row change that are dropped.
    pub ignore_row_types: Vec<RowType>,
}

/// Whether a change of `row_type` on `schema.tb` is dropped.
pub open spec fn filtered(f: RdbFilter, schema: Seq<char>, tb: Seq<char>, row_type: RowType) -> bool {
    ||| exists|i: int| 0 <= i < f.ignore_dbs@.len() && #[trigger] f.ignore_dbs@[i]@ == schema
    ||| exists|i: int|
        0 <= i < f.ignore_tbs@.len() && #[trigger] f.ignore_tbs@[i].0@ == schema
            && f.ignore_tbs@[i].1@ == tb
    ||| exists|i: int| 0 <= i < f.ignore_row_types@.len() && #[trigger] f.ignore_row_types@[i] == row_type
}

impl RdbFilter {
    /// Whether a change of `row_type` on `schema.tb` is dropped.
    pub fn filter(&self, schema: &String, tb: &String, row_type: RowType) -> (r: bool)
        ensures
            r == filtered(*self, schema@, tb@, row_type),
    {
        let mut i: usize = 0;
        while i < self.ignore_dbs.len()
            invariant
                i <= self.ignore_dbs@.len(),
                forall|j: int| 0 <= j < i ==> #[trigger] self.ignore_dbs@[j]@ != schema@,
            decreases self.ignore_dbs.len() - i,
        {
            if self.ignore_dbs[i] == *schema {
                return true;
            }
            i = i + 1;
        }
        let mut i: usize = 0;
        while i < self.ignore_tbs.len()
            invariant
                i <= self.ignore_tbs@.len(),
                forall|j: int| 0 <= j < self.ignore_dbs@.len() ==> #[trigger] self.ignore_dbs@[j]@ != schema@,
                forall|j: int|
                    0 <= j < i ==> !(#[trigger] self.ignore_tbs@[j].0@ == schema@
                        && self.ignore_tbs@[j].1@ == tb@),
            decreases self.ignore_tbs.len() - i,
        {
            if self.ignore_tbs[i].0 == *schema && self.ignore_tbs[i].1 == *tb {
                return true;
            }
            i = i + 1;
        }
        let mut i: usize = 0;
        while i < self.ignore_row_types.len()
            invariant
                i <= self.ignore_row_types@.len(),
                forall|j: int| 0 <= j < self.ignore_dbs@.len() ==> #[trigger] self.ignore_dbs@[j]@ != schema@,
                forall|j: int|
                    0 <= j < self.ignore_tbs@.len() ==> !(#[trigger] self.ignore_tbs@[j].0@ == schema@
                        && self.ignore_tbs@[j].1@ == tb@),
                forall|j: int| 0 <= j < i ==> #[trigger] self.ignore_row_types@[j] != row_type,
            decreases self.ignore_row_types.len() - i,
        {
            if self.ignore_row_types[i] == row_type {
                return true;
            }
            i = i + 1;
        }
        false
    }
}

} // verus!
