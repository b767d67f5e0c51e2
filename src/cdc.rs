//! The logical-replication extractor: relation, insert, update and delete
//! events decoded into rows against per-relation metadata.

use vstd::prelude::*;
use vstd::utf8::{decode_utf8, valid_utf8};

use crate::codec::{decode_text, text_decodable, text_decodes};
use crate::lsn::{parse_pg_lsn, pg_lsn_parsed};
use crate::meta::{distinct_names, filtered, names_distinct, type_of_oid, RdbFilter, TbMeta, TypeRegistry};
use crate::monitor::sat_add;
use crate::model::{
    cv_eq, keys_distinct, value_of, ColType, ColValue, ColValues, DtData, DtError, DtItem,
    Position, RowData, RowType,
};
use crate::queue::{queue_capacity, queue_items, ItemQueue};

verus! {

/// A column of a relation event: its name and its type OID.
pub struct RelationColumn {
    pub name: String,
    pub type_oid: u32,
}

/// A relation event: the layout of a table's rows in the stream.
pub struct RelationEvent {
    pub rel_id: u32,
    pub namespace: String,
    pub name: String,
    pub columns: Vec<RelationColumn>,
}

/// One value of a tuple in the stream.
pub enum TupleValue {
    Null,
    /// The value's text, as bytes.
    Text(Vec<u8>),
    /// A large value left out because it did not change.
    UnchangedToast,
}

pub struct InsertEvent {
    pub rel_id: u32,
    pub tuple: Vec<TupleValue>,
}

pub struct UpdateEvent {
    pub rel_id: u32,
    pub old_tuple: Option<Vec<TupleValue>>,
    pub key_tuple: Option<Vec<TupleValue>>,
    pub new_tuple: Vec<TupleValue>,
}

pub struct DeleteEvent {
    pub rel_id: u32,
    pub old_tuple: Option<Vec<TupleValue>>,
    pub key_tuple: Option<Vec<TupleValue>>,
}

/// The events of the stream other than relation events.
pub enum CdcEvent {
    Begin { final_lsn: u64 },
    Commit { commit_lsn: u64, xid: u64 },
    Insert(InsertEvent),
    Update(UpdateEvent),
    Delete(DeleteEvent),
    /// The server's keep-alive; `reply` asks for an immediate status update.
    KeepAlive { reply: bool },
    /// Origin, type, truncate and other messages, which carry no rows.
    Other,
}

/// What the caller does after an event.
pub enum CdcAction {
    Nothing,
    /// An item was put in the queue.
    Pushed,
    /// The queue was full: wait, then push this item.
    Full(DtItem),
    /// Send a standby status update that confirms `lsn`.
    StandbyReply { lsn: u64 },
}

/// The metadata of the last relation event of `oid`.
pub open spec fn meta_for(s: Seq<(u32, TbMeta)>, oid: u32) -> Option<TbMeta>
    decreases s.len(),
{
    if s.len() == 0 {
        None
    } else if s.last().0 == oid {
        Some(s.last().1)
    } else {
        meta_for(s.drop_last(), oid)
    }
}

/// Per-relation metadata of a replication session, and the type registry.
pub struct PgMetaManager {
    pub type_registry: TypeRegistry,
    /// Metadata by relation ID; a later entry replaces an earlier one.
    pub tb_metas: Vec<(u32, TbMeta)>,
}

/// A metadata entry of `s` that every relation ID maps to has a type for
/// every column.
pub open spec fn metas_wf(s: Seq<(u32, TbMeta)>) -> bool {
    forall|i: int| 0 <= i < s.len() ==> (#[trigger] s[i]).1.wf()
}

proof fn lemma_meta_for_wf(s: Seq<(u32, TbMeta)>, oid: u32)
    requires
        metas_wf(s),
    ensures
        meta_for(s, oid) matches Some(m) ==> m.wf(),
    decreases s.len(),
{
    if s.len() > 0 {
        let t = s.drop_last();
        assert forall|i: int| 0 <= i < t.len() implies (#[trigger] t[i]).1.wf() by {
            assert(t[i] == s[i]);
        }
        lemma_meta_for_wf(t, oid);
        assert(s[s.len() - 1] == s.last());
    }
}

impl PgMetaManager {
    /// A manager that knows no relation yet.
    pub fn new(type_registry: TypeRegistry) -> (r: PgMetaManager)
        ensures
            r.type_registry == type_registry,
            r.tb_metas@ == Seq::<(u32, TbMeta)>::empty(),
            metas_wf(r.tb_metas@),
    {
        PgMetaManager { type_registry, tb_metas: Vec::new() }
    }

    /// Where the metadata of `oid` stands in `tb_metas`.
    pub fn find_tb_meta(&self, oid: u32) -> (r: Option<usize>)
        ensures
            r matches Some(i) ==> i < self.tb_metas@.len() && meta_for(self.tb_metas@, oid)
                == Some(self.tb_metas@[i as int].1),
            r is None ==> meta_for(self.tb_metas@, oid) is None,
    {
        let mut i: usize = self.tb_metas.len();
        assert(self.tb_metas@.subrange(0, i as int) =~= self.tb_metas@);
        while i > 0
            invariant
                i <= self.tb_metas@.len(),
                meta_for(self.tb_metas@, oid) == meta_for(self.tb_metas@.subrange(0, i as int), oid),
            decreases i,
        {
            assert(self.tb_metas@.subrange(0, i as int).drop_last() =~= self.tb_metas@.subrange(
                0,
                i - 1,
            ));
            if self.tb_metas[i - 1].0 == oid {
                return Some(i - 1);
            }
            i = i - 1;
        }
        None
    }

    /// Records the metadata of `oid`.
    pub fn update_tb_meta_by_oid(&mut self, oid: u32, meta: TbMeta)
        requires
            metas_wf(old(self).tb_metas@),
            meta.wf(),
        ensures
            metas_wf(final(self).tb_metas@),
            final(self).tb_metas@ == old(self).tb_metas@.push((oid, meta)),
            final(self).type_registry == old(self).type_registry,
            meta_for(final(self).tb_metas@, oid) == Some(meta),
            forall|o: u32| o != oid ==> meta_for(final(self).tb_metas@, o) == meta_for(
                old(self).tb_metas@,
                o,
            ),
    {
        self.tb_metas.push((oid, meta));
        assert(final(self).tb_metas@.drop_last() =~= old(self).tb_metas@);
    }
}

/// The column names of a relation event.
pub open spec fn relation_names(cols: Seq<RelationColumn>) -> Seq<String> {
    cols.map_values(|c: RelationColumn| c.name)
}

/// Whether every column type of a relation event is registered.
pub open spec fn relation_types_known(reg: Seq<(u32, ColType)>, cols: Seq<RelationColumn>) -> bool {
    forall|i: int| 0 <= i < cols.len() ==> type_of_oid(reg, #[trigger] cols[i].type_oid) is Some
}

/// The column types of a relation event.
pub open spec fn relation_types(reg: Seq<(u32, ColType)>, cols: Seq<RelationColumn>) -> Seq<ColType> {
    cols.map_values(|c: RelationColumn| type_of_oid(reg, c.type_oid)->0)
}

/// Whether a tuple value decodes to `v` in a column of type `t`.
pub open spec fn tuple_value_decodes(t: ColType, d: TupleValue, v: ColValue) -> bool {
    match d {
        TupleValue::Null => v == ColValue::Null,
        TupleValue::Text(b) => valid_utf8(b@) && text_decodes(t, decode_utf8(b@), v),
        TupleValue::UnchangedToast => false,
    }
}

/// Whether a tuple value decodes in a column of type `t`.
pub open spec fn tuple_value_ok(t: ColType, d: TupleValue) -> bool {
    match d {
        TupleValue::Null => true,
        TupleValue::Text(b) => valid_utf8(b@) && text_decodable(t, decode_utf8(b@)),
        TupleValue::UnchangedToast => false,
    }
}

/// Whether a tuple decodes under a table's metadata: no more values than
/// columns, and each value decodes at its column's type.
pub open spec fn tuple_decodable(meta: TbMeta, tuple: Seq<TupleValue>) -> bool {
    &&& tuple.len() <= meta.cols@.len()
    &&& forall|i: int| 0 <= i < tuple.len() ==> tuple_value_ok(meta.col_types@[i], #[trigger] tuple[i])
}

/// Whether `vals` is what a tuple decodes to: the i-th value under the i-th
/// column's name.
pub open spec fn tuple_decodes(meta: TbMeta, tuple: Seq<TupleValue>, vals: Seq<(String, ColValue)>) -> bool {
    &&& vals.len() == tuple.len()
    &&& forall|i: int|
        0 <= i < tuple.len() ==> #[trigger] vals[i].0 == meta.cols@[i] && tuple_value_decodes(
            meta.col_types@[i],
            tuple[i],
            vals[i].1,
        )
}

/// Whether every `where` column has a value in `after`.
pub open spec fn restrictable(after: Seq<(String, ColValue)>, where_cols: Seq<String>) -> bool {
    forall|i: int| 0 <= i < where_cols.len() ==> value_of(after, #[trigger] where_cols[i]@) is Some
}

/// Whether `vals` holds the values of `after` in the `where` columns, in
/// their order.
pub open spec fn restricted(
    after: Seq<(String, ColValue)>,
    where_cols: Seq<String>,
    vals: Seq<(String, ColValue)>,
) -> bool {
    &&& vals.len() == where_cols.len()
    &&& forall|i: int|
        0 <= i < vals.len() ==> #[trigger] vals[i].0 == where_cols[i] && (value_of(
            after,
            where_cols[i]@,
        ) matches Some(v) && cv_eq(vals[i].1, v))
}

/// Relies on `String::from_utf8`: the text of valid UTF-8 bytes.
#[verifier::external_body]
pub(crate) fn utf8_text(b: &Vec<u8>) -> (r: Option<String>)
    ensures
        r is Some <==> valid_utf8(b@),
        r matches Some(s) ==> s@ == decode_utf8(b@),
{
    String::from_utf8(b.clone()).ok()
}

/// The value of column `name` in `vals`: the first entry under that name.
pub fn find_value(vals: &ColValues, name: &String) -> (r: Option<ColValue>)
    ensures
        r is Some <==> value_of(vals@, name@) is Some,
        r matches Some(v) ==> cv_eq(v, value_of(vals@, name@)->0),
{
    let mut i: usize = 0;
    assert(vals@.subrange(0, vals@.len() as int) =~= vals@);
    while i < vals.len()
        invariant
            i <= vals@.len(),
            value_of(vals@, name@) == value_of(vals@.subrange(i as int, vals@.len() as int), name@),
        decreases vals.len() - i,
    {
        assert(vals@.subrange(i as int, vals@.len() as int).drop_first() =~= vals@.subrange(
            i + 1,
            vals@.len() as int,
        ));
        if vals[i].0 == *name {
            return Some(vals[i].1.duplicate());
        }
        i = i + 1;
    }
    None
}

/// The logical-replication extractor's state.
pub struct PgCdcExtractor {
    pub meta_manager: PgMetaManager,
    pub filter: RdbFilter,
    pub url: String,
    pub slot_name: String,
    pub start_lsn: String,
    /// The position the stream resumes from, as a number.
    pub start_lsn_value: u64,
    /// The commit position of the transaction being read.
    pub tx_lsn: u64,
}

impl PgCdcExtractor {
    /// An extractor that resumes at `start_lsn`; a configuration error if it
    /// is not an `H/L` log sequence number.
    pub fn new(
        meta_manager: PgMetaManager,
        filter: RdbFilter,
        url: String,
        slot_name: String,
        start_lsn: String,
    ) -> (r: Result<PgCdcExtractor, DtError>)
        ensures
            pg_lsn_parsed(start_lsn@) is None <==> r is Err,
            r matches Err(e) ==> e is Config,
            r matches Ok(x) ==> x.start_lsn_value == pg_lsn_parsed(start_lsn@)->0 && x.tx_lsn
                == x.start_lsn_value && x.start_lsn == start_lsn && x.url == url && x.slot_name
                == slot_name && x.meta_manager == meta_manager && x.filter == filter,
    {
        match parse_pg_lsn(start_lsn.as_str()) {
            Some(v) => Ok(
                PgCdcExtractor {
                    meta_manager,
                    filter,
                    url,
                    slot_name,
                    start_lsn,
                    start_lsn_value: v,
                    tx_lsn: v,
                },
            ),
            None => Err(DtError::Config("start_lsn is not a log sequence number".to_string())),
        }
    }

    /// Records the layout of a relation: each column's type from the
    /// registry, and the column order of the event, which later tuples
    /// follow. `base` is the table's metadata as the source database gives
    /// it. A metadata error, with nothing recorded, if a type is unknown or
    /// two columns share a name.
    pub fn decode_relation(&mut self, event: &RelationEvent, base: TbMeta) -> (r: Result<(), DtError>)
        requires
            metas_wf(old(self).meta_manager.tb_metas@),
        ensures
            metas_wf(final(self).meta_manager.tb_metas@),
            r is Ok <==> relation_types_known(
                old(self).meta_manager.type_registry.entries@,
                event.columns@,
            ) && names_distinct(relation_names(event.columns@)),
            r matches Err(e) ==> e is Metadata && *final(self) == *old(self),
            r is Ok ==> ({
                let reg = old(self).meta_manager.type_registry.entries@;
                &&& final(self).meta_manager.type_registry == old(self).meta_manager.type_registry
                &&& final(self).filter == old(self).filter
                &&& final(self).tx_lsn == old(self).tx_lsn
                &&& final(self).start_lsn_value == old(self).start_lsn_value
                &&& meta_for(final(self).meta_manager.tb_metas@, event.rel_id) matches Some(m)
                    && m.cols@ == relation_names(event.columns@) && m.col_types@ == relation_types(
                    reg,
                    event.columns@,
                ) && m.schema == base.schema && m.tb == base.tb && m.where_cols == base.where_cols
                    && m.order_col == base.order_col
                &&& forall|o: u32|
                    o != event.rel_id ==> meta_for(final(self).meta_manager.tb_metas@, o)
                        == meta_for(old(self).meta_manager.tb_metas@, o)
            }),
    {
        let ghost reg = self.meta_manager.type_registry.entries@;
        let mut cols: Vec<String> = Vec::new();
        let mut types: Vec<ColType> = Vec::new();
        let mut i: usize = 0;
        while i < event.columns.len()
            invariant
                metas_wf(self.meta_manager.tb_metas@),
                cols@.len() == types@.len(),
                reg == self.meta_manager.type_registry.entries@,
                i <= event.columns@.len(),
                cols@ == relation_names(event.columns@.subrange(0, i as int)),
                types@ == relation_types(reg, event.columns@.subrange(0, i as int)),
                forall|j: int| 0 <= j < i ==> type_of_oid(reg, #[trigger] event.columns@[j].type_oid) is Some,
            decreases event.columns.len() - i,
        {
            let c = &event.columns[i];
            match self.meta_manager.type_registry.get(c.type_oid) {
                Some(t) => {
                    cols.push(c.name.clone());
                    types.push(t);
                },
                None => {
                    return Err(DtError::Metadata("unknown type oid in relation".to_string()));
                },
            }
            i = i + 1;
            assert(cols@ =~= relation_names(event.columns@.subrange(0, i as int)));
            assert(types@ =~= relation_types(reg, event.columns@.subrange(0, i as int)));
        }
        assert(event.columns@.subrange(0, i as int) =~= event.columns@);
        if !distinct_names(&cols) {
            return Err(DtError::Metadata("two columns share a name in relation".to_string()));
        }
        let meta = TbMeta { cols, col_types: types, ..base };
        self.meta_manager.update_tb_meta_by_oid(event.rel_id, meta);
        Ok(())
    }

    /// Decodes a tuple under a table's metadata. A metadata error if it has
    /// more values than the table has columns, an unexpected error on an
    /// unchanged large value, a decode error on a text that does not decode.
    pub fn parse_row_data(meta: &TbMeta, tuple: &Vec<TupleValue>) -> (r: Result<ColValues, DtError>)
        requires
            meta.wf(),
        ensures
            r is Ok <==> tuple_decodable(*meta, tuple@),
            r matches Ok(vals) ==> tuple_decodes(*meta, tuple@, vals@) && keys_distinct(vals@),
            r matches Err(e) ==> (e is Metadata && tuple@.len() > meta.cols@.len()) || (e is Unexpected
                && exists|i: int| 0 <= i < tuple@.len() && #[trigger] tuple@[i] is UnchangedToast) || (
            e is Decode && exists|i: int|
                0 <= i < tuple@.len() && i < meta.cols@.len() && #[trigger] tuple@[i] is Text
                    && !tuple_value_ok(meta.col_types@[i], tuple@[i])),
    {
        let mut vals: ColValues = Vec::new();
        let mut i: usize = 0;
        while i < tuple.len()
            invariant
                meta.wf(),
                i <= tuple@.len(),
                i <= meta.cols@.len(),
                vals@.len() == i,
                forall|j: int| 0 <= j < i ==> tuple_value_ok(meta.col_types@[j], #[trigger] tuple@[j]),
                forall|j: int|
                    0 <= j < i ==> #[trigger] vals@[j].0 == meta.cols@[j] && tuple_value_decodes(
                        meta.col_types@[j],
                        tuple@[j],
                        vals@[j].1,
                    ),
            decreases tuple.len() - i,
        {
            if i >= meta.cols.len() {
                return Err(DtError::Metadata("tuple has more values than the table has columns".to_string()));
            }
            let t = meta.col_types[i];
            let v = match &tuple[i] {
                TupleValue::Null => ColValue::Null,
                TupleValue::Text(b) => {
                    let decoded = match utf8_text(b) {
                        Some(s) => decode_text(t, s.as_str()),
                        None => None,
                    };
                    match decoded {
                        Some(v) => v,
                        None => {
                            assert(!tuple_value_ok(meta.col_types@[i as int], tuple@[i as int]));
                            return Err(DtError::Decode("column text does not decode".to_string()));
                        },
                    }
                },
                TupleValue::UnchangedToast => {
                    assert(tuple@[i as int] is UnchangedToast);
                    return Err(DtError::Unexpected("unexpected UnchangedToast value received".to_string()));
                },
            };
            vals.push((meta.cols[i].clone(), v));
            i = i + 1;
        }
        assert forall|x: int, y: int| 0 <= x < y < vals@.len() implies (#[trigger] vals@[x]).0@
            != (#[trigger] vals@[y]).0@ by {
            assert(vals@[x].0 == meta.cols@[x] && vals@[y].0 == meta.cols@[y]);
        }
        Ok(vals)
    }

    /// The values of the `where` columns in `after`, in their order; a
    /// metadata error if one of them has no value there.
    pub fn restrict_to(after: &ColValues, where_cols: &Vec<String>) -> (r: Result<ColValues, DtError>)
        ensures
            r is Ok <==> restrictable(after@, where_cols@),
            r matches Ok(vals) ==> restricted(after@, where_cols@, vals@),
            r matches Err(e) ==> e is Metadata,
    {
        let mut vals: ColValues = Vec::new();
        let mut i: usize = 0;
        while i < where_cols.len()
            invariant
                i <= where_cols@.len(),
                vals@.len() == i,
                forall|j: int| 0 <= j < i ==> value_of(after@, #[trigger] where_cols@[j]@) is Some,
                forall|j: int|
                    0 <= j < i ==> #[trigger] vals@[j].0 == where_cols@[j] && (value_of(
                        after@,
                        where_cols@[j]@,
                    ) matches Some(v) && cv_eq(vals@[j].1, v)),
            decreases where_cols.len() - i,
        {
            match find_value(after, &where_cols[i]) {
                Some(v) => {
                    vals.push((where_cols[i].clone(), v));
                },
                None => {
                    return Err(DtError::Metadata("where column missing from the row".to_string()));
                },
            }
            i = i + 1;
        }
        Ok(vals)
    }
}


/// The bytes of a tuple's texts, adding up to at most `u64::MAX`.
pub open spec fn tuple_bytes(t: Seq<TupleValue>) -> u64
    decreases t.len(),
{
    if t.len() == 0 {
        0
    } else {
        let n: u64 = match t.last() {
            TupleValue::Text(b) => b@.len() as u64,
            _ => 0,
        };
        sat_add(tuple_bytes(t.drop_last()), n)
    }
}

/// The bytes of an optional tuple's texts.
pub open spec fn opt_tuple_bytes(t: Option<Vec<TupleValue>>) -> u64 {
    match t {
        Some(v) => tuple_bytes(v@),
        None => 0,
    }
}

/// The size a tuple accounts for: the bytes of its texts.
pub fn tuple_size(t: &Vec<TupleValue>) -> (r: u64)
    ensures
        r == tuple_bytes(t@),
{
    let mut r: u64 = 0;
    let mut i: usize = 0;
    assert(t@.subrange(0, 0) =~= Seq::<TupleValue>::empty());
    while i < t.len()
        invariant
            i <= t@.len(),
            r == tuple_bytes(t@.subrange(0, i as int)),
        decreases t.len() - i,
    {
        let n: u64 = match &t[i] {
            TupleValue::Text(b) => b.len() as u64,
            _ => 0,
        };
        r = if n > u64::MAX - r {
            u64::MAX
        } else {
            r + n
        };
        i = i + 1;
        assert(t@.subrange(0, i as int).drop_last() =~= t@.subrange(0, i - 1));
    }
    assert(t@.subrange(0, t@.len() as int) =~= t@);
    r
}

fn opt_tuple_size(t: &Option<Vec<TupleValue>>) -> (r: u64)
    ensures
        r == opt_tuple_bytes(*t),
{
    match t {
        Some(v) => tuple_size(v),
        None => 0,
    }
}

fn size_sum(a: u64, b: u64) -> (r: u64)
    ensures
        r == sat_add(a, b),
{
    if b > u64::MAX - a {
        u64::MAX
    } else {
        a + b
    }
}

/// The size an update accounts for: its new tuple, and the old or else the
/// key tuple.
pub open spec fn update_bytes(e: UpdateEvent) -> u64 {
    let before = match e.old_tuple {
        Some(o) => tuple_bytes(o@),
        None => opt_tuple_bytes(e.key_tuple),
    };
    sat_add(tuple_bytes(e.new_tuple@), before)
}

/// The size a delete accounts for: its old or else its key tuple.
pub open spec fn delete_bytes(e: DeleteEvent) -> u64 {
    match e.old_tuple {
        Some(o) => tuple_bytes(o@),
        None => opt_tuple_bytes(e.key_tuple),
    }
}

/// Whether `row` is what an insert event decodes to.
pub open spec fn insert_decodes(metas: Seq<(u32, TbMeta)>, e: InsertEvent, row: RowData) -> bool {
    &&& meta_for(metas, e.rel_id) matches Some(m)
    &&& row.schema == m.schema && row.tb == m.tb
    &&& row.row_type == RowType::Insert
    &&& row.before is None
    &&& row.after matches Some(a) && tuple_decodes(m, e.tuple@, a@) && keys_distinct(a@)
    &&& row.data_size == tuple_bytes(e.tuple@)
}

/// Whether an insert event decodes.
pub open spec fn insert_ok(metas: Seq<(u32, TbMeta)>, e: InsertEvent) -> bool {
    meta_for(metas, e.rel_id) matches Some(m) && tuple_decodable(m, e.tuple@)
}

/// Whether each `where` column is among the first `n` columns.
pub open spec fn where_cols_within(m: TbMeta, n: int) -> bool {
    forall|i: int|
        0 <= i < m.where_cols@.len() ==> exists|j: int|
            0 <= j < n && #[trigger] m.cols@[j]@ == (#[trigger] m.where_cols@[i])@
}

/// The before image of an update: the old tuple if the event has one, else
/// the key tuple, else the after image's `where` columns, else nothing.
pub open spec fn update_before_decodes(
    m: TbMeta,
    e: UpdateEvent,
    after: Seq<(String, ColValue)>,
    before: Seq<(String, ColValue)>,
) -> bool {
    match e.old_tuple {
        Some(o) => tuple_decodes(m, o@, before),
        None => match e.key_tuple {
            Some(k) => tuple_decodes(m, k@, before),
            None => if m.where_cols@.len() > 0 {
                restricted(after, m.where_cols@, before)
            } else {
                before.len() == 0
            },
        },
    }
}

/// Whether `row` is what an update event decodes to.
pub open spec fn update_decodes(metas: Seq<(u32, TbMeta)>, e: UpdateEvent, row: RowData) -> bool {
    &&& meta_for(metas, e.rel_id) matches Some(m)
    &&& row.schema == m.schema && row.tb == m.tb
    &&& row.row_type == RowType::Update
    &&& row.after matches Some(a) && tuple_decodes(m, e.new_tuple@, a@) && keys_distinct(a@)
    &&& row.before matches Some(b) && update_before_decodes(m, e, row.after->0@, b@)
    &&& row.data_size == update_bytes(e)
}

/// Whether an update event decodes.
pub open spec fn update_ok(metas: Seq<(u32, TbMeta)>, e: UpdateEvent) -> bool {
    &&& meta_for(metas, e.rel_id) matches Some(m)
    &&& tuple_decodable(m, e.new_tuple@)
    &&& match e.old_tuple {
        Some(o) => tuple_decodable(m, o@),
        None => match e.key_tuple {
            Some(k) => tuple_decodable(m, k@),
            None => where_cols_within(m, e.new_tuple@.len() as int),
        },
    }
}

/// Whether `row` is what a delete event decodes to: the before image is the
/// old tuple, else the key tuple, else empty.
pub open spec fn delete_decodes(metas: Seq<(u32, TbMeta)>, e: DeleteEvent, row: RowData) -> bool {
    &&& meta_for(metas, e.rel_id) matches Some(m)
    &&& row.schema == m.schema && row.tb == m.tb
    &&& row.row_type == RowType::Delete
    &&& row.after is None
    &&& row.before matches Some(b) && match e.old_tuple {
        Some(o) => tuple_decodes(m, o@, b@),
        None => match e.key_tuple {
            Some(k) => tuple_decodes(m, k@, b@),
            None => b@.len() == 0,
        },
    }
    &&& row.data_size == delete_bytes(e)
}

/// Whether a delete event decodes: one without old or key tuple only for a
/// table that has `where` columns.
pub open spec fn delete_ok(metas: Seq<(u32, TbMeta)>, e: DeleteEvent) -> bool {
    &&& meta_for(metas, e.rel_id) matches Some(m)
    &&& match e.old_tuple {
        Some(o) => tuple_decodable(m, o@),
        None => match e.key_tuple {
            Some(k) => tuple_decodable(m, k@),
            None => m.where_cols@.len() > 0,
        },
    }
}

proof fn lemma_value_of_some(vals: Seq<(String, ColValue)>, name: Seq<char>)
    ensures
        value_of(vals, name) is Some <==> exists|j: int| 0 <= j < vals.len() && #[trigger] vals[j].0@ == name,
    decreases vals.len(),
{
    if vals.len() > 0 {
        lemma_value_of_some(vals.drop_first(), name);
        if value_of(vals, name) is Some && vals[0].0@ != name {
            let j = choose|j: int| 0 <= j < vals.drop_first().len() && vals.drop_first()[j].0@ == name;
            assert(vals[j + 1].0@ == name);
        }
        if exists|j: int| 0 <= j < vals.len() && #[trigger] vals[j].0@ == name {
            let j = choose|j: int| 0 <= j < vals.len() && vals[j].0@ == name;
            if j > 0 {
                assert(vals.drop_first()[j - 1].0@ == name);
            }
        }
    }
}

proof fn lemma_restrictable_iff(m: TbMeta, tuple: Seq<TupleValue>, after: Seq<(String, ColValue)>)
    requires
        tuple_decodes(m, tuple, after),
    ensures
        restrictable(after, m.where_cols@) <==> where_cols_within(m, tuple.len() as int),
{
    assert forall|i: int| 0 <= i < m.where_cols@.len() implies (value_of(
        after,
        #[trigger] m.where_cols@[i]@,
    ) is Some <==> exists|j: int| 0 <= j < tuple.len() && #[trigger] m.cols@[j]@ == m.where_cols@[i]@) by {
        lemma_value_of_some(after, m.where_cols@[i]@);
        if exists|j: int| 0 <= j < tuple.len() && #[trigger] m.cols@[j]@ == m.where_cols@[i]@ {
            let j = choose|j: int| 0 <= j < tuple.len() && m.cols@[j]@ == m.where_cols@[i]@;
            assert(after[j].0 == m.cols@[j]);
        }
        if value_of(after, m.where_cols@[i]@) is Some {
            let j = choose|j: int| 0 <= j < after.len() && after[j].0@ == m.where_cols@[i]@;
            assert(after[j].0 == m.cols@[j]);
        }
    }
}

/// The item a push handed over: the one now last in the queue, or the one
/// that came back from a full queue.
pub open spec fn handed_item(q1: ItemQueue, r: CdcAction) -> DtItem {
    match r {
        CdcAction::Full(back) => back,
        _ => queue_items(q1).last(),
    }
}

/// Whether a push went as `r` says: the item was appended when the queue
/// had room, and otherwise came back with the queue unchanged.
pub open spec fn push_went(q0: ItemQueue, q1: ItemQueue, r: CdcAction) -> bool {
    &&& queue_capacity(q1) == queue_capacity(q0)
    &&& (r is Pushed || r is Full)
    &&& (queue_items(q0).len() < queue_capacity(q0) <==> r is Pushed)
    &&& r is Pushed ==> queue_items(q1) == queue_items(q0).push(handed_item(q1, r))
    &&& r is Full ==> queue_items(q1) == queue_items(q0)
}

impl PgCdcExtractor {
    /// Decodes an insert event; a metadata error for an unknown relation.
    pub fn decode_insert(&self, event: &InsertEvent) -> (r: Result<RowData, DtError>)
        requires
            metas_wf(self.meta_manager.tb_metas@),
        ensures
            r is Ok <==> insert_ok(self.meta_manager.tb_metas@, *event),
            r matches Ok(row) ==> insert_decodes(self.meta_manager.tb_metas@, *event, row),
            meta_for(self.meta_manager.tb_metas@, event.rel_id) is None ==> (r matches Err(e)
                && e is Metadata),
    {
        let idx = match self.meta_manager.find_tb_meta(event.rel_id) {
            Some(i) => i,
            None => {
                return Err(DtError::Metadata("unknown relation id".to_string()));
            },
        };
        let meta = &self.meta_manager.tb_metas[idx].1;
        proof {
            lemma_meta_for_wf(self.meta_manager.tb_metas@, event.rel_id);
        }
        let after = PgCdcExtractor::parse_row_data(meta, &event.tuple)?;
        Ok(
            RowData {
                schema: meta.schema.clone(),
                tb: meta.tb.clone(),
                row_type: RowType::Insert,
                before: None,
                after: Some(after),
                data_size: tuple_size(&event.tuple),
            },
        )
    }

    /// Decodes an update event. The before image comes from the old tuple,
    /// else the key tuple, else the `where` columns of the after image,
    /// else it is empty.
    pub fn decode_update(&self, event: &UpdateEvent) -> (r: Result<RowData, DtError>)
        requires
            metas_wf(self.meta_manager.tb_metas@),
        ensures
            r is Ok <==> update_ok(self.meta_manager.tb_metas@, *event),
            r matches Ok(row) ==> update_decodes(self.meta_manager.tb_metas@, *event, row),
            meta_for(self.meta_manager.tb_metas@, event.rel_id) is None ==> (r matches Err(e)
                && e is Metadata),
    {
        let idx = match self.meta_manager.find_tb_meta(event.rel_id) {
            Some(i) => i,
            None => {
                return Err(DtError::Metadata("unknown relation id".to_string()));
            },
        };
        let meta = &self.meta_manager.tb_metas[idx].1;
        proof {
            lemma_meta_for_wf(self.meta_manager.tb_metas@, event.rel_id);
        }
        let after = PgCdcExtractor::parse_row_data(meta, &event.new_tuple)?;
        let before = if let Some(old_tuple) = &event.old_tuple {
            PgCdcExtractor::parse_row_data(meta, old_tuple)?
        } else if let Some(key_tuple) = &event.key_tuple {
            PgCdcExtractor::parse_row_data(meta, key_tuple)?
        } else if meta.where_cols.len() > 0 {
            proof {
                lemma_restrictable_iff(*meta, event.new_tuple@, after@);
            }
            PgCdcExtractor::restrict_to(&after, &meta.where_cols)?
        } else {
            Vec::new()
        };
        Ok(
            RowData {
                schema: meta.schema.clone(),
                tb: meta.tb.clone(),
                row_type: RowType::Update,
                before: Some(before),
                after: Some(after),
                data_size: size_sum(
                    tuple_size(&event.new_tuple),
                    match &event.old_tuple {
                        Some(o) => tuple_size(o),
                        None => opt_tuple_size(&event.key_tuple),
                    },
                ),
            },
        )
    }

    /// Decodes a delete event. The before image comes from the old tuple,
    /// else the key tuple, else it is empty; a decode error where it would
    /// be empty and the table has no `where` columns to replay it by.
    pub fn decode_delete(&self, event: &DeleteEvent) -> (r: Result<RowData, DtError>)
        requires
            metas_wf(self.meta_manager.tb_metas@),
        ensures
            r is Ok <==> delete_ok(self.meta_manager.tb_metas@, *event),
            r matches Ok(row) ==> delete_decodes(self.meta_manager.tb_metas@, *event, row),
            meta_for(self.meta_manager.tb_metas@, event.rel_id) is None ==> (r matches Err(e)
                && e is Metadata),
            (meta_for(self.meta_manager.tb_metas@, event.rel_id) matches Some(m)
                && event.old_tuple is None && event.key_tuple is None && m.where_cols@.len() == 0)
                ==> (r matches Err(e) && e is Decode),
    {
        let idx = match self.meta_manager.find_tb_meta(event.rel_id) {
            Some(i) => i,
            None => {
                return Err(DtError::Metadata("unknown relation id".to_string()));
            },
        };
        let meta = &self.meta_manager.tb_metas[idx].1;
        proof {
            lemma_meta_for_wf(self.meta_manager.tb_metas@, event.rel_id);
        }
        let before = if let Some(old_tuple) = &event.old_tuple {
            PgCdcExtractor::parse_row_data(meta, old_tuple)?
        } else if let Some(key_tuple) = &event.key_tuple {
            PgCdcExtractor::parse_row_data(meta, key_tuple)?
        } else if meta.where_cols.len() == 0 {
            return Err(DtError::Decode("delete without old or key tuple on a table without where columns".to_string()));
        } else {
            Vec::new()
        };
        Ok(
            RowData {
                schema: meta.schema.clone(),
                tb: meta.tb.clone(),
                row_type: RowType::Delete,
                before: Some(before),
                after: None,
                data_size: match &event.old_tuple {
                    Some(o) => tuple_size(o),
                    None => opt_tuple_size(&event.key_tuple),
                },
            },
        )
    }

    /// Puts a decoded row in the queue at the position of the current
    /// transaction, unless the filter drops it.
    pub fn push_row_to_buf(&self, queue: &mut ItemQueue, row_data: RowData) -> (r: CdcAction)
        ensures
            filtered(self.filter, row_data.schema@, row_data.tb@, row_data.row_type) ==> (r is Nothing
                && *final(queue) == *old(queue)),
            !filtered(self.filter, row_data.schema@, row_data.tb@, row_data.row_type) ==> ({
                let item = handed_item(*final(queue), r);
                &&& push_went(*old(queue), *final(queue), r)
                &&& item.dt_data == (DtData::Dml { row_data })
                &&& item.position == (Position::PgCdc { lsn: self.tx_lsn })
                &&& item.data_origin_node@ == Seq::<char>::empty()
            }),
    {
        if self.filter.filter(&row_data.schema, &row_data.tb, row_data.row_type) {
            return CdcAction::Nothing;
        }
        let item = DtItem {
            dt_data: DtData::Dml { row_data },
            position: Position::PgCdc { lsn: self.tx_lsn },
            data_origin_node: String::new(),
        };
        match queue.push(item) {
            Ok(()) => {
                assert(queue_items(*queue).last() == item);
                CdcAction::Pushed
            },
            Err(back) => CdcAction::Full(back),
        }
    }
}

/// How a decoded row was handled: dropped by the filter, or handed to the
/// queue at the position of the current transaction.
pub open spec fn row_handled(
    x: PgCdcExtractor,
    q0: ItemQueue,
    q1: ItemQueue,
    r: CdcAction,
    row: RowData,
) -> bool {
    &&& filtered(x.filter, row.schema@, row.tb@, row.row_type) ==> (r is Nothing && q1 == q0)
    &&& !filtered(x.filter, row.schema@, row.tb@, row.row_type) ==> ({
        let item = handed_item(q1, r);
        &&& push_went(q0, q1, r)
        &&& item.dt_data == (DtData::Dml { row_data: row })
        &&& item.position == (Position::PgCdc { lsn: x.tx_lsn })
        &&& item.data_origin_node@ == Seq::<char>::empty()
    })
}

/// The position a standby status update confirms: the committed log
/// sequence number, or the start position while nothing is committed.
pub open spec fn feedback_lsn(committed: Position, start: u64) -> u64 {
    match committed {
        Position::PgCdc { lsn } => lsn,
        _ => start,
    }
}

impl PgCdcExtractor {
    /// Handles one event of the stream other than a relation event. Rows
    /// are decoded and queued; a commit is queued as a commit item at its
    /// position; a keep-alive that asks for a reply gets the committed
    /// position.
    pub fn handle_event(&mut self, event: CdcEvent, committed: Position, queue: &mut ItemQueue) -> (r: Result<CdcAction, DtError>)
        requires
            metas_wf(old(self).meta_manager.tb_metas@),
        ensures
            metas_wf(final(self).meta_manager.tb_metas@),
            *final(self) == (PgCdcExtractor { tx_lsn: final(self).tx_lsn, ..*old(self) }),
            !(event is Begin) ==> final(self).tx_lsn == old(self).tx_lsn,
            match event {
                CdcEvent::Begin { final_lsn } => r matches Ok(a) && a is Nothing && final(self).tx_lsn
                    == final_lsn && *final(queue) == *old(queue),
                CdcEvent::Commit { commit_lsn, xid } => r matches Ok(a) && ({
                    let item = handed_item(*final(queue), a);
                    &&& push_went(*old(queue), *final(queue), a)
                    &&& item.dt_data == (DtData::Commit { xid })
                    &&& item.position == (Position::PgCdc { lsn: commit_lsn })
                    &&& item.data_origin_node@ == Seq::<char>::empty()
                }),
                CdcEvent::Insert(e) => (r is Ok <==> insert_ok(old(self).meta_manager.tb_metas@, e))
                    && (r matches Ok(a) ==> exists|row: RowData|
                    insert_decodes(old(self).meta_manager.tb_metas@, e, row) && #[trigger] row_handled(
                        *old(self),
                        *old(queue),
                        *final(queue),
                        a,
                        row,
                    )) && (r is Err ==> *final(queue) == *old(queue)),
                CdcEvent::Update(e) => (r is Ok <==> update_ok(old(self).meta_manager.tb_metas@, e))
                    && (r matches Ok(a) ==> exists|row: RowData|
                    update_decodes(old(self).meta_manager.tb_metas@, e, row) && #[trigger] row_handled(
                        *old(self),
                        *old(queue),
                        *final(queue),
                        a,
                        row,
                    )) && (r is Err ==> *final(queue) == *old(queue)),
                CdcEvent::Delete(e) => (r is Ok <==> delete_ok(old(self).meta_manager.tb_metas@, e))
                    && (r matches Ok(a) ==> exists|row: RowData|
                    delete_decodes(old(self).meta_manager.tb_metas@, e, row) && #[trigger] row_handled(
                        *old(self),
                        *old(queue),
                        *final(queue),
                        a,
                        row,
                    )) && (r is Err ==> *final(queue) == *old(queue)),
                CdcEvent::KeepAlive { reply } => *final(queue) == *old(queue) && (reply ==> (r
                    matches Ok(a) && a == (CdcAction::StandbyReply {
                    lsn: feedback_lsn(committed, old(self).start_lsn_value),
                }))) && (!reply ==> (r matches Ok(a) && a is Nothing)),
                CdcEvent::Other => r matches Ok(a) && a is Nothing && *final(queue) == *old(queue),
            },
    {
        match event {
            CdcEvent::Begin { final_lsn } => {
                self.tx_lsn = final_lsn;
                Ok(CdcAction::Nothing)
            },
            CdcEvent::Commit { commit_lsn, xid } => {
                let item = DtItem {
                    dt_data: DtData::Commit { xid },
                    position: Position::PgCdc { lsn: commit_lsn },
                    data_origin_node: String::new(),
                };
                match queue.push(item) {
                    Ok(()) => {
                        assert(queue_items(*queue).last() == item);
                        Ok(CdcAction::Pushed)
                    },
                    Err(back) => Ok(CdcAction::Full(back)),
                }
            },
            CdcEvent::Insert(e) => {
                let row = self.decode_insert(&e)?;
                let a = self.push_row_to_buf(queue, row);
                assert(row_handled(*old(self), *old(queue), *final(queue), a, row));
                Ok(a)
            },
            CdcEvent::Update(e) => {
                let row = self.decode_update(&e)?;
                let a = self.push_row_to_buf(queue, row);
                assert(row_handled(*old(self), *old(queue), *final(queue), a, row));
                Ok(a)
            },
            CdcEvent::Delete(e) => {
                let row = self.decode_delete(&e)?;
                let a = self.push_row_to_buf(queue, row);
                assert(row_handled(*old(self), *old(queue), *final(queue), a, row));
                Ok(a)
            },
            CdcEvent::KeepAlive { reply } => {
                if reply {
                    let lsn = match committed {
                        Position::PgCdc { lsn } => lsn,
                        _ => self.start_lsn_value,
                    };
                    Ok(CdcAction::StandbyReply { lsn })
                } else {
                    Ok(CdcAction::Nothing)
                }
            },
            CdcEvent::Other => Ok(CdcAction::Nothing),
        }
    }
}

/// The names of a sequence of column names.
pub open spec fn name_views(s: Seq<String>) -> Seq<Seq<char>> {
    s.map_values(|n: String| n@)
}

/// A row decoded from a full tuple carries exactly the relation's columns,
/// in the relation's order: an insert's after image after a relation event
/// with columns `c1..cn` holds `c1..cn`.
pub proof fn lemma_decoded_columns_follow_relation(
    metas: Seq<(u32, TbMeta)>,
    relation: RelationEvent,
    insert: InsertEvent,
    row: RowData,
)
    requires
        insert.rel_id == relation.rel_id,
        meta_for(metas, relation.rel_id) matches Some(m) && m.cols@ == relation_names(
            relation.columns@,
        ),
        insert.tuple@.len() == relation.columns@.len(),
        insert_decodes(metas, insert, row),
    ensures
        row.after matches Some(a) && crate::model::names_of(a@) == name_views(
            relation_names(relation.columns@),
        ),
        row.after matches Some(a) && crate::model::names_of(a@).to_set() == name_views(
            relation_names(relation.columns@),
        ).to_set(),
        row.after matches Some(a) && keys_distinct(a@),
{
    let a = row.after->0@;
    assert(crate::model::names_of(a) =~= name_views(relation_names(relation.columns@)));
}

/// Every row an insert, update or delete event decodes to keeps the
/// presence rule: an insert has only an after image, a delete only a before
/// image, an update both.
pub proof fn lemma_decoded_rows_keep_presence_rule(
    metas: Seq<(u32, TbMeta)>,
    insert: InsertEvent,
    update: UpdateEvent,
    delete: DeleteEvent,
    inserted: RowData,
    updated: RowData,
    deleted: RowData,
)
    ensures
        insert_decodes(metas, insert, inserted) ==> crate::model::row_images_ok(inserted),
        update_decodes(metas, update, updated) ==> crate::model::row_images_ok(updated),
        delete_decodes(metas, delete, deleted) ==> crate::model::row_images_ok(deleted),
{
}

/// A decoded row that the filter keeps reaches the back of the queue when
/// the queue has room, at the position of the current transaction.
pub proof fn lemma_kept_row_reaches_queue(
    x: PgCdcExtractor,
    q0: ItemQueue,
    q1: ItemQueue,
    a: CdcAction,
    row: RowData,
)
    requires
        row_handled(x, q0, q1, a, row),
        !filtered(x.filter, row.schema@, row.tb@, row.row_type),
        queue_items(q0).len() < queue_capacity(q0),
    ensures
        a is Pushed,
        queue_items(q1).len() == queue_items(q0).len() + 1,
        queue_items(q1).drop_last() == queue_items(q0),
        queue_items(q1).last().dt_data == (DtData::Dml { row_data: row }),
        queue_items(q1).last().position == (Position::PgCdc { lsn: x.tx_lsn }),
{
    assert(queue_items(q1).drop_last() =~= queue_items(q0));
}

/// An update's after image, decoded from a full new tuple, carries exactly
/// the relation's columns in the relation's order.
pub proof fn lemma_update_columns_follow_relation(
    metas: Seq<(u32, TbMeta)>,
    relation: RelationEvent,
    update: UpdateEvent,
    row: RowData,
)
    requires
        update.rel_id == relation.rel_id,
        meta_for(metas, relation.rel_id) matches Some(m) && m.cols@ == relation_names(
            relation.columns@,
        ),
        update.new_tuple@.len() == relation.columns@.len(),
        update_decodes(metas, update, row),
    ensures
        row.after matches Some(a) && crate::model::names_of(a@) == name_views(
            relation_names(relation.columns@),
        ),
        row.after matches Some(a) && keys_distinct(a@),
{
    let a = row.after->0@;
    assert(crate::model::names_of(a) =~= name_views(relation_names(relation.columns@)));
}

} // verus!
