use ape_dts::cdc::{
    CdcAction, CdcEvent, DeleteEvent, InsertEvent, PgCdcExtractor, PgMetaManager, RelationColumn,
    RelationEvent, TupleValue, UpdateEvent,
};
use ape_dts::lsn::position_to_text;
use ape_dts::meta::{RdbFilter, TbMeta, TypeRegistry};
use ape_dts::model::{ColType, ColValue, DtData, DtError, Position, RowType};
use ape_dts::pipeline::{plan_batch, SinkBatch};
use ape_dts::queue::{drain, ItemQueue};

const REL_ID: u32 = 16384;
const COMMIT_LSN: u64 = 0x2C28_0E70;

fn no_filter() -> RdbFilter {
    RdbFilter { ignore_dbs: vec![], ignore_tbs: vec![], ignore_row_types: vec![] }
}

fn base_meta(where_cols: Vec<&str>) -> TbMeta {
    TbMeta {
        schema: "db1".to_string(),
        tb: "t".to_string(),
        cols: vec![],
        col_types: vec![],
        order_col: Some("id".to_string()),
        where_cols: where_cols.into_iter().map(|c| c.to_string()).collect(),
    }
}

fn relation() -> RelationEvent {
    RelationEvent {
        rel_id: REL_ID,
        namespace: "db1".to_string(),
        name: "t".to_string(),
        columns: vec![
            RelationColumn { name: "id".to_string(), type_oid: 23 },
            RelationColumn { name: "v".to_string(), type_oid: 25 },
        ],
    }
}

fn extractor(where_cols: Vec<&str>) -> PgCdcExtractor {
    let mgr = PgMetaManager::new(TypeRegistry::builtin());
    let mut x = PgCdcExtractor::new(
        mgr,
        no_filter(),
        "postgres://localhost/db1".to_string(),
        "slot".to_string(),
        "0/0".to_string(),
    )
    .unwrap();
    x.decode_relation(&relation(), base_meta(where_cols)).unwrap();
    x
}

fn text(s: &str) -> TupleValue {
    TupleValue::Text(s.as_bytes().to_vec())
}

fn vals(v: &[(&str, ColValue)]) -> Vec<(String, ColValue)> {
    v.iter().map(|(n, c)| (n.to_string(), c.clone())).collect()
}

#[test]
fn cdc_insert_scenario() {
    let mut x = extractor(vec!["id"]);
    let mut q = ItemQueue::new(16).unwrap();
    let a = x.handle_event(CdcEvent::Begin { final_lsn: COMMIT_LSN }, Position::Nil, &mut q).unwrap();
    assert!(matches!(a, CdcAction::Nothing));
    let ins = InsertEvent { rel_id: REL_ID, tuple: vec![text("7"), text("g")] };
    let a = x.handle_event(CdcEvent::Insert(ins), Position::Nil, &mut q).unwrap();
    assert!(matches!(a, CdcAction::Pushed));
    let a = x
        .handle_event(CdcEvent::Commit { commit_lsn: COMMIT_LSN, xid: 1 }, Position::Nil, &mut q)
        .unwrap();
    assert!(matches!(a, CdcAction::Pushed));

    let plan = plan_batch(drain(&mut q));
    assert_eq!(plan.count, 1);
    match plan.batch {
        SinkBatch::Dml(rows) => {
            assert_eq!(rows.len(), 1);
            assert_eq!(rows[0].row_type, RowType::Insert);
            assert_eq!(rows[0].before, None);
            assert_eq!(
                rows[0].after,
                Some(vals(&[("id", ColValue::Long(7)), ("v", ColValue::String("g".to_string()))]))
            );
        }
        _ => panic!("expected a DML batch"),
    }
    let p = Position::PgCdc { lsn: COMMIT_LSN };
    assert_eq!(plan.last_received, Some(p));
    assert_eq!(plan.last_commit, Some(p));
    assert_eq!(position_to_text(&p), "0/2C280E70");
}

#[test]
fn cdc_update_with_key_tuple_only() {
    let x = extractor(vec!["id"]);
    let ev = UpdateEvent {
        rel_id: REL_ID,
        old_tuple: None,
        key_tuple: Some(vec![text("7")]),
        new_tuple: vec![text("7"), text("h")],
    };
    let row = x.decode_update(&ev).unwrap();
    assert_eq!(row.row_type, RowType::Update);
    assert_eq!(row.before, Some(vals(&[("id", ColValue::Long(7))])));
    assert_eq!(
        row.after,
        Some(vals(&[("id", ColValue::Long(7)), ("v", ColValue::String("h".to_string()))]))
    );
}

#[test]
fn cdc_update_without_tuples_uses_where_cols() {
    let x = extractor(vec!["id"]);
    let ev = UpdateEvent {
        rel_id: REL_ID,
        old_tuple: None,
        key_tuple: None,
        new_tuple: vec![text("8"), text("x")],
    };
    let row = x.decode_update(&ev).unwrap();
    assert_eq!(row.before, Some(vals(&[("id", ColValue::Long(8))])));
}

#[test]
fn cdc_update_old_tuple_wins() {
    let x = extractor(vec!["id"]);
    let ev = UpdateEvent {
        rel_id: REL_ID,
        old_tuple: Some(vec![text("1"), text("a")]),
        key_tuple: Some(vec![text("2")]),
        new_tuple: vec![text("1"), text("b")],
    };
    let row = x.decode_update(&ev).unwrap();
    assert_eq!(
        row.before,
        Some(vals(&[("id", ColValue::Long(1)), ("v", ColValue::String("a".to_string()))]))
    );
}

#[test]
fn cdc_delete_without_tuples() {
    let x = extractor(vec!["id"]);
    let ev = DeleteEvent { rel_id: REL_ID, old_tuple: None, key_tuple: None };
    let row = x.decode_delete(&ev).unwrap();
    assert_eq!(row.row_type, RowType::Delete);
    assert_eq!(row.before, Some(vec![]));
    assert_eq!(row.after, None);
}

#[test]
fn cdc_delete_without_tuples_or_where_cols_is_decode_error() {
    let x = extractor(vec![]);
    let ev = DeleteEvent { rel_id: REL_ID, old_tuple: None, key_tuple: None };
    assert!(matches!(x.decode_delete(&ev), Err(DtError::Decode(_))));
}

#[test]
fn cdc_decoded_keys_follow_relation_order() {
    let x = extractor(vec!["id"]);
    let ins = InsertEvent { rel_id: REL_ID, tuple: vec![TupleValue::Null, text("z")] };
    let row = x.decode_insert(&ins).unwrap();
    let names: Vec<String> = row.after.unwrap().into_iter().map(|(n, _)| n).collect();
    assert_eq!(names, vec!["id".to_string(), "v".to_string()]);
}

#[test]
fn cdc_unknown_relation_is_metadata_error() {
    let x = extractor(vec!["id"]);
    let ins = InsertEvent { rel_id: 1, tuple: vec![text("1")] };
    assert!(matches!(x.decode_insert(&ins), Err(DtError::Metadata(_))));
}

#[test]
fn cdc_unknown_type_oid_is_metadata_error() {
    let mut x = extractor(vec!["id"]);
    let mut rel = relation();
    rel.rel_id = 7;
    rel.columns.push(RelationColumn { name: "w".to_string(), type_oid: 999_999 });
    assert!(matches!(x.decode_relation(&rel, base_meta(vec![])), Err(DtError::Metadata(_))));
    let ins = InsertEvent { rel_id: 7, tuple: vec![text("1")] };
    assert!(matches!(x.decode_insert(&ins), Err(DtError::Metadata(_))));
}

#[test]
fn cdc_unchanged_toast_is_unexpected() {
    let x = extractor(vec!["id"]);
    let ins = InsertEvent { rel_id: REL_ID, tuple: vec![text("1"), TupleValue::UnchangedToast] };
    assert!(matches!(x.decode_insert(&ins), Err(DtError::Unexpected(_))));
}

#[test]
fn cdc_bad_text_is_decode_error() {
    let x = extractor(vec!["id"]);
    let ins = InsertEvent { rel_id: REL_ID, tuple: vec![text("seven"), text("g")] };
    assert!(matches!(x.decode_insert(&ins), Err(DtError::Decode(_))));
    let ins = InsertEvent { rel_id: REL_ID, tuple: vec![text("1"), TupleValue::Text(vec![0xff, 0xfe])] };
    assert!(matches!(x.decode_insert(&ins), Err(DtError::Decode(_))));
}

#[test]
fn cdc_too_many_values_is_metadata_error() {
    let x = extractor(vec!["id"]);
    let ins = InsertEvent { rel_id: REL_ID, tuple: vec![text("1"), text("a"), text("b")] };
    assert!(matches!(x.decode_insert(&ins), Err(DtError::Metadata(_))));
}

#[test]
fn cdc_filtered_rows_are_not_queued() {
    let mgr = PgMetaManager::new(TypeRegistry::builtin());
    let filter = RdbFilter {
        ignore_dbs: vec![],
        ignore_tbs: vec![("db1".to_string(), "t".to_string())],
        ignore_row_types: vec![],
    };
    let mut x = PgCdcExtractor::new(mgr, filter, String::new(), String::new(), "0/10".to_string()).unwrap();
    x.decode_relation(&relation(), base_meta(vec!["id"])).unwrap();
    let mut q = ItemQueue::new(4).unwrap();
    let ins = InsertEvent { rel_id: REL_ID, tuple: vec![text("7"), text("g")] };
    let a = x.handle_event(CdcEvent::Insert(ins), Position::Nil, &mut q).unwrap();
    assert!(matches!(a, CdcAction::Nothing));
    assert!(q.is_empty());
}

#[test]
fn cdc_full_queue_hands_item_back() {
    let mut x = extractor(vec!["id"]);
    let mut q = ItemQueue::new(1).unwrap();
    let a = x.handle_event(CdcEvent::Commit { commit_lsn: 5, xid: 1 }, Position::Nil, &mut q).unwrap();
    assert!(matches!(a, CdcAction::Pushed));
    let a = x.handle_event(CdcEvent::Commit { commit_lsn: 6, xid: 2 }, Position::Nil, &mut q).unwrap();
    match a {
        CdcAction::Full(item) => {
            assert_eq!(item.dt_data, DtData::Commit { xid: 2 });
            assert_eq!(item.position, Position::PgCdc { lsn: 6 });
        }
        _ => panic!("expected the item back"),
    }
    assert_eq!(q.len(), 1);
}

#[test]
fn cdc_keepalive_replies_with_committed_position() {
    let mut x = extractor(vec!["id"]);
    let mut q = ItemQueue::new(4).unwrap();
    let a = x
        .handle_event(CdcEvent::KeepAlive { reply: true }, Position::PgCdc { lsn: COMMIT_LSN }, &mut q)
        .unwrap();
    assert!(matches!(a, CdcAction::StandbyReply { lsn } if lsn == COMMIT_LSN));
    let a = x.handle_event(CdcEvent::KeepAlive { reply: false }, Position::Nil, &mut q).unwrap();
    assert!(matches!(a, CdcAction::Nothing));
}

#[test]
fn cdc_keepalive_before_any_commit_replies_with_start() {
    let mgr = PgMetaManager::new(TypeRegistry::builtin());
    let mut x =
        PgCdcExtractor::new(mgr, no_filter(), String::new(), String::new(), "1/A".to_string()).unwrap();
    assert_eq!(x.start_lsn_value, 0x1_0000_000A);
    let mut q = ItemQueue::new(4).unwrap();
    let a = x.handle_event(CdcEvent::KeepAlive { reply: true }, Position::Nil, &mut q).unwrap();
    assert!(matches!(a, CdcAction::StandbyReply { lsn } if lsn == 0x1_0000_000A));
}

#[test]
fn cdc_bad_start_lsn_is_config_error() {
    let mgr = PgMetaManager::new(TypeRegistry::builtin());
    let r = PgCdcExtractor::new(mgr, no_filter(), String::new(), String::new(), "nonsense".to_string());
    assert!(matches!(r, Err(DtError::Config(_))));
}

#[test]
fn cdc_parses_commit_lsn_text() {
    let mgr = PgMetaManager::new(TypeRegistry::builtin());
    let x = PgCdcExtractor::new(mgr, no_filter(), String::new(), String::new(), "0/2C280E70".to_string())
        .unwrap();
    assert_eq!(x.start_lsn_value, COMMIT_LSN);
}

#[test]
fn cdc_builtin_types() {
    let reg = TypeRegistry::builtin();
    assert_eq!(reg.get(23), Some(ColType::Long));
    assert_eq!(reg.get(25), Some(ColType::String));
    assert_eq!(reg.get(1082), Some(ColType::Date));
    assert_eq!(reg.get(424242), None);
}

#[test]
fn cdc_row_sizes_count_text_bytes() {
    let x = extractor(vec!["id"]);
    let ins = InsertEvent { rel_id: REL_ID, tuple: vec![text("7"), text("gh")] };
    assert_eq!(x.decode_insert(&ins).unwrap().data_size, 3);
    let ev = UpdateEvent {
        rel_id: REL_ID,
        old_tuple: None,
        key_tuple: Some(vec![text("7")]),
        new_tuple: vec![text("7"), text("h")],
    };
    assert_eq!(x.decode_update(&ev).unwrap().data_size, 3);
    let ev = DeleteEvent { rel_id: REL_ID, old_tuple: Some(vec![text("12"), TupleValue::Null]), key_tuple: None };
    assert_eq!(x.decode_delete(&ev).unwrap().data_size, 2);
}

#[test]
fn cdc_push_succeeds_when_queue_has_room() {
    let mut x = extractor(vec!["id"]);
    let mut q = ItemQueue::new(2).unwrap();
    for i in 0..2 {
        let ins = InsertEvent { rel_id: REL_ID, tuple: vec![text(&i.to_string()), text("g")] };
        let a = x.handle_event(CdcEvent::Insert(ins), Position::Nil, &mut q).unwrap();
        assert!(matches!(a, CdcAction::Pushed));
    }
    let ins = InsertEvent { rel_id: REL_ID, tuple: vec![text("9"), text("g")] };
    let a = x.handle_event(CdcEvent::Insert(ins), Position::Nil, &mut q).unwrap();
    assert!(matches!(a, CdcAction::Full(_)));
    assert_eq!(q.len(), 2);
}

#[test]
fn cdc_json_column_keeps_bytes() {
    let mgr = PgMetaManager::new(TypeRegistry::builtin());
    let mut x = PgCdcExtractor::new(mgr, no_filter(), String::new(), String::new(), "0/0".to_string()).unwrap();
    let rel = RelationEvent {
        rel_id: 5,
        namespace: "db1".to_string(),
        name: "j".to_string(),
        columns: vec![RelationColumn { name: "doc".to_string(), type_oid: 3802 }],
    };
    x.decode_relation(&rel, base_meta(vec![])).unwrap();
    let row = x.decode_insert(&InsertEvent { rel_id: 5, tuple: vec![text("{\"a\": 1}")] }).unwrap();
    assert_eq!(row.after, Some(vals(&[("doc", ColValue::Json(b"{\"a\": 1}".to_vec()))])));
}

#[test]
fn cdc_start_lsn_forms() {
    let parse = |t: &str| {
        PgCdcExtractor::new(PgMetaManager::new(TypeRegistry::builtin()), no_filter(), String::new(), String::new(), t.to_string())
            .map(|x| x.start_lsn_value)
    };
    assert_eq!(parse("+1/a"), Ok(0x1_0000_000A));
    assert_eq!(parse("FFFFFFFF/FFFFFFFF"), Ok(u64::MAX));
    assert!(matches!(parse("1/"), Err(DtError::Config(_))));
    assert!(matches!(parse("1"), Err(DtError::Config(_))));
    assert!(matches!(parse("1/2/3"), Err(DtError::Config(_))));
    assert!(matches!(parse("g/1"), Err(DtError::Config(_))));
}

#[test]
fn cdc_duplicate_column_names_are_metadata_error() {
    let mut x = extractor(vec!["id"]);
    let mut rel = relation();
    rel.rel_id = 9;
    rel.columns.push(RelationColumn { name: "id".to_string(), type_oid: 23 });
    assert!(matches!(x.decode_relation(&rel, base_meta(vec![])), Err(DtError::Metadata(_))));
}
