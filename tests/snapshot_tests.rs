use ape_dts::meta::TbMeta;
use ape_dts::model::{ColType, ColValue, DateTimeValue, DateValue, DtData, DtError, TimeValue};
use ape_dts::pipeline::{plan_batch, SinkBatch};
use ape_dts::queue::{drain, ItemQueue};
use ape_dts::snapshot::{
    cell_read_for, parse_date, parse_datetime, parse_time, CellRead, MysqlCell, MysqlSnapshotExtractor,
};

fn table_meta() -> TbMeta {
    TbMeta {
        schema: "db1".to_string(),
        tb: "t".to_string(),
        cols: vec!["id".to_string(), "v".to_string()],
        col_types: vec![ColType::Long, ColType::String],
        order_col: Some("id".to_string()),
        where_cols: vec!["id".to_string()],
    }
}

/// Answers a slice query from an in-memory table ordered by id.
fn answer(rows: &[(i32, &str)], start: &Option<ColValue>, limit: usize) -> Vec<(i32, String)> {
    rows.iter()
        .filter(|(id, _)| match start {
            Some(ColValue::Long(b)) => id > b,
            _ => true,
        })
        .take(limit)
        .map(|(id, v)| (*id, v.to_string()))
        .collect()
}

#[test]
fn snapshot_slice_scan_scenario() {
    let table = [(1, "a"), (2, "b"), (3, "c"), (4, "d"), (5, "e")];
    let meta = table_meta();
    let mut x =
        MysqlSnapshotExtractor::new("db1".to_string(), "t".to_string(), 2, Some("id".to_string())).unwrap();
    let mut q = ItemQueue::new(16).unwrap();
    let mut queries = Vec::new();
    while let Some(query) = x.next_query() {
        queries.push((query.sql.clone(), query.start_value.clone()));
        let slice = answer(&table, &query.start_value, x.slice_size);
        let mut last = None;
        for (id, v) in &slice {
            let cells = vec![MysqlCell::Signed(*id as i64), MysqlCell::Bytes(v.as_bytes().to_vec())];
            let row = x.row_from_cells(&meta, cells).unwrap();
            x.push_row_to_buffer(&mut q, row).unwrap();
            last = Some(ColValue::Long(*id));
        }
        x.on_slice(slice.len(), last);
    }
    assert_eq!(
        queries,
        vec![
            ("SELECT * FROM db1.t ORDER BY id ASC LIMIT 2".to_string(), None),
            ("SELECT * FROM db1.t WHERE id > ? ORDER BY id ASC LIMIT 2".to_string(), Some(ColValue::Long(2))),
            ("SELECT * FROM db1.t WHERE id > ? ORDER BY id ASC LIMIT 2".to_string(), Some(ColValue::Long(4))),
        ]
    );
    let plan = plan_batch(drain(&mut q));
    match plan.batch {
        SinkBatch::Dml(rows) => {
            let ids: Vec<ColValue> = rows.iter().map(|r| r.after.as_ref().unwrap()[0].1.clone()).collect();
            assert_eq!(ids, (1..=5).map(ColValue::Long).collect::<Vec<_>>());
            assert_eq!(rows[4].after.as_ref().unwrap()[1].1, ColValue::Blob(b"e".to_vec()));
        }
        _ => panic!("expected rows"),
    }
}

#[test]
fn snapshot_exact_multiple_needs_one_more_query() {
    let table = [(1, "a"), (2, "b"), (3, "c"), (4, "d")];
    let mut x =
        MysqlSnapshotExtractor::new("db1".to_string(), "t".to_string(), 2, Some("id".to_string())).unwrap();
    let mut count = 0;
    let mut seen = Vec::new();
    while let Some(query) = x.next_query() {
        count += 1;
        let slice = answer(&table, &query.start_value, 2);
        seen.extend(slice.iter().map(|(id, _)| *id));
        let last = slice.last().map(|(id, _)| ColValue::Long(*id));
        x.on_slice(slice.len(), last);
    }
    assert_eq!(count, 3);
    assert_eq!(seen, vec![1, 2, 3, 4]);
}

#[test]
fn snapshot_without_order_column_reads_once() {
    let mut x = MysqlSnapshotExtractor::new("db1".to_string(), "t".to_string(), 2, None).unwrap();
    let q = x.next_query().unwrap();
    assert_eq!(q.sql, "SELECT * FROM db1.t");
    x.on_slice(7, None);
    assert!(x.next_query().is_none());
}

#[test]
fn snapshot_zero_slice_size_is_config_error() {
    let r = MysqlSnapshotExtractor::new("db1".to_string(), "t".to_string(), 0, None);
    assert!(matches!(r, Err(DtError::Config(_))));
}

#[test]
fn snapshot_cell_reads() {
    assert_eq!(cell_read_for(ColType::Tiny), CellRead::Signed);
    assert_eq!(cell_read_for(ColType::Year), CellRead::Unsigned);
    assert_eq!(cell_read_for(ColType::Double), CellRead::Text);
    assert_eq!(cell_read_for(ColType::DateTime), CellRead::Bytes);
}

#[test]
fn snapshot_cell_decoding() {
    let get = MysqlSnapshotExtractor::get_col_value;
    assert_eq!(get(ColType::Tiny, MysqlCell::Signed(-5)), Ok(ColValue::Tiny(-5)));
    assert!(matches!(get(ColType::Tiny, MysqlCell::Signed(300)), Err(DtError::Decode(_))));
    assert_eq!(get(ColType::UnsignedShort, MysqlCell::Unsigned(65535)), Ok(ColValue::UnsignedShort(65535)));
    assert_eq!(get(ColType::Bit, MysqlCell::Unsigned(5)), Ok(ColValue::Bit(5)));
    assert_eq!(get(ColType::Decimal, MysqlCell::Text("1.50".to_string())), Ok(ColValue::Decimal("1.50".to_string())));
    assert_eq!(get(ColType::Long, MysqlCell::Null), Ok(ColValue::Null));
    assert_eq!(get(ColType::String, MysqlCell::Bytes(vec![0xff])), Ok(ColValue::Blob(vec![0xff])));
    assert_eq!(get(ColType::String, MysqlCell::Bytes(b"a".to_vec())), Ok(ColValue::Blob(b"a".to_vec())));
    assert_eq!(get(ColType::VarBinary, MysqlCell::Bytes(vec![1, 2])), Ok(ColValue::Blob(vec![1, 2])));
    assert_eq!(get(ColType::Json, MysqlCell::Bytes(b"{}".to_vec())), Ok(ColValue::Json(b"{}".to_vec())));
    assert_eq!(get(ColType::Json, MysqlCell::Bytes(vec![0xff])), Ok(ColValue::Json(vec![0xff])));
    assert_eq!(get(ColType::Unknown, MysqlCell::Bytes(vec![1])), Ok(ColValue::Null));
    assert!(matches!(get(ColType::Long, MysqlCell::Text("1".to_string())), Err(DtError::Decode(_))));
}

#[test]
fn snapshot_temporal_bytes() {
    assert_eq!(parse_date(&vec![4, 0xE7, 0x07, 12, 31]), Some(DateValue { year: 2023, month: 12, day: 31 }));
    assert_eq!(parse_date(&vec![0]), Some(DateValue { year: 0, month: 0, day: 0 }));
    assert_eq!(parse_date(&vec![3, 1, 2]), None);
    assert_eq!(
        parse_datetime(&vec![11, 0xE7, 0x07, 1, 2, 3, 4, 5, 0x40, 0xE2, 0x01, 0x00]),
        Some(DateTimeValue { date: DateValue { year: 2023, month: 1, day: 2 }, hour: 3, minute: 4, second: 5, micros: 123456 })
    );
    assert_eq!(
        parse_datetime(&vec![4, 0xE7, 0x07, 1, 2]),
        Some(DateTimeValue { date: DateValue { year: 2023, month: 1, day: 2 }, hour: 0, minute: 0, second: 0, micros: 0 })
    );
    assert_eq!(parse_datetime(&vec![7, 0xE7, 0x07, 1, 2]), None);
    assert_eq!(
        parse_time(&vec![12, 1, 1, 0, 0, 0, 2, 3, 4, 1, 0, 0, 0]),
        Some(TimeValue { negative: true, hours: 26, minutes: 3, seconds: 4, micros: 1 })
    );
    assert_eq!(parse_time(&vec![8, 0, 0xff, 0xff, 0xff, 0xff, 0, 0, 0]), None);
    assert_eq!(
        MysqlSnapshotExtractor::get_col_value(ColType::Timestamp, MysqlCell::Bytes(vec![4, 0xE7, 0x07, 1, 2])),
        Ok(ColValue::Timestamp(DateTimeValue { date: DateValue { year: 2023, month: 1, day: 2 }, hour: 0, minute: 0, second: 0, micros: 0 }))
    );
}

#[test]
fn snapshot_row_with_wrong_column_count() {
    let x = MysqlSnapshotExtractor::new("db1".to_string(), "t".to_string(), 2, None).unwrap();
    let r = x.row_from_cells(&table_meta(), vec![MysqlCell::Signed(1)]);
    assert!(matches!(r, Err(DtError::Metadata(_))));
}

#[test]
fn snapshot_push_full_queue() {
    let x = MysqlSnapshotExtractor::new("db1".to_string(), "t".to_string(), 2, None).unwrap();
    let mut q = ItemQueue::new(1).unwrap();
    let row = x.row_from_cells(&table_meta(), vec![MysqlCell::Signed(1), MysqlCell::Null]).unwrap();
    x.push_row_to_buffer(&mut q, row.clone()).unwrap();
    assert_eq!(q.len(), 1);
    let back = x.push_row_to_buffer(&mut q, row.clone()).unwrap_err();
    assert_eq!(back.dt_data, DtData::Dml { row_data: row });
}

#[test]
fn snapshot_row_size() {
    let x = MysqlSnapshotExtractor::new("db1".to_string(), "t".to_string(), 2, None).unwrap();
    let row = x
        .row_from_cells(&table_meta(), vec![MysqlCell::Signed(1), MysqlCell::Bytes(b"abc".to_vec())])
        .unwrap();
    assert_eq!(row.data_size, 11);
    assert_eq!(row.after.unwrap()[1].1, ColValue::Blob(b"abc".to_vec()));
}
