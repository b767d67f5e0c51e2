use ape_dts::model::{ColValue, DtError, RowData, RowType};
use ape_dts::monitor::{BaseSinker, Counter, CounterType, Monitor};
use ape_dts::sinker::{batch_windows, serial_windows, RdbRouter, RdkafkaSinker, StarRocksSinker};

fn row(row_type: RowType, id: i32, v: &str) -> RowData {
    let image = Some(vec![
        ("id".to_string(), ColValue::Long(id)),
        ("v".to_string(), ColValue::String(v.to_string())),
    ]);
    let (before, after) = match row_type {
        RowType::Insert => (None, image),
        RowType::Delete => (image, None),
        RowType::Update => (image.clone(), image),
    };
    RowData { schema: "db1".to_string(), tb: "t".to_string(), row_type, before, after, data_size: 10 }
}

fn starrocks(batch_size: usize, password: &str) -> StarRocksSinker {
    StarRocksSinker::new(
        batch_size,
        "127.0.0.1".to_string(),
        "8040".to_string(),
        "root".to_string(),
        password.to_string(),
    )
    .unwrap()
}

fn header<'a>(h: &'a [(String, String)], name: &str) -> Option<&'a str> {
    h.iter().find(|(n, _)| n == name).map(|(_, v)| v.as_str())
}

#[test]
fn starrocks_batch_insert() {
    let s = starrocks(10, "");
    let rows = vec![row(RowType::Insert, 1, "a"), row(RowType::Insert, 2, "b")];
    assert_eq!(s.sink_windows(&rows, true), vec![(0, 2)]);
    let req = s.build_request(&rows, 0, 2).unwrap();
    assert_eq!(req.url, "http://127.0.0.1:8040/api/db1/t/_stream_load");
    assert_eq!(req.body, r#"[{"id":1,"v":"a"},{"id":2,"v":"b"}]"#);
    assert_eq!(header(&req.headers, "format"), Some("json"));
    assert_eq!(header(&req.headers, "strip_outer_array"), Some("true"));
    assert_eq!(header(&req.headers, "Expect"), Some("100-continue"));
    assert_eq!(header(&req.headers, "columns"), None);
    assert_eq!(req.username, "root");
    assert_eq!(req.password, None);
    assert_eq!(req.data_size, 20);
    assert!(StarRocksSinker::check_response(200, r#"{"TxnId":2039,"Status":"Success","Message":"OK"}"#).is_ok());
}

#[test]
fn starrocks_delete_marks_operation() {
    let s = starrocks(10, "pw");
    let rows = vec![row(RowType::Delete, 3, "c")];
    let req = s.build_request(&rows, 0, 1).unwrap();
    assert_eq!(header(&req.headers, "columns"), Some("__op='delete'"));
    assert_eq!(req.body, r#"[{"id":3,"v":"c"}]"#);
    assert_eq!(req.password, Some("pw".to_string()));
}

#[test]
fn starrocks_escapes_text() {
    let s = starrocks(10, "");
    let rows = vec![row(RowType::Insert, 1, "say \"hi\"\n")];
    let req = s.build_request(&rows, 0, 1).unwrap();
    assert_eq!(req.body, "[{\"id\":1,\"v\":\"say \\\"hi\\\"\\n\"}]");
}

#[test]
fn starrocks_window_without_image_is_sink_error() {
    let s = starrocks(10, "");
    let rows = vec![row(RowType::Delete, 1, "a"), row(RowType::Insert, 2, "b")];
    assert!(matches!(s.build_request(&rows, 0, 2), Err(DtError::Sink(_))));
}

#[test]
fn starrocks_windows_by_row_type() {
    let s = starrocks(2, "");
    let inserts: Vec<RowData> = (0..5).map(|i| row(RowType::Insert, i, "x")).collect();
    assert_eq!(s.sink_windows(&inserts, true), vec![(0, 2), (2, 2), (4, 1)]);
    assert_eq!(s.sink_windows(&inserts, false), serial_windows(5));
    let updates: Vec<RowData> = (0..3).map(|i| row(RowType::Update, i, "x")).collect();
    assert_eq!(s.sink_windows(&updates, true), vec![(0, 1), (1, 1), (2, 1)]);
    assert_eq!(s.sink_windows(&vec![], true), vec![]);
}

#[test]
fn starrocks_blob_text_loads_as_string() {
    let s = starrocks(10, "");
    let mut r = row(RowType::Insert, 1, "a");
    r.after = Some(vec![
        ("v".to_string(), ColValue::Blob(b"x\ty".to_vec())),
        ("b".to_string(), ColValue::Blob(vec![0xff, 0x01])),
        ("j".to_string(), ColValue::Json(b"{}".to_vec())),
        ("c".to_string(), ColValue::String("\u{1}".to_string())),
    ]);
    let req = s.build_request(&vec![r], 0, 1).unwrap();
    assert_eq!(req.body, r#"[{"v":"x\ty","b":"\\xff01","j":"{}","c":"\u0001"}]"#);
}

#[test]
fn starrocks_errors_name_status_and_result() {
    assert_eq!(
        StarRocksSinker::check_response(500, "oops"),
        Err(DtError::Sink("stream load request failed, status_code: 500".to_string()))
    );
    assert_eq!(
        StarRocksSinker::check_response(200, r#"{"Status":"Fail"}"#),
        Err(DtError::Sink(r#"stream load request failed, status_code: 200, load_result: {"Status":"Fail"}"#.to_string()))
    );
}

#[test]
fn starrocks_response_failures() {
    assert!(matches!(StarRocksSinker::check_response(500, r#"{"Status":"Success"}"#), Err(DtError::Sink(_))));
    assert!(matches!(StarRocksSinker::check_response(200, r#"{"Status":"Fail"}"#), Err(DtError::Sink(_))));
    assert!(matches!(StarRocksSinker::check_response(200, "not json"), Err(DtError::Sink(_))));
    assert!(matches!(StarRocksSinker::check_response(200, r#"{"Message":"OK"}"#), Err(DtError::Sink(_))));
    assert!(StarRocksSinker::check_load_status(200, &Some("Success".to_string()), "").is_ok());
    assert!(StarRocksSinker::check_load_status(200, &None, "").is_err());
}

#[test]
fn batch_windows_cover_all_rows() {
    assert_eq!(batch_windows(5, 2), vec![(0, 2), (2, 2), (4, 1)]);
    assert_eq!(batch_windows(4, 2), vec![(0, 2), (2, 2)]);
    assert_eq!(batch_windows(0, 2), vec![]);
    assert_eq!(batch_windows(3, 0), vec![]);
    assert_eq!(batch_windows(3, 10), vec![(0, 3)]);
}

#[test]
fn kafka_delivery_error_aborts_batch() {
    let results: Vec<Result<(), String>> = vec![Ok(()), Err("message timed out".to_string()), Ok(())];
    assert_eq!(
        RdkafkaSinker::check_deliveries(&results),
        Err(DtError::Sink("failed in kafka producer, error: message timed out".to_string()))
    );
    let results: Vec<Result<(), String>> = vec![Ok(()), Ok(()), Ok(())];
    assert_eq!(RdkafkaSinker::check_deliveries(&results), Ok(()));
}

#[test]
fn kafka_first_failure_is_named() {
    let results: Vec<Result<(), String>> =
        vec![Ok(()), Err("QueueFull".to_string()), Err("Timeout".to_string())];
    assert_eq!(
        RdkafkaSinker::check_deliveries(&results),
        Err(DtError::Sink("failed in kafka producer, error: QueueFull".to_string()))
    );
}

#[test]
fn starrocks_zero_batch_size_is_config_error() {
    let r = StarRocksSinker::new(0, "h".to_string(), "1".to_string(), "u".to_string(), String::new());
    assert!(matches!(r, Err(DtError::Config(_))));
}

#[test]
fn kafka_topics_by_router() {
    let sinker = RdkafkaSinker {
        batch_size: 10,
        router: RdbRouter {
            topic_map: vec![("db1".to_string(), "t".to_string(), "t_topic".to_string())],
            default_topic: "default".to_string(),
        },
        queue_timeout_secs: 5,
        monitor: Monitor::new(),
    };
    let mut other = row(RowType::Insert, 2, "b");
    other.tb = "u".to_string();
    let topics = sinker.topics(&vec![row(RowType::Insert, 1, "a"), other]);
    assert_eq!(topics, vec!["t_topic".to_string(), "default".to_string()]);
}

#[test]
fn monitor_updates() {
    let mut m = Monitor::new();
    BaseSinker::update_batch_monitor(&mut m, 5, 300);
    assert_eq!(m.get(CounterType::RecordsPerQuery), Counter { sum: 5, count: 1 });
    assert_eq!(m.get(CounterType::Records), Counter { sum: 5, count: 1 });
    assert_eq!(m.get(CounterType::RtPerQuery), Counter { sum: 300, count: 1 });
    BaseSinker::update_serial_monitor(&mut m, 3, 90);
    assert_eq!(m.get(CounterType::RecordsPerQuery), Counter { sum: 8, count: 4 });
    assert_eq!(m.get(CounterType::Records), Counter { sum: 8, count: 2 });
    assert_eq!(m.get(CounterType::SerialWrites), Counter { sum: 3, count: 1 });
    assert_eq!(m.get(CounterType::RtPerQuery), Counter { sum: 390, count: 4 });
    m.add_counter(CounterType::BufferSize, u64::MAX);
    m.add_counter(CounterType::BufferSize, 1);
    assert_eq!(m.get(CounterType::BufferSize), Counter { sum: u64::MAX, count: 2 });
}

#[test]
fn starrocks_serial_paths() {
    let s = starrocks(10, "");
    let inserts = vec![row(RowType::Insert, 1, "a")];
    let updates = vec![row(RowType::Update, 1, "a")];
    assert!(!s.is_serial(&inserts, true));
    assert!(s.is_serial(&inserts, false));
    assert!(s.is_serial(&updates, true));
    assert!(!s.is_serial(&vec![], false));
}
