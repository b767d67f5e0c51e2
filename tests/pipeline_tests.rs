use ape_dts::model::{
    DdlData, DdlType, DtData, DtItem, Position, RedisEntry, RowData, RowType,
};
use ape_dts::monitor::{Counter, CounterType};
use ape_dts::pipeline::{
    entry_is_ping, fetch_ddl, fetch_dml, fetch_raw, get_sink_method, plan_batch, BasePipeline,
    CheckpointRecord, SinkBatch, SinkMethod, SinkStep, Syncer,
};
use ape_dts::queue::{drain, ItemQueue};

fn pos(lsn: u64) -> Position {
    Position::PgCdc { lsn }
}

fn item(dt_data: DtData, lsn: u64) -> DtItem {
    DtItem { dt_data, position: pos(lsn), data_origin_node: format!("node{}", lsn) }
}

fn row(id: i32) -> RowData {
    RowData {
        schema: "db1".to_string(),
        tb: "t".to_string(),
        row_type: RowType::Insert,
        before: None,
        after: Some(vec![("id".to_string(), ape_dts::model::ColValue::Long(id))]),
        data_size: 4,
    }
}

fn dml(id: i32, lsn: u64) -> DtItem {
    item(DtData::Dml { row_data: row(id) }, lsn)
}

fn ddl(lsn: u64) -> DtItem {
    item(
        DtData::Ddl {
            ddl_data: DdlData {
                schema: "db1".to_string(),
                tb: "t".to_string(),
                query: "ALTER TABLE t ADD c INT".to_string(),
                ddl_type: DdlType::AlterTable,
            },
        },
        lsn,
    )
}

fn redis(name: &str, raw: bool, lsn: u64) -> DtItem {
    item(
        DtData::Redis { entry: RedisEntry { raw, cmd_name: name.to_string(), payload: vec![1, 2] } },
        lsn,
    )
}

#[test]
fn classify_first_payload_wins() {
    assert_eq!(get_sink_method(&vec![]), SinkMethod::Raw);
    assert_eq!(get_sink_method(&vec![item(DtData::Begin, 1), dml(1, 2), ddl(3)]), SinkMethod::Dml);
    assert_eq!(get_sink_method(&vec![item(DtData::Begin, 1), ddl(2), dml(1, 3)]), SinkMethod::Ddl);
    assert_eq!(get_sink_method(&vec![item(DtData::Commit { xid: 1 }, 1), redis("SET", false, 2)]), SinkMethod::Raw);
    assert_eq!(get_sink_method(&vec![item(DtData::Begin, 1), item(DtData::Commit { xid: 1 }, 2)]), SinkMethod::Raw);
}

#[test]
fn fetch_dml_tracks_positions() {
    let data = vec![item(DtData::Begin, 1), dml(1, 2), dml(2, 3), item(DtData::Commit { xid: 9 }, 4), dml(3, 5)];
    let (rows, received, commit) = fetch_dml(data);
    assert_eq!(rows, vec![row(1), row(2), row(3)]);
    assert_eq!(received, Some(pos(5)));
    assert_eq!(commit, Some(pos(4)));
}

#[test]
fn fetch_dml_commit_moves_both_positions() {
    let (rows, received, commit) = fetch_dml(vec![dml(1, 2), item(DtData::Commit { xid: 9 }, 7)]);
    assert_eq!(rows.len(), 1);
    assert_eq!(received, Some(pos(7)));
    assert_eq!(commit, Some(pos(7)));
}

#[test]
fn fetch_ddl_takes_changes() {
    let (changes, received, commit) = fetch_ddl(vec![ddl(3), item(DtData::Begin, 4)]);
    assert_eq!(changes.len(), 1);
    assert_eq!(changes[0].ddl_type, DdlType::AlterTable);
    assert_eq!(received, Some(pos(3)));
    assert_eq!(commit, None);
}

#[test]
fn fetch_raw_drops_pings_but_moves_received() {
    let data = vec![redis("SET", false, 1), redis("PiNg", false, 2), redis("ping", true, 3), redis("ping", false, 4)];
    let (payloads, received, commit) = fetch_raw(data);
    assert_eq!(payloads.len(), 2);
    assert_eq!(received, Some(pos(4)));
    assert_eq!(commit, None);
}

#[test]
fn ping_detection() {
    let e = |n: &str, raw: bool| RedisEntry { raw, cmd_name: n.to_string(), payload: vec![] };
    assert!(entry_is_ping(&e("PING", false)));
    assert!(entry_is_ping(&e("ping", false)));
    assert!(!entry_is_ping(&e("ping", true)));
    assert!(!entry_is_ping(&e("pong", false)));
    assert!(!entry_is_ping(&e("pings", false)));
}

#[test]
fn plan_carries_origin_of_first_item() {
    let plan = plan_batch(vec![dml(1, 1), dml(2, 2)]);
    assert_eq!(plan.data_origin_node, Some("node1".to_string()));
    assert_eq!(plan.count, 2);
    assert!(matches!(plan.batch, SinkBatch::Dml(_)));
    assert_eq!(plan_batch(vec![]).data_origin_node, None);
}

#[test]
fn every_dml_row_keeps_presence_rule() {
    let plan = plan_batch(vec![dml(1, 1), item(DtData::Commit { xid: 1 }, 2), dml(2, 3)]);
    match plan.batch {
        SinkBatch::Dml(rows) => {
            for r in rows {
                assert_eq!(r.row_type, RowType::Insert);
                assert!(r.after.is_some() && r.before.is_none());
            }
        }
        _ => panic!("expected a DML batch"),
    }
}

#[test]
fn drain_waits_for_interval_unless_full() {
    let mut p = BasePipeline::new(2, 10, 5, 100);
    let mut q = ItemQueue::new(2).unwrap();
    q.push(dml(1, 1)).unwrap();
    let batch = p.drain_batch(&mut q, 103);
    assert!(batch.is_empty());
    assert_eq!(q.len(), 1);
    assert_eq!(p.monitor.get(CounterType::BufferSize), Counter { sum: 1, count: 1 });
    let batch = p.drain_batch(&mut q, 105);
    assert_eq!(batch.len(), 1);
    assert!(q.is_empty());
    assert_eq!(p.last_sink_secs, 105);
    q.push(dml(2, 2)).unwrap();
    q.push(dml(3, 3)).unwrap();
    assert!(q.is_full());
    let batch = p.drain_batch(&mut q, 106);
    assert_eq!(batch.len(), 2);
}

#[test]
fn ddl_tick_refreshes_every_sinker() {
    let p = BasePipeline::new(3, 10, 0, 0);
    let plan = plan_batch(vec![ddl(1)]);
    assert_eq!(
        p.sink_steps(&plan),
        vec![SinkStep::SinkDdl, SinkStep::RefreshMeta(0), SinkStep::RefreshMeta(1), SinkStep::RefreshMeta(2)]
    );
    let plan = plan_batch(vec![dml(1, 1)]);
    assert_eq!(p.sink_steps(&plan), vec![SinkStep::SinkDml]);
    let plan = plan_batch(vec![item(DtData::Begin, 1)]);
    assert_eq!(p.sink_steps(&plan), vec![]);
}

#[test]
fn checkpoint_commits_after_interval() {
    let mut p = BasePipeline::new(1, 10, 0, 0);
    let r = p.finish_tick(5, 2, Some(pos(20)), Some(pos(15)));
    assert_eq!(r, None);
    assert_eq!(p.syncer, Syncer { received_position: pos(20), committed_position: Position::Nil });
    let r = p.finish_tick(12, 0, None, None);
    assert_eq!(r, Some(CheckpointRecord { current: Some(pos(20)), checkpoint: Some(pos(15)) }));
    assert_eq!(p.syncer, Syncer { received_position: pos(20), committed_position: pos(15) });
    assert_eq!(p.last_checkpoint_secs, 12);
    assert_eq!(p.monitor.get(CounterType::SinkedCount), Counter { sum: 2, count: 2 });
}

#[test]
fn received_never_moves_back_and_committed_stays_behind() {
    let mut p = BasePipeline::new(1, 0, 0, 0);
    let mut q = ItemQueue::new(8).unwrap();
    let mut prev = p.syncer.received_position;
    let batches = vec![
        vec![dml(1, 10), item(DtData::Commit { xid: 1 }, 11)],
        vec![dml(2, 12)],
        vec![],
        vec![item(DtData::Commit { xid: 2 }, 13), dml(3, 14)],
    ];
    for (t, b) in batches.into_iter().enumerate() {
        for i in b {
            q.push(i).unwrap();
        }
        let plan = plan_batch(p.drain_batch(&mut q, t as u64));
        p.finish_tick(t as u64, plan.count as u64, plan.last_received, plan.last_commit);
        let now = p.syncer.received_position;
        match (prev, now) {
            (Position::PgCdc { lsn: a }, Position::PgCdc { lsn: b }) => assert!(a <= b),
            (Position::Nil, _) => {}
            _ => panic!("positions of another kind"),
        }
        match (p.syncer.committed_position, now) {
            (Position::PgCdc { lsn: c }, Position::PgCdc { lsn: r }) => assert!(c <= r),
            (Position::Nil, _) => {}
            _ => panic!("positions of another kind"),
        }
        prev = now;
    }
    assert_eq!(p.syncer.received_position, pos(14));
    assert_eq!(p.syncer.committed_position, pos(13));
}

#[test]
fn failed_tick_leaves_positions() {
    let mut p = BasePipeline::new(1, 0, 0, 0);
    p.finish_tick(1, 1, Some(pos(5)), Some(pos(5)));
    let before = p;
    let mut q = ItemQueue::new(4).unwrap();
    q.push(dml(1, 9)).unwrap();
    let _plan = plan_batch(p.drain_batch(&mut q, 2));
    // the sink calls failed, so the tick is not finished
    assert_eq!(p.syncer, before.syncer);
    assert_eq!(p.last_received_position, before.last_received_position);
    assert_eq!(p.last_commit_position, before.last_commit_position);
}

#[test]
fn queue_is_bounded_fifo() {
    let mut q = ItemQueue::new(2).unwrap();
    assert!(q.is_empty());
    q.push(dml(1, 1)).unwrap();
    q.push(dml(2, 2)).unwrap();
    let back = q.push(dml(3, 3)).unwrap_err();
    assert_eq!(back, dml(3, 3));
    assert_eq!(q.pop(), Some(dml(1, 1)));
    let rest = drain(&mut q);
    assert_eq!(rest, vec![dml(2, 2)]);
    assert_eq!(q.pop(), None);
}

#[test]
fn zero_capacity_queue_is_config_error() {
    assert!(matches!(ItemQueue::new(0), Err(ape_dts::model::DtError::Config(_))));
}

#[test]
fn ddl_type_names() {
    assert_eq!(DdlType::TruncateTable.as_str(), "truncate_table");
    assert_eq!(DdlType::default(), DdlType::Unknown);
    assert_eq!(DdlType::default().as_str(), "unknown");
}
