//! The pipeline driver: how a drained batch is classified, what each sink
//! path takes from it, and how positions and checkpoints advance per tick.

use vstd::prelude::*;
use vstd::string::*;

use crate::model::{pos_le, row_images_ok, DdlData, DtData, DtItem, Position, RedisEntry, RowData};
use crate::monitor::{monitor_added, CounterType, Monitor};
use crate::queue::{drain, queue_capacity, queue_items, ItemQueue};

verus! {

/// Which sink path a batch takes.
#[derive(Clone, Copy, Debug, PartialEq, Eq, Structural)]
pub enum SinkMethod {
    Raw,
    Ddl,
    Dml,
}

/// The first payload of a batch decides its path: a DDL, a DML or a raw
/// entry, transaction delimiters skipped; a batch without payload is raw.
pub open spec fn sink_method_of(s: Seq<DtItem>) -> SinkMethod
    decreases s.len(),
{
    if s.len() == 0 {
        SinkMethod::Raw
    } else {
        match s[0].dt_data {
            DtData::Ddl { .. } => SinkMethod::Ddl,
            DtData::Dml { .. } => SinkMethod::Dml,
            DtData::Redis { .. } => SinkMethod::Raw,
            _ => sink_method_of(s.drop_first()),
        }
    }
}

/// Classifies a drained batch.
pub fn get_sink_method(data: &Vec<DtItem>) -> (r: SinkMethod)
    ensures
        r == sink_method_of(data@),
{
    let mut i: usize = 0;
    assert(data@.subrange(0, data.len() as int) =~= data@);
    while i < data.len()
        invariant
            i <= data.len(),
            sink_method_of(data@) == sink_method_of(data@.subrange(i as int, data.len() as int)),
        decreases data.len() - i,
    {
        assert(data@.subrange(i as int, data.len() as int).drop_first() =~= data@.subrange(
            i + 1,
            data.len() as int,
        ));
        match &data[i].dt_data {
            DtData::Ddl { .. } => {
                return SinkMethod::Ddl;
            },
            DtData::Dml { .. } => {
                return SinkMethod::Dml;
            },
            DtData::Redis { .. } => {
                return SinkMethod::Raw;
            },
            _ => {},
        }
        i = i + 1;
    }
    SinkMethod::Raw
}

/// Whether two characters are equal ignoring ASCII case.
pub open spec fn ascii_case_eq(c: char, d: char) -> bool {
    ||| c == d
    ||| ('A' <= c <= 'Z' && c as u32 + 32 == d as u32)
    ||| ('A' <= d <= 'Z' && d as u32 + 32 == c as u32)
}

/// A keep-alive command: a parsed entry whose name is `ping` in any case.
pub open spec fn is_ping(e: RedisEntry) -> bool {
    let n = e.cmd_name@;
    &&& !e.raw
    &&& n.len() == 4
    &&& ascii_case_eq(n[0], 'p')
    &&& ascii_case_eq(n[1], 'i')
    &&& ascii_case_eq(n[2], 'n')
    &&& ascii_case_eq(n[3], 'g')
}

fn char_case_eq(c: char, d: char) -> (r: bool)
    ensures
        r == ascii_case_eq(c, d),
{
    c == d || ('A' <= c && c <= 'Z' && c as u32 + 32 == d as u32) || ('A' <= d && d <= 'Z'
        && d as u32 + 32 == c as u32)
}

/// Whether an entry is a keep-alive command.
pub fn entry_is_ping(e: &RedisEntry) -> (r: bool)
    ensures
        r == is_ping(*e),
{
    let n = e.cmd_name.as_str();
    if e.raw || n.unicode_len() != 4 {
        return false;
    }
    char_case_eq(n.get_char(0), 'p') && char_case_eq(n.get_char(1), 'i') && char_case_eq(
        n.get_char(2),
        'n',
    ) && char_case_eq(n.get_char(3), 'g')
}

/// Whether an item of the given payload moves the received position on the
/// given path. A commit always does; on the DML and DDL paths so does a
/// payload of that path; on the raw path every payload does.
pub open spec fn moves_received(d: DtData, m: SinkMethod) -> bool {
    match d {
        DtData::Commit { .. } => true,
        DtData::Begin => false,
        DtData::Dml { .. } => m == SinkMethod::Dml || m == SinkMethod::Raw,
        DtData::Ddl { .. } => m == SinkMethod::Ddl || m == SinkMethod::Raw,
        DtData::Redis { .. } => m == SinkMethod::Raw,
    }
}

/// The position of the last item that moves the received position on path `m`.
pub open spec fn last_received_of(s: Seq<DtItem>, m: SinkMethod) -> Option<Position>
    decreases s.len(),
{
    if s.len() == 0 {
        None
    } else if moves_received(s.last().dt_data, m) {
        Some(s.last().position)
    } else {
        last_received_of(s.drop_last(), m)
    }
}

/// The position of the last commit.
pub open spec fn last_commit_of(s: Seq<DtItem>) -> Option<Position>
    decreases s.len(),
{
    if s.len() == 0 {
        None
    } else if s.last().dt_data is Commit {
        Some(s.last().position)
    } else {
        last_commit_of(s.drop_last())
    }
}

/// The rows of the DML items, in order.
pub open spec fn dml_rows(s: Seq<DtItem>) -> Seq<RowData>
    decreases s.len(),
{
    if s.len() == 0 {
        Seq::empty()
    } else {
        match s.last().dt_data {
            DtData::Dml { row_data } => dml_rows(s.drop_last()).push(row_data),
            _ => dml_rows(s.drop_last()),
        }
    }
}

/// The changes of the DDL items, in order.
pub open spec fn ddl_changes(s: Seq<DtItem>) -> Seq<DdlData>
    decreases s.len(),
{
    if s.len() == 0 {
        Seq::empty()
    } else {
        match s.last().dt_data {
            DtData::Ddl { ddl_data } => ddl_changes(s.drop_last()).push(ddl_data),
            _ => ddl_changes(s.drop_last()),
        }
    }
}

/// The payloads that the raw path hands on: all but transaction delimiters
/// and keep-alive commands, in order.
pub open spec fn raw_payloads(s: Seq<DtItem>) -> Seq<DtData>
    decreases s.len(),
{
    if s.len() == 0 {
        Seq::empty()
    } else {
        let d = s.last().dt_data;
        let rest = raw_payloads(s.drop_last());
        match d {
            DtData::Begin => rest,
            DtData::Commit { .. } => rest,
            DtData::Redis { entry } => if is_ping(entry) {
                rest
            } else {
                rest.push(d)
            },
            _ => rest.push(d),
        }
    }
}

/// Takes the rows of a batch on the DML path, with the last received and
/// the last commit position.
pub fn fetch_dml(data: Vec<DtItem>) -> (r: (Vec<RowData>, Option<Position>, Option<Position>))
    ensures
        r.0@ == dml_rows(data@),
        r.1 == last_received_of(data@, SinkMethod::Dml),
        r.2 == last_commit_of(data@),
{
    let ghost all = data@;
    let mut rows: Vec<RowData> = Vec::new();
    let mut received: Option<Position> = None;
    let mut commit: Option<Position> = None;
    for item in it: data
        invariant
            it.seq() == all,
            rows@ == dml_rows(all.subrange(0, it.index() as int)),
            received == last_received_of(all.subrange(0, it.index() as int), SinkMethod::Dml),
            commit == last_commit_of(all.subrange(0, it.index() as int)),
    {
        let ghost k = it.index() as int;
        assert(all.subrange(0, k + 1).drop_last() =~= all.subrange(0, k));
        let pos = item.position;
        match item.dt_data {
            DtData::Commit { .. } => {
                commit = Some(pos);
                received = Some(pos);
            },
            DtData::Dml { row_data } => {
                received = Some(pos);
                rows.push(row_data);
            },
            _ => {},
        }
    }
    assert(all.subrange(0, all.len() as int) =~= all);
    (rows, received, commit)
}

/// Takes the changes of a batch on the DDL path, with the last received
/// and the last commit position.
pub fn fetch_ddl(data: Vec<DtItem>) -> (r: (Vec<DdlData>, Option<Position>, Option<Position>))
    ensures
        r.0@ == ddl_changes(data@),
        r.1 == last_received_of(data@, SinkMethod::Ddl),
        r.2 == last_commit_of(data@),
{
    let ghost all = data@;
    let mut changes: Vec<DdlData> = Vec::new();
    let mut received: Option<Position> = None;
    let mut commit: Option<Position> = None;
    for item in it: data
        invariant
            it.seq() == all,
            changes@ == ddl_changes(all.subrange(0, it.index() as int)),
            received == last_received_of(all.subrange(0, it.index() as int), SinkMethod::Ddl),
            commit == last_commit_of(all.subrange(0, it.index() as int)),
    {
        let ghost k = it.index() as int;
        assert(all.subrange(0, k + 1).drop_last() =~= all.subrange(0, k));
        let pos = item.position;
        match item.dt_data {
            DtData::Commit { .. } => {
                commit = Some(pos);
                received = Some(pos);
            },
            DtData::Ddl { ddl_data } => {
                received = Some(pos);
                changes.push(ddl_data);
            },
            _ => {},
        }
    }
    assert(all.subrange(0, all.len() as int) =~= all);
    (changes, received, commit)
}

/// Takes the payloads of a batch on the raw path, with the last received
/// and the last commit position. Keep-alive commands move the received
/// position but are not handed on.
pub fn fetch_raw(data: Vec<DtItem>) -> (r: (Vec<DtData>, Option<Position>, Option<Position>))
    ensures
        r.0@ == raw_payloads(data@),
        r.1 == last_received_of(data@, SinkMethod::Raw),
        r.2 == last_commit_of(data@),
{
    let ghost all = data@;
    let mut payloads: Vec<DtData> = Vec::new();
    let mut received: Option<Position> = None;
    let mut commit: Option<Position> = None;
    for item in it: data
        invariant
            it.seq() == all,
            payloads@ == raw_payloads(all.subrange(0, it.index() as int)),
            received == last_received_of(all.subrange(0, it.index() as int), SinkMethod::Raw),
            commit == last_commit_of(all.subrange(0, it.index() as int)),
    {
        let ghost k = it.index() as int;
        assert(all.subrange(0, k + 1).drop_last() =~= all.subrange(0, k));
        let pos = item.position;
        match item.dt_data {
            DtData::Commit { .. } => {
                commit = Some(pos);
                received = Some(pos);
            },
            DtData::Begin => {},
            DtData::Redis { entry } => {
                received = Some(pos);
                if !entry_is_ping(&entry) {
                    payloads.push(DtData::Redis { entry });
                }
            },
            other => {
                received = Some(pos);
                payloads.push(other);
            },
        }
    }
    assert(all.subrange(0, all.len() as int) =~= all);
    (payloads, received, commit)
}

/// What a batch hands to the sinkers, by path.
pub enum SinkBatch {
    Raw(Vec<DtData>),
    Dml(Vec<RowData>),
    Ddl(Vec<DdlData>),
}

/// What one tick does with a drained batch.
pub struct TickPlan {
    pub batch: SinkBatch,
    pub count: usize,
    pub last_received: Option<Position>,
    pub last_commit: Option<Position>,
    /// The origin node of the first item, for the data marker.
    pub data_origin_node: Option<String>,
}

/// Classifies a drained batch and takes from it what its path hands on.
pub fn plan_batch(data: Vec<DtItem>) -> (r: TickPlan)
    ensures
        sink_method_of(data@) == SinkMethod::Dml ==> (r.batch matches SinkBatch::Dml(rows)
            && rows@ == dml_rows(data@) && r.count == rows.len()),
        sink_method_of(data@) == SinkMethod::Ddl ==> (r.batch matches SinkBatch::Ddl(changes)
            && changes@ == ddl_changes(data@) && r.count == changes.len()),
        sink_method_of(data@) == SinkMethod::Raw ==> (r.batch matches SinkBatch::Raw(payloads)
            && payloads@ == raw_payloads(data@) && r.count == payloads.len()),
        r.last_received == last_received_of(data@, sink_method_of(data@)),
        r.last_commit == last_commit_of(data@),
        data@.len() == 0 ==> r.data_origin_node is None,
        data@.len() > 0 ==> r.data_origin_node == Some(data@[0].data_origin_node),
{
    let origin = if data.len() > 0 {
        Some(data[0].data_origin_node.clone())
    } else {
        None
    };
    match get_sink_method(&data) {
        SinkMethod::Dml => {
            let (rows, last_received, last_commit) = fetch_dml(data);
            let count = rows.len();
            TickPlan {
                batch: SinkBatch::Dml(rows),
                count,
                last_received,
                last_commit,
                data_origin_node: origin,
            }
        },
        SinkMethod::Ddl => {
            let (changes, last_received, last_commit) = fetch_ddl(data);
            let count = changes.len();
            TickPlan {
                batch: SinkBatch::Ddl(changes),
                count,
                last_received,
                last_commit,
                data_origin_node: origin,
            }
        },
        SinkMethod::Raw => {
            let (payloads, last_received, last_commit) = fetch_raw(data);
            let count = payloads.len();
            TickPlan {
                batch: SinkBatch::Raw(payloads),
                count,
                last_received,
                last_commit,
                data_origin_node: origin,
            }
        },
    }
}

/// One call the driver makes on the sinkers for a batch.
#[derive(Clone, Copy, Debug, PartialEq, Eq, Structural)]
pub enum SinkStep {
    /// Hand the rows to the parallelizer.
    SinkDml,
    /// Hand the schema changes to the parallelizer.
    SinkDdl,
    /// Hand the raw payloads to the parallelizer.
    SinkRaw,
    /// Refresh the metadata of the sinker with this index.
    RefreshMeta(usize),
}

/// The calls for a batch of `count` payloads on path `m` with `k` sinkers:
/// none for an empty batch; after schema changes, a metadata refresh on
/// every sinker.
pub open spec fn sink_steps_of(m: SinkMethod, count: nat, k: nat) -> Seq<SinkStep> {
    if count == 0 {
        Seq::empty()
    } else {
        match m {
            SinkMethod::Dml => seq![SinkStep::SinkDml],
            SinkMethod::Raw => seq![SinkStep::SinkRaw],
            SinkMethod::Ddl => seq![SinkStep::SinkDdl] + Seq::new(
                k,
                |i: int| SinkStep::RefreshMeta(i as usize),
            ),
        }
    }
}

/// The path of a planned batch.
pub open spec fn method_of_batch(b: SinkBatch) -> SinkMethod {
    match b {
        SinkBatch::Raw(_) => SinkMethod::Raw,
        SinkBatch::Dml(_) => SinkMethod::Dml,
        SinkBatch::Ddl(_) => SinkMethod::Ddl,
    }
}

/// Positions shared with checkpoint readers.
#[derive(Clone, Copy, Debug, PartialEq, Eq, Structural)]
pub struct Syncer {
    pub received_position: Position,
    pub committed_position: Position,
}

/// What a checkpoint logs: the current and the checkpoint position.
#[derive(Clone, Copy, Debug, PartialEq, Eq, Structural)]
pub struct CheckpointRecord {
    pub current: Option<Position>,
    pub checkpoint: Option<Position>,
}

/// The driver's state between ticks. The sinkers, the parallelizer and the
/// clock stay with the caller, which runs a tick as: `drain_batch`,
/// `plan_batch`, the calls of `sink_steps`, then `finish_tick` once every
/// call succeeded.
#[derive(Clone, Copy, Debug, PartialEq, Eq, Structural)]
pub struct BasePipeline {
    pub parallel_size: usize,
    pub checkpoint_interval_secs: u64,
    pub batch_sink_interval_secs: u64,
    pub last_sink_secs: u64,
    pub last_checkpoint_secs: u64,
    pub last_received_position: Option<Position>,
    pub last_commit_position: Option<Position>,
    pub syncer: Syncer,
    pub monitor: Monitor,
}

/// Whether at least `interval` seconds lie between `since` and `now`.
pub open spec fn interval_passed(since: u64, now: u64, interval: u64) -> bool {
    now >= since && now - since >= interval
}

/// The state after a successful tick whose batch gave these positions and
/// `count` payloads, at `now`.
pub open spec fn after_tick(
    p: BasePipeline,
    received: Option<Position>,
    commit: Option<Position>,
    count: u64,
    now: u64,
) -> BasePipeline {
    let syncer = match received {
        Some(r) => Syncer { received_position: r, ..p.syncer },
        None => p.syncer,
    };
    let last_received = if received is Some {
        received
    } else {
        p.last_received_position
    };
    let last_commit = if commit is Some {
        commit
    } else {
        p.last_commit_position
    };
    let checkpoint = interval_passed(p.last_checkpoint_secs, now, p.checkpoint_interval_secs);
    let syncer = if checkpoint && last_commit is Some {
        Syncer { committed_position: last_commit->0, ..syncer }
    } else {
        syncer
    };
    BasePipeline {
        last_received_position: last_received,
        last_commit_position: last_commit,
        syncer,
        last_checkpoint_secs: if checkpoint {
            now
        } else {
            p.last_checkpoint_secs
        },
        monitor: monitor_added(p.monitor, CounterType::SinkedCount, count, 1),
        ..p
    }
}

/// The state after a checkpoint attempt at `now`: when the checkpoint
/// interval has passed, the last commit position (if any) is committed and
/// the checkpoint time moves to `now`.
pub open spec fn after_checkpoint(p: BasePipeline, now: u64) -> BasePipeline {
    if interval_passed(p.last_checkpoint_secs, now, p.checkpoint_interval_secs) {
        BasePipeline {
            syncer: match p.last_commit_position {
                Some(c) => Syncer { committed_position: c, ..p.syncer },
                None => p.syncer,
            },
            last_checkpoint_secs: now,
            ..p
        }
    } else {
        p
    }
}

impl BasePipeline {
    /// A driver for `parallel_size` sinkers, started at `now_secs`.
    pub fn new(
        parallel_size: usize,
        checkpoint_interval_secs: u64,
        batch_sink_interval_secs: u64,
        now_secs: u64,
    ) -> (r: BasePipeline)
        ensures
            r.parallel_size == parallel_size,
            r.checkpoint_interval_secs == checkpoint_interval_secs,
            r.batch_sink_interval_secs == batch_sink_interval_secs,
            r.last_sink_secs == now_secs,
            r.last_checkpoint_secs == now_secs,
            r.last_received_position is None,
            r.last_commit_position is None,
            r.syncer == (Syncer {
                received_position: Position::Nil,
                committed_position: Position::Nil,
            }),
            r.monitor == Monitor::new_spec(),
            positions_in_order(r),
    {
        BasePipeline {
            parallel_size,
            checkpoint_interval_secs,
            batch_sink_interval_secs,
            last_sink_secs: now_secs,
            last_checkpoint_secs: now_secs,
            last_received_position: None,
            last_commit_position: None,
            syncer: Syncer { received_position: Position::Nil, committed_position: Position::Nil },
            monitor: Monitor::new(),
        }
    }

    /// Whether this tick drains: when the batch interval has passed since the
    /// last drain, or when the queue is full.
    pub fn should_drain(&self, now_secs: u64, queue_full: bool) -> (r: bool)
        ensures
            r == (queue_full || interval_passed(
                self.last_sink_secs,
                now_secs,
                self.batch_sink_interval_secs,
            )),
    {
        queue_full || (now_secs >= self.last_sink_secs && now_secs - self.last_sink_secs
            >= self.batch_sink_interval_secs)
    }

    /// Samples the queue depth and, if this tick drains, takes every item out
    /// of the queue; otherwise the batch is empty so that big-batch sinkers
    /// can accumulate.
    pub fn drain_batch(&mut self, queue: &mut ItemQueue, now_secs: u64) -> (r: Vec<DtItem>)
        ensures
            ({
                let depth = queue_items(*old(queue)).len();
                let sampled = if depth > 0 {
                    monitor_added(old(self).monitor, CounterType::BufferSize, depth as u64, 1)
                } else {
                    old(self).monitor
                };
                let drains = depth >= queue_capacity(*old(queue)) || interval_passed(
                    old(self).last_sink_secs,
                    now_secs,
                    old(self).batch_sink_interval_secs,
                );
                &&& final(self).monitor == sampled
                &&& drains ==> r@ == queue_items(*old(queue)) && queue_items(*final(queue))
                    == Seq::<DtItem>::empty() && final(self).last_sink_secs == now_secs
                &&& !drains ==> r@ == Seq::<DtItem>::empty() && *final(queue) == *old(queue)
                    && final(self).last_sink_secs == old(self).last_sink_secs
                &&& *final(self) == (BasePipeline {
                    monitor: final(self).monitor,
                    last_sink_secs: final(self).last_sink_secs,
                    ..*old(self)
                })
            }),
            queue_capacity(*final(queue)) == queue_capacity(*old(queue)),
    {
        if !queue.is_empty() {
            let depth = queue.len();
            self.monitor.add_counter(CounterType::BufferSize, depth as u64);
        }
        if self.should_drain(now_secs, queue.is_full()) {
            self.last_sink_secs = now_secs;
            drain(queue)
        } else {
            Vec::new()
        }
    }

    /// The calls to make on the sinkers for a planned batch.
    pub fn sink_steps(&self, plan: &TickPlan) -> (r: Vec<SinkStep>)
        ensures
            r@ == sink_steps_of(
                method_of_batch(plan.batch),
                plan.count as nat,
                self.parallel_size as nat,
            ),
    {
        let mut r: Vec<SinkStep> = Vec::new();
        if plan.count == 0 {
            return r;
        }
        match &plan.batch {
            SinkBatch::Dml(_) => {
                r.push(SinkStep::SinkDml);
            },
            SinkBatch::Raw(_) => {
                r.push(SinkStep::SinkRaw);
            },
            SinkBatch::Ddl(_) => {
                r.push(SinkStep::SinkDdl);
                let mut i: usize = 0;
                while i < self.parallel_size
                    invariant
                        i <= self.parallel_size,
                        r@ == seq![SinkStep::SinkDdl] + Seq::new(
                            i as nat,
                            |j: int| SinkStep::RefreshMeta(j as usize),
                        ),
                    decreases self.parallel_size - i,
                {
                    r.push(SinkStep::RefreshMeta(i));
                    i = i + 1;
                    assert(r@ =~= seq![SinkStep::SinkDdl] + Seq::new(
                        i as nat,
                        |j: int| SinkStep::RefreshMeta(j as usize),
                    ));
                }
            },
        }
        r
    }

    /// Records the positions of a tick whose sink calls all succeeded, and
    /// commits the checkpoint position when the checkpoint interval has
    /// passed; returns what the checkpoint logs, if one was taken.
    pub fn finish_tick(
        &mut self,
        now_secs: u64,
        count: u64,
        last_received: Option<Position>,
        last_commit: Option<Position>,
    ) -> (r: Option<CheckpointRecord>)
        ensures
            *final(self) == after_tick(*old(self), last_received, last_commit, count, now_secs),
            interval_passed(old(self).last_checkpoint_secs, now_secs, old(self).checkpoint_interval_secs)
                ==> r == Some(
                CheckpointRecord {
                    current: final(self).last_received_position,
                    checkpoint: final(self).last_commit_position,
                },
            ),
            !interval_passed(old(self).last_checkpoint_secs, now_secs, old(self).checkpoint_interval_secs)
                ==> r is None,
    {
        if let Some(p) = last_received {
            self.syncer.received_position = p;
            self.last_received_position = Some(p);
        }
        if last_commit.is_some() {
            self.last_commit_position = last_commit;
        }
        let r = self.record_checkpoint(now_secs);
        self.monitor.add_counter(CounterType::SinkedCount, count);
        r
    }

    /// Commits the last commit position when the checkpoint interval has
    /// passed since the last checkpoint.
    pub fn record_checkpoint(&mut self, now_secs: u64) -> (r: Option<CheckpointRecord>)
        ensures
            *final(self) == after_checkpoint(*old(self), now_secs),
            ({
                let passed = interval_passed(
                    old(self).last_checkpoint_secs,
                    now_secs,
                    old(self).checkpoint_interval_secs,
                );
                &&& passed ==> r == Some(
                    CheckpointRecord {
                        current: old(self).last_received_position,
                        checkpoint: old(self).last_commit_position,
                    },
                ) && final(self).last_checkpoint_secs == now_secs && final(self).syncer == (
                if old(self).last_commit_position is Some {
                    Syncer {
                        committed_position: old(self).last_commit_position->0,
                        ..old(self).syncer
                    }
                } else {
                    old(self).syncer
                })
                &&& !passed ==> r is None && final(self).last_checkpoint_secs
                    == old(self).last_checkpoint_secs && final(self).syncer == old(self).syncer
                &&& *final(self) == (BasePipeline {
                    last_checkpoint_secs: final(self).last_checkpoint_secs,
                    syncer: final(self).syncer,
                    ..*old(self)
                })
            }),
    {
        if !(now_secs >= self.last_checkpoint_secs && now_secs - self.last_checkpoint_secs
            >= self.checkpoint_interval_secs) {
            return None;
        }
        if let Some(p) = self.last_commit_position {
            self.syncer.committed_position = p;
        }
        self.last_checkpoint_secs = now_secs;
        Some(
            CheckpointRecord {
                current: self.last_received_position,
                checkpoint: self.last_commit_position,
            },
        )
    }
}

/// `pos_le` is transitive.
pub proof fn lemma_pos_le_trans(a: Position, b: Position, c: Position)
    requires
        pos_le(a, b),
        pos_le(b, c),
    ensures
        pos_le(a, c),
{
}

proof fn lemma_received_is_an_item(s: Seq<DtItem>, m: SinkMethod)
    ensures
        last_received_of(s, m) matches Some(r) ==> exists|j: int|
            0 <= j < s.len() && #[trigger] s[j].position == r,
    decreases s.len(),
{
    if s.len() > 0 && !moves_received(s.last().dt_data, m) {
        lemma_received_is_an_item(s.drop_last(), m);
        if let Some(r) = last_received_of(s, m) {
            let j = choose|j: int| 0 <= j < s.drop_last().len() && s.drop_last()[j].position == r;
            assert(s[j].position == r);
        }
    }
}

proof fn lemma_commit_is_an_item(s: Seq<DtItem>)
    ensures
        last_commit_of(s) matches Some(c) ==> exists|j: int|
            0 <= j < s.len() && #[trigger] s[j].position == c,
    decreases s.len(),
{
    if s.len() > 0 && !(s.last().dt_data is Commit) {
        lemma_commit_is_an_item(s.drop_last());
        if let Some(c) = last_commit_of(s) {
            let j = choose|j: int| 0 <= j < s.drop_last().len() && s.drop_last()[j].position == c;
            assert(s[j].position == c);
        }
    }
}

/// The positions of a batch follow one another in source order.
pub open spec fn batch_in_order(s: Seq<DtItem>) -> bool {
    forall|i: int, j: int| 0 <= i <= j < s.len() ==> pos_le(#[trigger] s[i].position, #[trigger] s[j].position)
}

/// Every position of a batch comes at or after `p`.
pub open spec fn batch_follows(p: Position, s: Seq<DtItem>) -> bool {
    forall|i: int| 0 <= i < s.len() ==> pos_le(p, #[trigger] s[i].position)
}

proof fn lemma_commit_le_received(s: Seq<DtItem>, m: SinkMethod)
    requires
        batch_in_order(s),
    ensures
        last_commit_of(s) matches Some(c) ==> (last_received_of(s, m) matches Some(r) && pos_le(
            c,
            r,
        )),
    decreases s.len(),
{
    if s.len() > 0 {
        let t = s.drop_last();
        assert(batch_in_order(t)) by {
            assert forall|i: int, j: int| 0 <= i <= j < t.len() implies pos_le(
                #[trigger] t[i].position,
                #[trigger] t[j].position,
            ) by {
                assert(t[i] == s[i] && t[j] == s[j]);
            }
        }
        lemma_commit_le_received(t, m);
        if moves_received(s.last().dt_data, m) {
            if !(s.last().dt_data is Commit) {
                lemma_commit_is_an_item(t);
                if let Some(c) = last_commit_of(s) {
                    let j = choose|j: int| 0 <= j < t.len() && t[j].position == c;
                    assert(s[j].position == c);
                    assert(pos_le(s[j].position, s[s.len() - 1].position));
                }
            }
        }
    }
}

/// The presence rule holds of every row that the DML path of a batch hands
/// on, when it holds of the rows of the batch's DML items.
pub proof fn lemma_dml_rows_keep_presence_rule(s: Seq<DtItem>)
    requires
        forall|i: int|
            0 <= i < s.len() ==> (#[trigger] s[i].dt_data matches DtData::Dml { row_data }
                ==> row_images_ok(row_data)),
    ensures
        forall|j: int| 0 <= j < dml_rows(s).len() ==> row_images_ok(#[trigger] dml_rows(s)[j]),
    decreases s.len(),
{
    if s.len() > 0 {
        let t = s.drop_last();
        assert forall|i: int| 0 <= i < t.len() implies (#[trigger] t[i].dt_data matches DtData::Dml {
            row_data,
        } ==> row_images_ok(row_data)) by {
            assert(t[i] == s[i]);
        }
        lemma_dml_rows_keep_presence_rule(t);
        let last = s[s.len() - 1].dt_data;
        assert(s.last().dt_data == last);
        assert forall|j: int| 0 <= j < dml_rows(s).len() implies row_images_ok(
            #[trigger] dml_rows(s)[j],
        ) by {
            if j < dml_rows(t).len() {
                assert(dml_rows(s)[j] == dml_rows(t)[j]);
            }
        }
    }
}

/// After a successful tick the received position has not moved back, when
/// the batch's positions come at or after it.
pub proof fn lemma_received_never_moves_back(p: BasePipeline, s: Seq<DtItem>, count: u64, now: u64)
    requires
        batch_follows(p.syncer.received_position, s),
    ensures
        pos_le(
            p.syncer.received_position,
            after_tick(
                p,
                last_received_of(s, sink_method_of(s)),
                last_commit_of(s),
                count,
                now,
            ).syncer.received_position,
        ),
{
    lemma_received_is_an_item(s, sink_method_of(s));
    if let Some(r) = last_received_of(s, sink_method_of(s)) {
        let j = choose|j: int| 0 <= j < s.len() && s[j].position == r;
        assert(pos_le(p.syncer.received_position, s[j].position));
    }
}

/// The committed position never passes the received one, and neither does
/// the last commit position seen.
pub open spec fn positions_in_order(p: BasePipeline) -> bool {
    &&& pos_le(p.syncer.committed_position, p.syncer.received_position)
    &&& p.last_commit_position matches Some(c) ==> pos_le(c, p.syncer.received_position)
}

/// The committed position stays at or before the received position across
/// successful ticks whose batches come in source order after it.
pub proof fn lemma_committed_behind_received(p: BasePipeline, s: Seq<DtItem>, count: u64, now: u64)
    requires
        positions_in_order(p),
        batch_in_order(s),
        batch_follows(p.syncer.received_position, s),
    ensures
        positions_in_order(
            after_tick(p, last_received_of(s, sink_method_of(s)), last_commit_of(s), count, now),
        ),
{
    let m = sink_method_of(s);
    let q = after_tick(p, last_received_of(s, m), last_commit_of(s), count, now);
    lemma_received_never_moves_back(p, s, count, now);
    lemma_commit_le_received(s, m);
    let r0 = p.syncer.received_position;
    let r1 = q.syncer.received_position;
    if let Some(c) = p.last_commit_position {
        lemma_pos_le_trans(c, r0, r1);
    }
    lemma_pos_le_trans(p.syncer.committed_position, r0, r1);
}

/// A checkpoint never puts the committed position past the received one.
pub proof fn lemma_checkpoint_keeps_committed_behind(p: BasePipeline, now: u64)
    requires
        positions_in_order(p),
    ensures
        positions_in_order(after_checkpoint(p, now)),
        pos_le(
            after_checkpoint(p, now).syncer.committed_position,
            after_checkpoint(p, now).syncer.received_position,
        ),
{
}

/// A tick with schema changes refreshes the metadata of every sinker, after
/// handing the changes on and without any row step, so no later row batch
/// reaches a sinker before its refresh.
pub proof fn lemma_ddl_tick_refreshes_every_sinker(count: nat, k: nat)
    requires
        count > 0,
    ensures
        sink_steps_of(SinkMethod::Ddl, count, k).len() == k + 1,
        sink_steps_of(SinkMethod::Ddl, count, k)[0] == SinkStep::SinkDdl,
        forall|i: int|
            0 <= i < k ==> #[trigger] sink_steps_of(SinkMethod::Ddl, count, k)[i + 1]
                == SinkStep::RefreshMeta(i as usize),
        !sink_steps_of(SinkMethod::Ddl, count, k).contains(SinkStep::SinkDml),
{
    let steps = sink_steps_of(SinkMethod::Ddl, count, k);
    assert forall|i: int| 0 <= i < k implies #[trigger] steps[i + 1] == SinkStep::RefreshMeta(
        i as usize,
    ) by {}
    if steps.contains(SinkStep::SinkDml) {
        let j = choose|j: int| 0 <= j < steps.len() && steps[j] == SinkStep::SinkDml;
        assert(j == 0 || steps[j] == SinkStep::RefreshMeta((j - 1) as usize));
    }
}

} // verus!
