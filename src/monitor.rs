//! Counters sampled by the pipeline and the sinkers.

use vstd::prelude::*;

verus! {

/// The counters a monitor keeps.
#[derive(Clone, Copy, Debug, PartialEq, Eq, Structural)]
pub enum CounterType {
    BufferSize,
    Records,
    RecordsPerQuery,
    RtPerQuery,
    SerialWrites,
    SinkedCount,
}

/// A counter: the total of the values added and the number of samples they
/// stand for. Both saturate at `u64::MAX`.
#[derive(Clone, Copy, Debug, PartialEq, Eq, Structural)]
pub struct Counter {
    pub sum: u64,
    pub count: u64,
}

/// Addition that stops at `u64::MAX`.
pub open spec fn sat_add(a: u64, b: u64) -> u64 {
    if a + b > u64::MAX {
        u64::MAX
    } else {
        (a + b) as u64
    }
}

fn saturating_sum(a: u64, b: u64) -> (r: u64)
    ensures
        r == sat_add(a, b),
{
    if b > u64::MAX - a {
        u64::MAX
    } else {
        a + b
    }
}

/// One counter of each type.
#[derive(Clone, Copy, Debug, PartialEq, Eq, Structural)]
pub struct Monitor {
    pub buffer_size: Counter,
    pub records: Counter,
    pub records_per_query: Counter,
    pub rt_per_query: Counter,
    pub serial_writes: Counter,
    pub sinked_count: Counter,
}

/// The counter of the given type.
pub open spec fn counter_of(m: Monitor, t: CounterType) -> Counter {
    match t {
        CounterType::BufferSize => m.buffer_size,
        CounterType::Records => m.records,
        CounterType::RecordsPerQuery => m.records_per_query,
        CounterType::RtPerQuery => m.rt_per_query,
        CounterType::SerialWrites => m.serial_writes,
        CounterType::SinkedCount => m.sinked_count,
    }
}

/// A counter after `value` standing for `count` samples was added to it.
pub open spec fn counter_added(c: Counter, value: u64, count: u64) -> Counter {
    Counter { sum: sat_add(c.sum, value), count: sat_add(c.count, count) }
}

/// A monitor whose counter `t` had `value` for `count` samples added.
pub open spec fn monitor_added(m: Monitor, t: CounterType, value: u64, count: u64) -> Monitor {
    let c = counter_added(counter_of(m, t), value, count);
    match t {
        CounterType::BufferSize => Monitor { buffer_size: c, ..m },
        CounterType::Records => Monitor { records: c, ..m },
        CounterType::RecordsPerQuery => Monitor { records_per_query: c, ..m },
        CounterType::RtPerQuery => Monitor { rt_per_query: c, ..m },
        CounterType::SerialWrites => Monitor { serial_writes: c, ..m },
        CounterType::SinkedCount => Monitor { sinked_count: c, ..m },
    }
}

impl Monitor {
    /// The monitor with every counter at zero.
    pub open spec fn new_spec() -> Monitor {
        let z = Counter { sum: 0, count: 0 };
        Monitor {
            buffer_size: z,
            records: z,
            records_per_query: z,
            rt_per_query: z,
            serial_writes: z,
            sinked_count: z,
        }
    }

    /// A monitor with every counter at zero.
    pub fn new() -> (m: Monitor)
        ensures
            m == Monitor::new_spec(),
            forall|t: CounterType| #[trigger] counter_of(m, t) == (Counter { sum: 0, count: 0 }),
    {
        let z = Counter { sum: 0, count: 0 };
        Monitor {
            buffer_size: z,
            records: z,
            records_per_query: z,
            rt_per_query: z,
            serial_writes: z,
            sinked_count: z,
        }
    }

    /// Adds `value`, standing for `count` samples, to counter `t`.
    pub fn add_batch_counter(&mut self, t: CounterType, value: u64, count: u64)
        ensures
            *final(self) == monitor_added(*old(self), t, value, count),
    {
        let c = match t {
            CounterType::BufferSize => self.buffer_size,
            CounterType::Records => self.records,
            CounterType::RecordsPerQuery => self.records_per_query,
            CounterType::RtPerQuery => self.rt_per_query,
            CounterType::SerialWrites => self.serial_writes,
            CounterType::SinkedCount => self.sinked_count,
        };
        let n = Counter { sum: saturating_sum(c.sum, value), count: saturating_sum(c.count, count) };
        match t {
            CounterType::BufferSize => self.buffer_size = n,
            CounterType::Records => self.records = n,
            CounterType::RecordsPerQuery => self.records_per_query = n,
            CounterType::RtPerQuery => self.rt_per_query = n,
            CounterType::SerialWrites => self.serial_writes = n,
            CounterType::SinkedCount => self.sinked_count = n,
        }
    }

    /// Adds one sample of `value` to counter `t`.
    pub fn add_counter(&mut self, t: CounterType, value: u64)
        ensures
            *final(self) == monitor_added(*old(self), t, value, 1),
    {
        self.add_batch_counter(t, value, 1);
    }

    /// The counter of type `t`.
    pub fn get(&self, t: CounterType) -> (c: Counter)
        ensures
            c == counter_of(*self, t),
    {
        match t {
            CounterType::BufferSize => self.buffer_size,
            CounterType::Records => self.records,
            CounterType::RecordsPerQuery => self.records_per_query,
            CounterType::RtPerQuery => self.rt_per_query,
            CounterType::SerialWrites => self.serial_writes,
            CounterType::SinkedCount => self.sinked_count,
        }
    }
}

/// Monitor updates shared by the sinkers.
pub struct BaseSinker {}

impl BaseSinker {
    /// Accounts one batched write of `batch_size` records that took
    /// `elapsed_micros`.
    pub fn update_batch_monitor(monitor: &mut Monitor, batch_size: u64, elapsed_micros: u64)
        ensures
            *final(monitor) == monitor_added(
                monitor_added(
                    monitor_added(*old(monitor), CounterType::RecordsPerQuery, batch_size, 1),
                    CounterType::Records,
                    batch_size,
                    1,
                ),
                CounterType::RtPerQuery,
                elapsed_micros,
                1,
            ),
    {
        monitor.add_counter(CounterType::RecordsPerQuery, batch_size);
        monitor.add_counter(CounterType::Records, batch_size);
        monitor.add_counter(CounterType::RtPerQuery, elapsed_micros);
    }

    /// Accounts `record_count` records written one by one, which took
    /// `elapsed_micros` in all.
    pub fn update_serial_monitor(monitor: &mut Monitor, record_count: u64, elapsed_micros: u64)
        ensures
            *final(monitor) == monitor_added(
                monitor_added(
                    monitor_added(
                        monitor_added(
                            *old(monitor),
                            CounterType::RecordsPerQuery,
                            record_count,
                            record_count,
                        ),
                        CounterType::Records,
                        record_count,
                        1,
                    ),
                    CounterType::SerialWrites,
                    record_count,
                    1,
                ),
                CounterType::RtPerQuery,
                elapsed_micros,
                record_count,
            ),
    {
        monitor.add_batch_counter(CounterType::RecordsPerQuery, record_count, record_count);
        monitor.add_counter(CounterType::Records, record_count);
        monitor.add_counter(CounterType::SerialWrites, record_count);
        monitor.add_batch_counter(CounterType::RtPerQuery, elapsed_micros, record_count);
    }
}

} // verus!
