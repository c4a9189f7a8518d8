//! Throughput and tail-latency sampling over a running simulation.
//!
//! The collector samples every 200 virtual milliseconds: the 99th
//! percentile from the histogram, and the success and failure rates from
//! the counter deltas, smoothed by an exponentially weighted moving
//! average with a weight of one tenth. Rates are carried in thousandths
//! of a request per second.
use vstd::prelude::*;
use crate::engine::Simulation;

verus! {

/// Virtual time between samples, in microseconds.
pub const SAMPLE_INTERVAL_US: u64 = 200_000;

/// One sample of the run's health.
pub struct MetricPoint {
    pub sim_time_us: u64,
    /// The 99th-percentile latency, in microseconds.
    pub p99_us: u64,
    /// Smoothed success rate, in thousandths of a request per second.
    pub success_rps_milli: u64,
    /// Smoothed failure rate, in thousandths of a request per second.
    pub failure_rps_milli: u64,
}

/// `delta` outcomes over `dt` microseconds, in thousandths per second,
/// saturated.
pub open spec fn raw_rate_spec(delta: u64, dt: u64) -> int
    recommends
        dt > 0,
{
    let r = delta * 1_000_000_000 / (if dt > 0 {
        dt as int
    } else {
        1
    });
    if r > u64::MAX {
        u64::MAX as int
    } else {
        r
    }
}

/// One smoothing step: nine tenths of the old value plus one tenth of
/// the new, saturated.
pub open spec fn ewma_spec(prev: u64, raw: u64) -> int {
    let r = (prev * 9 + raw) / 10;
    if r > u64::MAX {
        u64::MAX as int
    } else {
        r
    }
}

/// Samples a simulation's counters and histogram into a bounded history.
pub struct MetricsCollector {
    /// The sampled points, oldest first, at most `max_points` of them.
    pub history: Vec<MetricPoint>,
    pub max_points: usize,
    pub last_sample_time_us: u64,
    pub last_success_count: u64,
    pub last_failure_count: u64,
    pub current_success_rps_milli: u64,
    pub current_failure_rps_milli: u64,
}

impl MetricsCollector {
    pub closed spec fn spec_last_sample_time(&self) -> u64 {
        self.last_sample_time_us
    }

    pub closed spec fn spec_success_rate(&self) -> u64 {
        self.current_success_rps_milli
    }

    pub closed spec fn spec_failure_rate(&self) -> u64 {
        self.current_failure_rps_milli
    }

    pub fn new(max_points: usize) -> (r: Self)
        ensures
            r.history@.len() == 0,
            r.max_points == max_points,
            r.spec_last_sample_time() == 0,
            r.spec_success_rate() == 0,
            r.spec_failure_rate() == 0,
    {
        MetricsCollector {
            history: Vec::new(),
            max_points,
            last_sample_time_us: 0,
            last_success_count: 0,
            last_failure_count: 0,
            current_success_rps_milli: 0,
            current_failure_rps_milli: 0,
        }
    }

    /// Take a sample if a sampling interval has passed: the smoothed
    /// rates move one EWMA step toward the raw rates of the elapsed
    /// window, and one point joins the history (the oldest falls out
    /// past `max_points`). Too-early calls change nothing.
    pub fn update(&mut self, sim: &Simulation, stats_window_us: u64)
        ensures
            sim.time < old(self).spec_last_sample_time() + SAMPLE_INTERVAL_US ==> *final(self)
                == *old(self),
            sim.time >= old(self).spec_last_sample_time() + SAMPLE_INTERVAL_US ==> {
                let dt = (sim.time - old(self).spec_last_sample_time()) as u64;
                let ds = if sim.success_count >= old(self).last_success_spec() {
                    (sim.success_count - old(self).last_success_spec()) as u64
                } else {
                    0u64
                };
                let df = if sim.failure_count >= old(self).last_failure_spec() {
                    (sim.failure_count - old(self).last_failure_spec()) as u64
                } else {
                    0u64
                };
                let raw_s = raw_rate_spec(ds, dt);
                let raw_f = raw_rate_spec(df, dt);
                &&& final(self).spec_last_sample_time() == sim.time
                &&& final(self).spec_success_rate() == ewma_spec(
                    old(self).spec_success_rate(),
                    raw_s as u64,
                )
                &&& final(self).spec_failure_rate() == ewma_spec(
                    old(self).spec_failure_rate(),
                    raw_f as u64,
                )
                &&& old(self).max_points > 0 ==> {
                    &&& final(self).history@.len() >= 1
                    &&& final(self).history@.last().sim_time_us == sim.time
                    &&& final(self).history@.last().success_rps_milli == final(self).spec_success_rate()
                    &&& final(self).history@.last().failure_rps_milli == final(self).spec_failure_rate()
                    &&& final(self).history@.last().p99_us == if crate::hist::hist_values(
                        sim.histogram,
                    ).len() == 0 {
                        0u64
                    } else {
                        crate::hist::hist_percentile_value(sim.histogram, 99)
                    }
                }
                &&& final(self).history@.len() <= old(self).history@.len() + 1
                &&& (old(self).history@.len() <= old(self).max_points ==> final(self).history@.len() <= final(self).max_points)
                &&& final(self).max_points == old(self).max_points
            },
    {
        if self.last_sample_time_us > u64::MAX - SAMPLE_INTERVAL_US || sim.time
            < self.last_sample_time_us + SAMPLE_INTERVAL_US {
            return ;
        }
        let p99_us = match sim.get_percentile(99, stats_window_us) {
            Option::Some(v) => v,
            Option::None => 0,
        };
        let success_delta = if sim.success_count >= self.last_success_count {
            sim.success_count - self.last_success_count
        } else {
            0
        };
        let failure_delta = if sim.failure_count >= self.last_failure_count {
            sim.failure_count - self.last_failure_count
        } else {
            0
        };
        let dt = sim.time - self.last_sample_time_us;
        let dt_div = if dt == 0 {
            1
        } else {
            dt
        };
        let raw_success = Self::raw_rate(success_delta, dt_div);
        let raw_failure = Self::raw_rate(failure_delta, dt_div);
        proof {
            assert(raw_success == raw_rate_spec(success_delta, dt));
            assert(raw_failure == raw_rate_spec(failure_delta, dt));
        }
        self.current_success_rps_milli = Self::ewma(self.current_success_rps_milli, raw_success);
        self.current_failure_rps_milli = Self::ewma(self.current_failure_rps_milli, raw_failure);
        self.history.push(
            MetricPoint {
                sim_time_us: sim.time,
                p99_us,
                success_rps_milli: self.current_success_rps_milli,
                failure_rps_milli: self.current_failure_rps_milli,
            },
        );
        if self.history.len() > self.max_points {
            self.history.remove(0);
        }
        self.last_sample_time_us = sim.time;
        self.last_success_count = sim.success_count;
        self.last_failure_count = sim.failure_count;
    }

    pub closed spec fn last_success_spec(&self) -> u64 {
        self.last_success_count
    }

    pub closed spec fn last_failure_spec(&self) -> u64 {
        self.last_failure_count
    }

    fn raw_rate(delta: u64, dt: u64) -> (r: u64)
        requires
            dt > 0,
        ensures
            r == raw_rate_spec(delta, dt),
    {
        let wide: u128 = (delta as u128) * 1_000_000_000 / (dt as u128);
        if wide > u64::MAX as u128 {
            u64::MAX
        } else {
            wide as u64
        }
    }

    fn ewma(prev: u64, raw: u64) -> (r: u64)
        ensures
            r == ewma_spec(prev, raw),
    {
        let wide: u128 = ((prev as u128) * 9 + raw as u128) / 10;
        if wide > u64::MAX as u128 {
            u64::MAX
        } else {
            wide as u64
        }
    }

    /// Forget all samples and baselines.
    pub fn reset(&mut self)
        ensures
            final(self).history@.len() == 0,
            final(self).max_points == old(self).max_points,
            final(self).spec_last_sample_time() == 0,
            final(self).spec_success_rate() == 0,
            final(self).spec_failure_rate() == 0,
    {
        self.history.clear();
        self.last_sample_time_us = 0;
        self.last_success_count = 0;
        self.last_failure_count = 0;
        self.current_success_rps_milli = 0;
        self.current_failure_rps_milli = 0;
    }
}

} // verus!
