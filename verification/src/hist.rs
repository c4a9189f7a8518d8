//! The latency histogram, through the `hdrhistogram` crate.
//!
//! The simulation records every successful terminal latency into one
//! histogram covering 1 microsecond to 60 seconds at three significant
//! digits, and answers percentile queries from it. The histogram is held
//! abstract: its contents are named as a multiset of recorded values, and
//! the percentile lookup is named as a function of the histogram state.
use vstd::prelude::*;
use vstd::multiset::Multiset;

verus! {

/// The 64-bit-counter histogram of `hdrhistogram`, held opaque. (The
/// crate's `Histogram<C>` is generic over its `Counter` trait, which keeps
/// the type itself from being declared to the verifier.)
#[verifier::external_body]
pub struct LatencyHistogram {
    inner: hdrhistogram::Histogram<u64>,
}

/// The multiset of values recorded into the histogram.
pub uninterp spec fn hist_values(h: LatencyHistogram) -> Multiset<u64>;

/// The highest value the histogram was configured to track.
pub uninterp spec fn hist_high(h: LatencyHistogram) -> u64;

/// What `value_at_percentile` returns for a given histogram state and a
/// whole percentile.
pub uninterp spec fn hist_percentile_value(h: LatencyHistogram, percent: u32) -> u64;

/// Largest trackable latency: 60 seconds in microseconds.
pub const HIST_HIGH_US: u64 = 60_000_000;

impl LatencyHistogram {
    /// Relies on hdrhistogram's `Histogram::new_with_bounds`: a fresh, empty
    /// histogram over `[1, 60_000_000]` at 3 significant digits. These
    /// bounds are documented as valid, so construction succeeds.
    #[verifier::external_body]
    pub fn new() -> (r: Self)
        ensures
            hist_values(r) == Multiset::<u64>::empty(),
            hist_high(r) == HIST_HIGH_US,
    {
        LatencyHistogram {
            inner: hdrhistogram::Histogram::<u64>::new_with_bounds(1, HIST_HIGH_US, 3).unwrap(),
        }
    }

    /// Relies on hdrhistogram's `Histogram::record`: a value within the
    /// highest trackable value is always recorded; beyond it, recording
    /// may still succeed as far as the allocated buckets reach, and
    /// errs (leaving the histogram unchanged) past them.
    #[verifier::external_body]
    pub fn record(&mut self, value: u64) -> (r: Result<(), ()>)
        ensures
            value <= hist_high(*old(self)) ==> r is Ok,
            r is Ok ==> hist_values(*final(self)) == hist_values(*old(self)).insert(value),
            r is Err ==> hist_values(*final(self)) == hist_values(*old(self)),
            hist_high(*final(self)) == hist_high(*old(self)),
    {
        match self.inner.record(value) {
            Ok(()) => Ok(()),
            Err(_) => Err(()),
        }
    }

    /// Relies on hdrhistogram's `Histogram::len`: the total number of
    /// recorded samples (zero exactly when nothing was recorded; exact
    /// while the count has not saturated a `u64`).
    #[verifier::external_body]
    pub fn len(&self) -> (r: u64)
        ensures
            (r == 0) <==> (hist_values(*self).len() == 0),
            hist_values(*self).len() <= u64::MAX ==> r == hist_values(*self).len(),
    {
        self.inner.len()
    }

    /// Relies on hdrhistogram's `Histogram::reset`: drops all recorded
    /// values, keeping the configuration.
    #[verifier::external_body]
    pub fn reset(&mut self)
        ensures
            hist_values(*final(self)) == Multiset::<u64>::empty(),
            hist_high(*final(self)) == hist_high(*old(self)),
    {
        self.inner.reset()
    }

    /// Relies on hdrhistogram's `Histogram::value_at_percentile`: the value
    /// at the given whole percentile, a pure function of the histogram
    /// state. An empty histogram yields 0.
    #[verifier::external_body]
    pub fn value_at_percentile(&self, percent: u32) -> (r: u64)
        ensures
            r == hist_percentile_value(*self, percent),
            hist_values(*self).len() == 0 ==> r == 0,
    {
        self.inner.value_at_percentile(percent.into())
    }
}

} // verus!
