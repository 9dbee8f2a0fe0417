//! Throughput and latency counters, and the windowed reading of them that
//! the periodic reporter logs.
use core::time::Duration;
use vstd::prelude::*;

verus! {

/// `2^64`: the counters wrap around at this value.
pub open spec fn counter_modulus() -> int {
    0x1_0000_0000_0000_0000
}

/// The whole seconds of a duration.
pub uninterp spec fn duration_secs(d: Duration) -> u64;

/// The fractional part of a duration, in nanoseconds.
pub uninterp spec fn duration_subsec_nanos(d: Duration) -> u32;

/// `Duration::as_secs`: the number of whole seconds.
#[verifier::external_body]
fn duration_as_secs(d: &Duration) -> (r: u64)
    ensures
        r == duration_secs(*d),
{
    d.as_secs()
}

/// `Duration::subsec_nanos`: the fractional part in nanoseconds, always
/// less than one billion.
#[verifier::external_body]
fn duration_nanos(d: &Duration) -> (r: u32)
    ensures
        r == duration_subsec_nanos(*d),
        r < 1_000_000_000,
{
    d.subsec_nanos()
}

/// The number of whole microseconds in a duration (what `Duration::as_micros`
/// returns): its seconds in microseconds plus the whole microseconds of its
/// fractional part.
pub open spec fn whole_micros(d: Duration) -> int {
    duration_secs(d) * 1_000_000 + duration_subsec_nanos(d) / 1000
}

/// Counters of processed messages and of their summed latency. Both wrap
/// around modulo `2^64`, as atomic fetch-and-add does.
pub struct Metrics {
    pub messages_processed: u64,
    pub total_latency_us: u64,
}

impl Metrics {
    /// Both counters at zero.
    pub fn new() -> (r: Metrics)
        ensures
            r.messages_processed == 0,
            r.total_latency_us == 0,
    {
        Metrics { messages_processed: 0, total_latency_us: 0 }
    }

    /// Records one processed message that took `duration`: the message count
    /// grows by one and the latency sum by the duration's whole microseconds
    /// (kept modulo `2^64`, as a cast to `u64` keeps them), both wrapping.
    pub fn record_processed(&mut self, duration: Duration)
        ensures
            final(self).messages_processed == (old(self).messages_processed + 1) % counter_modulus(),
            final(self).total_latency_us == (old(self).total_latency_us + whole_micros(duration)
                % counter_modulus()) % counter_modulus(),
    {
        let secs: u64 = duration_as_secs(&duration);
        let nanos: u32 = duration_nanos(&duration);
        assert(secs * 1_000_000 <= 0xffff_ffff_ffff_ffff * 1_000_000);
        let micros: u128 = (secs as u128) * 1_000_000 + (nanos / 1000) as u128;
        let truncated: u64 = micros as u64;
        assert(truncated == micros % 0x1_0000_0000_0000_0000) by (bit_vector)
            requires
                truncated == micros as u64,
        ;
        self.messages_processed = self.messages_processed.wrapping_add(1);
        self.total_latency_us = self.total_latency_us.wrapping_add(truncated);
    }

    /// The processed-message count and the summed latency in microseconds;
    /// the average latency is their quotient (zero when nothing was
    /// processed).
    pub fn snapshot(&self) -> (r: (u64, u64))
        ensures
            r == (self.messages_processed, self.total_latency_us),
    {
        (self.messages_processed, self.total_latency_us)
    }
}

/// How many messages were processed in the window since the previous report,
/// given the running total at the start of the window and now.
pub open spec fn window_count(previous: u64, total: u64) -> int {
    if total >= previous {
        total - previous
    } else {
        0
    }
}

/// The state the periodic reporter keeps between two reports.
pub struct ReportWindow {
    pub previous_count: u64,
}

impl ReportWindow {
    /// No report made yet: the previous total is zero.
    pub fn new() -> (r: ReportWindow)
        ensures
            r.previous_count == 0,
    {
        ReportWindow { previous_count: 0 }
    }

    /// Takes the running total at the end of a window, returns how many
    /// messages were processed in it (never negative: a total below the
    /// previous one gives zero) and remembers the total for the next window.
    pub fn observe(&mut self, total_processed: u64) -> (processed_in_window: u64)
        ensures
            processed_in_window == window_count(old(self).previous_count, total_processed),
            final(self).previous_count == total_processed,
    {
        let processed_in_window: u64 = total_processed.saturating_sub(self.previous_count);
        self.previous_count = total_processed;
        processed_in_window
    }
}

/// The total at the end of the windows given by `totals`, starting from
/// `start`.
pub open spec fn last_total(start: u64, totals: Seq<u64>) -> u64 {
    if totals.len() == 0 {
        start
    } else {
        totals.last()
    }
}

/// Sum of the window counts reported for the successive totals `totals`,
/// the first window starting at `start`.
pub open spec fn sum_of_windows(start: u64, totals: Seq<u64>) -> int
    decreases totals.len(),
{
    if totals.len() == 0 {
        0
    } else {
        sum_of_windows(start, totals.drop_last()) + window_count(
            last_total(start, totals.drop_last()),
            totals.last(),
        )
    }
}

/// While the running total never decreases, the per-window counts that the
/// reporter logs add up to the growth of the total over all the windows:
/// no processed message is lost or counted twice.
pub proof fn lemma_windows_add_up(start: u64, totals: Seq<u64>)
    requires
        forall|i: int| 0 <= i < totals.len() ==> start <= #[trigger] totals[i],
        forall|i: int, j: int| 0 <= i <= j < totals.len() ==> totals[i] <= totals[j],
    ensures
        sum_of_windows(start, totals) == last_total(start, totals) - start,
    decreases totals.len(),
{
    if totals.len() > 0 {
        let prefix = totals.drop_last();
        assert forall|i: int, j: int| 0 <= i <= j < prefix.len() implies prefix[i] <= prefix[j] by {
            assert(prefix[i] == totals[i] && prefix[j] == totals[j]);
        }
        assert forall|i: int| 0 <= i < prefix.len() implies start <= #[trigger] prefix[i] by {
            assert(prefix[i] == totals[i]);
        }
        lemma_windows_add_up(start, prefix);
        if prefix.len() > 0 {
            assert(prefix.last() == totals[totals.len() - 2]);
        }
    }
}

} // verus!
