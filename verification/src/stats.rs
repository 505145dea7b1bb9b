//! Reduction of round-trip samples to summary statistics.

use crate::ratio::{Fraction, Ratio};
use std::time::{Duration, Instant};
use vstd::prelude::*;
use vstd::relations::{sorted_by, total_ordering};
use vstd::seq_lib::lemma_sorted_unique;

verus! {

/// How many nanoseconds a second has.
pub const NANOS_PER_SECOND: u64 = 1_000_000_000;

/// The order that samples are sorted by.
pub open spec fn at_most() -> spec_fn(u64, u64) -> bool {
    |a: u64, b: u64| a <= b
}

/// The samples in ascending order.
pub open spec fn ascending(samples: Seq<u64>) -> Seq<u64> {
    samples.sort_by(at_most())
}

/// The sum of the samples.
pub open spec fn total(samples: Seq<u64>) -> nat
    decreases samples.len(),
{
    if samples.len() == 0 {
        0
    } else {
        total(samples.drop_last()) + samples.last() as nat
    }
}

/// The smallest sample.
pub open spec fn least(samples: Seq<u64>) -> u64
    recommends
        samples.len() > 0,
    decreases samples.len(),
{
    if samples.len() <= 1 {
        samples[0]
    } else if samples.last() < least(samples.drop_last()) {
        samples.last()
    } else {
        least(samples.drop_last())
    }
}

/// The largest sample.
pub open spec fn greatest(samples: Seq<u64>) -> u64
    recommends
        samples.len() > 0,
    decreases samples.len(),
{
    if samples.len() <= 1 {
        samples[0]
    } else if samples.last() > greatest(samples.drop_last()) {
        samples.last()
    } else {
        greatest(samples.drop_last())
    }
}

/// The mean: the sum over the count, or zero of no samples.
pub open spec fn mean(samples: Seq<u64>) -> Fraction {
    Fraction::of(total(samples), samples.len())
}

/// The median: the middle one of the sorted samples where their count is
/// odd, half the sum of the two around the middle where it is even, or zero
/// of no samples.
pub open spec fn median(samples: Seq<u64>) -> Fraction {
    let sorted = ascending(samples);
    let count = samples.len() as int;
    if count == 0 {
        Fraction::zero()
    } else if count % 2 == 0 {
        Fraction { num: (sorted[count / 2 - 1] + sorted[count / 2]) as nat, den: 2 }
    } else {
        Fraction { num: sorted[count / 2] as nat, den: 1 }
    }
}

/// Messages per second: `count` messages in `nanos` nanoseconds, or zero
/// where no time has passed.
pub open spec fn rate(count: nat, nanos: nat) -> Fraction {
    Fraction::of(count * NANOS_PER_SECOND as nat, nanos)
}

/// A point on std's monotonic clock. Nothing is known of its value.
#[verifier::external_type_specification]
#[verifier::external_body]
pub struct ExInstant(std::time::Instant);

/// `Instant::now` of std reads the clock: nothing is claimed of the result.
pub assume_specification[ Instant::now ]() -> (now: Instant)
;

/// `Instant` is a `Copy` type of std: its `clone` gives the same instant.
pub assume_specification[ <Instant as Clone>::clone ](instant: &Instant) -> (copy: Instant)
    ensures
        copy == *instant,
;

/// `Instant::elapsed` of std measures the time since the instant against the
/// clock: nothing is claimed of the result.
pub assume_specification[ Instant::elapsed ](start: &Instant) -> (elapsed: Duration)
;

/// `Duration::as_nanos` of std gives the whole duration in nanoseconds. The
/// duration itself is opaque here, so nothing is claimed of the number.
pub assume_specification[ Duration::as_nanos ](duration: &Duration) -> (nanos: u128)
;

/// The largest number of nanoseconds that a time field holds.
pub open spec fn clamp_nanos(nanos: u128) -> u64 {
    if nanos > u64::MAX {
        u64::MAX
    } else {
        nanos as u64
    }
}

/// Processor and wall-clock time of one benchmark, in nanoseconds.
#[derive(Debug, Clone)]
pub struct CpuTime {
    /// Processor time spent in user mode.
    pub user_time: u64,
    /// Processor time spent in the kernel.
    pub system_time: u64,
    /// Wall-clock time from start to stop.
    pub wall_time: u64,
    pub start_time: Instant,
}

impl CpuTime {
    /// A measurement that starts now, with all times at zero.
    pub fn new() -> (cpu: CpuTime)
        ensures
            cpu.user_time == 0,
            cpu.system_time == 0,
            cpu.wall_time == 0,
    {
        CpuTime { user_time: 0, system_time: 0, wall_time: 0, start_time: Instant::now() }
    }

    /// Starts over: the clock is read again and all times go back to zero.
    pub fn start(&mut self)
        ensures
            final(self).user_time == 0,
            final(self).system_time == 0,
            final(self).wall_time == 0,
    {
        self.start_time = Instant::now();
        self.user_time = 0;
        self.system_time = 0;
        self.wall_time = 0;
    }

    /// Records the time since the start as the wall time. The processor
    /// times stay as they are.
    pub fn stop(&mut self)
        ensures
            final(self).user_time == old(self).user_time,
            final(self).system_time == old(self).system_time,
            final(self).start_time == old(self).start_time,
    {
        let elapsed = self.start_time.elapsed();
        self.stop_after(elapsed.as_nanos());
    }

    /// Records `elapsed_nanos` as the wall time, or the largest value the
    /// field holds where it is above that.
    pub fn stop_after(&mut self, elapsed_nanos: u128)
        ensures
            final(self).wall_time == clamp_nanos(elapsed_nanos),
            final(self).user_time == old(self).user_time,
            final(self).system_time == old(self).system_time,
            final(self).start_time == old(self).start_time,
    {
        if elapsed_nanos > u64::MAX as u128 {
            self.wall_time = u64::MAX;
        } else {
            self.wall_time = elapsed_nanos as u64;
        }
    }

    /// Processor time in user mode and in the kernel together.
    pub fn cpu_total(&self) -> (total: u128)
        ensures
            total == self.user_time + self.system_time,
    {
        self.user_time as u128 + self.system_time as u128
    }

    /// Processor time as a percentage of the wall time, or zero where no
    /// wall time is recorded.
    pub fn cpu_percent(&self) -> (percent: Ratio)
        ensures
            percent@ == Fraction::of(
                ((self.user_time + self.system_time) * 100) as nat,
                self.wall_time as nat,
            ),
    {
        Ratio::new(self.cpu_total() * 100, self.wall_time as u128)
    }

    /// Messages per second where each of `ping_pong_count` exchanges is a
    /// ping and a pong, or zero where no wall time is recorded.
    pub fn message_rate(&self, ping_pong_count: usize) -> (messages: Ratio)
        ensures
            messages@ == rate((ping_pong_count * 2) as nat, self.wall_time as nat),
    {
        assert(ping_pong_count * 2 * NANOS_PER_SECOND <= u64::MAX * 2 * NANOS_PER_SECOND)
            by (nonlinear_arith)
            requires
                ping_pong_count <= u64::MAX,
        ;
        Ratio::new(
            ping_pong_count as u128 * 2 * NANOS_PER_SECOND as u128,
            self.wall_time as u128,
        )
    }
}

/// Summary statistics as a mathematical value.
pub struct RttStatsView {
    pub rtts: Seq<u64>,
    pub count: nat,
    pub avg: Fraction,
    pub median: Fraction,
    pub min: u64,
    pub max: u64,
    pub total_time: u64,
}

/// The statistics of a sample collection, with no wall time recorded yet.
/// Of no samples all of them are zero.
pub open spec fn summary(samples: Seq<u64>) -> RttStatsView {
    RttStatsView {
        rtts: samples,
        count: samples.len(),
        avg: mean(samples),
        median: median(samples),
        min: if samples.len() == 0 {
            0
        } else {
            least(samples)
        },
        max: if samples.len() == 0 {
            0
        } else {
            greatest(samples)
        },
        total_time: 0,
    }
}

/// Summary statistics of round-trip times in milliseconds.
#[derive(Debug, Clone)]
pub struct RttStats {
    /// The samples, in the order they were given.
    pub rtts: Vec<u64>,
    pub count: usize,
    pub avg: Ratio,
    pub median: Ratio,
    pub min: u64,
    pub max: u64,
    /// The wall time of the run in nanoseconds, for the caller to set.
    pub total_time: u64,
}

impl View for RttStats {
    type V = RttStatsView;

    open spec fn view(&self) -> RttStatsView {
        RttStatsView {
            rtts: self.rtts@,
            count: self.count as nat,
            avg: self.avg@,
            median: self.median@,
            min: self.min,
            max: self.max,
            total_time: self.total_time,
        }
    }
}

/// Calls `<[u64]>::sort` of std on the vector's elements. As std documents
/// it, the call orders the elements ascending and neither drops nor adds
/// one.
#[verifier::external_body]
fn sort_ascending(values: &mut Vec<u64>)
    ensures
        sorted_by(final(values)@, at_most()),
        final(values)@.to_multiset() == old(values)@.to_multiset(),
{
    values.sort();
}

/// `<=` on integers is a total order.
pub proof fn lemma_at_most_is_total()
    ensures
        total_ordering(at_most()),
{
}

/// A sorted rearrangement of the samples is the samples in ascending order.
pub proof fn lemma_ascending_is_unique(sorted: Seq<u64>, samples: Seq<u64>)
    requires
        sorted_by(sorted, at_most()),
        sorted.to_multiset() == samples.to_multiset(),
    ensures
        sorted == ascending(samples),
        sorted.len() == samples.len(),
{
    lemma_at_most_is_total();
    samples.lemma_sort_by_ensures(at_most());
    lemma_sorted_unique(sorted, ascending(samples), at_most());
    sorted.to_multiset_ensures();
    samples.to_multiset_ensures();
}

/// The sum of `n` samples is at most `n` times the largest `u64`.
pub proof fn lemma_total_bound(samples: Seq<u64>)
    ensures
        total(samples) <= samples.len() * u64::MAX,
    decreases samples.len(),
{
    if samples.len() > 0 {
        lemma_total_bound(samples.drop_last());
        let n = samples.drop_last().len();
        assert((n + 1) * u64::MAX == n * u64::MAX + u64::MAX) by (nonlinear_arith);
    } else {
        assert(0 * u64::MAX == 0);
    }
}

/// The smallest sample is one of the samples, and none is below it.
pub proof fn lemma_least_is_least(samples: Seq<u64>)
    requires
        samples.len() > 0,
    ensures
        samples.contains(least(samples)),
        forall|i: int| 0 <= i < samples.len() ==> least(samples) <= #[trigger] samples[i],
    decreases samples.len(),
{
    if samples.len() > 1 {
        let front = samples.drop_last();
        lemma_least_is_least(front);
        let k = choose|k: int| 0 <= k < front.len() && front[k] == least(front);
        assert(samples[k] == least(front));
        assert(samples[samples.len() - 1] == samples.last());
        assert forall|i: int| 0 <= i < samples.len() implies least(samples)
            <= #[trigger] samples[i] by {
            if i < front.len() {
                assert(front[i] == samples[i]);
            }
        }
    } else {
        assert(samples[0] == least(samples));
    }
}

/// The largest sample is one of the samples, and none is above it.
pub proof fn lemma_greatest_is_greatest(samples: Seq<u64>)
    requires
        samples.len() > 0,
    ensures
        samples.contains(greatest(samples)),
        forall|i: int| 0 <= i < samples.len() ==> greatest(samples) >= #[trigger] samples[i],
    decreases samples.len(),
{
    if samples.len() > 1 {
        let front = samples.drop_last();
        lemma_greatest_is_greatest(front);
        let k = choose|k: int| 0 <= k < front.len() && front[k] == greatest(front);
        assert(samples[k] == greatest(front));
        assert(samples[samples.len() - 1] == samples.last());
        assert forall|i: int| 0 <= i < samples.len() implies greatest(samples)
            >= #[trigger] samples[i] by {
            if i < front.len() {
                assert(front[i] == samples[i]);
            }
        }
    } else {
        assert(samples[0] == greatest(samples));
    }
}

/// Two collections that hold the same samples have the same members.
pub proof fn lemma_same_members(a: Seq<u64>, b: Seq<u64>, x: u64)
    requires
        a.to_multiset() == b.to_multiset(),
    ensures
        a.contains(x) == b.contains(x),
{
    a.to_multiset_ensures();
    b.to_multiset_ensures();
    assert(a.contains(x) <==> a.to_multiset().count(x) > 0);
    assert(b.contains(x) <==> b.to_multiset().count(x) > 0);
}

/// Taking one sample out lowers the sum by that sample.
pub proof fn lemma_total_remove(samples: Seq<u64>, k: int)
    requires
        0 <= k < samples.len(),
    ensures
        total(samples) == total(samples.remove(k)) + samples[k],
    decreases samples.len(),
{
    let rest = samples.remove(k);
    if k == samples.len() - 1 {
        assert(rest =~= samples.drop_last());
    } else {
        lemma_total_remove(samples.drop_last(), k);
        assert(rest.drop_last() =~= samples.drop_last().remove(k));
        assert(rest.last() == samples.last());
    }
}

/// Two collections that hold the same samples, in whatever order, have the
/// same sum.
pub proof fn lemma_total_ignores_order(a: Seq<u64>, b: Seq<u64>)
    requires
        a.to_multiset() == b.to_multiset(),
    ensures
        total(a) == total(b),
    decreases a.len(),
{
    broadcast use vstd::seq_lib::group_to_multiset_ensures;
    broadcast use vstd::multiset::group_multiset_axioms;

    a.to_multiset_ensures();
    b.to_multiset_ensures();
    if a.len() > 0 {
        let x = a.last();
        let front = a.drop_last();
        assert(a =~= front.push(x));
        assert(a.contains(x)) by {
            assert(a[a.len() - 1] == x);
        }
        lemma_same_members(a, b, x);
        assert(b.contains(x));
        let k = choose|k: int| 0 <= k < b.len() && b[k] == x;
        let rest = b.remove(k);
        assert(front.to_multiset() =~= a.to_multiset().remove(x));
        assert(rest.to_multiset() =~= b.to_multiset().remove(x));
        lemma_total_ignores_order(front, rest);
        lemma_total_remove(b, k);
    } else {
        assert(b.len() == 0);
    }
}

/// Two collections that hold the same samples, in whatever order, have the
/// same statistics: how the runs of concurrent connections interleave does
/// not show in the count, mean, median, minimum or maximum.
pub proof fn lemma_summary_ignores_order(a: Seq<u64>, b: Seq<u64>)
    requires
        a.to_multiset() == b.to_multiset(),
    ensures
        summary(a).count == summary(b).count,
        summary(a).avg == summary(b).avg,
        summary(a).median == summary(b).median,
        summary(a).min == summary(b).min,
        summary(a).max == summary(b).max,
{
    broadcast use vstd::seq_lib::group_to_multiset_ensures;

    a.to_multiset_ensures();
    b.to_multiset_ensures();
    assert(a.len() == b.len());
    lemma_total_ignores_order(a, b);
    lemma_at_most_is_total();
    a.lemma_sort_by_ensures(at_most());
    lemma_ascending_is_unique(ascending(a), b);
    if a.len() > 0 {
        lemma_least_is_least(a);
        lemma_least_is_least(b);
        lemma_greatest_is_greatest(a);
        lemma_greatest_is_greatest(b);
        lemma_same_members(a, b, least(a));
        lemma_same_members(a, b, least(b));
        lemma_same_members(a, b, greatest(a));
        lemma_same_members(a, b, greatest(b));
    }
}

/// A copy of the samples.
fn copy_of(samples: &Vec<u64>) -> (copy: Vec<u64>)
    ensures
        copy@ == samples@,
{
    let mut copy: Vec<u64> = Vec::with_capacity(samples.len());
    let mut i: usize = 0;
    while i < samples.len()
        invariant
            i <= samples@.len(),
            copy@ == samples@.take(i as int),
        decreases samples@.len() - i,
    {
        copy.push(samples[i]);
        assert(samples@.take(i + 1) =~= samples@.take(i as int).push(samples@[i as int]));
        i = i + 1;
    }
    assert(samples@.take(samples@.len() as int) =~= samples@);
    copy
}

impl RttStats {
    /// The statistics of `rtts`.
    pub fn new(rtts: Vec<u64>) -> (stats: RttStats)
        ensures
            stats@ == summary(rtts@),
    {
        let count: usize = rtts.len();
        if count == 0 {
            return RttStats {
                rtts,
                count,
                avg: Ratio::zero(),
                median: Ratio::zero(),
                min: 0,
                max: 0,
                total_time: 0,
            };
        }
        let mut sum: u128 = rtts[0] as u128;
        let mut min: u64 = rtts[0];
        let mut max: u64 = rtts[0];
        let mut i: usize = 1;
        proof {
            let first = rtts@.take(1);
            assert(first.drop_last().len() == 0);
            assert(total(first.drop_last()) == 0);
            assert(total(first) == rtts@[0]);
            lemma_total_bound(first);
        }
        while i < count
            invariant
                1 <= i <= count,
                count == rtts@.len(),
                sum == total(rtts@.take(i as int)),
                sum <= i * u64::MAX,
                min == least(rtts@.take(i as int)),
                max == greatest(rtts@.take(i as int)),
            decreases count - i,
        {
            let value: u64 = rtts[i];
            proof {
                let next = rtts@.take(i + 1);
                assert(next.drop_last() =~= rtts@.take(i as int));
                assert(next.last() == value);
                lemma_total_bound(next);
                assert(i * u64::MAX + u64::MAX <= u64::MAX * u64::MAX + u64::MAX) by (nonlinear_arith)
                    requires
                        i <= u64::MAX,
                ;
            }
            sum = sum + value as u128;
            if value < min {
                min = value;
            }
            if value > max {
                max = value;
            }
            i = i + 1;
        }
        assert(rtts@.take(count as int) =~= rtts@);

        let mut sorted = copy_of(&rtts);
        sort_ascending(&mut sorted);
        proof {
            lemma_ascending_is_unique(sorted@, rtts@);
        }
        let median = if count % 2 == 0 {
            Ratio::new(sorted[count / 2 - 1] as u128 + sorted[count / 2] as u128, 2)
        } else {
            Ratio::new(sorted[count / 2] as u128, 1)
        };
        RttStats {
            rtts,
            count,
            avg: Ratio::new(sum, count as u128),
            median,
            min,
            max,
            total_time: 0,
        }
    }

    /// Messages per second over the recorded wall time: the count over the
    /// time, or zero where no time is recorded.
    pub fn calculate_throughput(&self) -> (throughput: Ratio)
        ensures
            throughput@ == rate(self.count as nat, self.total_time as nat),
    {
        assert(self.count * NANOS_PER_SECOND <= u64::MAX * NANOS_PER_SECOND) by (nonlinear_arith)
            requires
                self.count <= u64::MAX,
        ;
        Ratio::new(self.count as u128 * NANOS_PER_SECOND as u128, self.total_time as u128)
    }
}

/// The statistics of one benchmark as a mathematical value.
pub struct AggregateView {
    pub count: nat,
    pub avg: Fraction,
    pub median: Fraction,
    pub min: u64,
    pub max: u64,
    pub total_wall_time: u64,
    pub throughput: Fraction,
    pub cpu_total: nat,
    pub cpu_percent: Fraction,
    pub memory_rss_mb: Fraction,
}

/// The statistics of one benchmark: what the samples give, the throughput
/// as their count over the wall time, and the process-wide measurements as
/// they were taken.
pub open spec fn aggregate_of(
    samples: Seq<u64>,
    user_time: u64,
    system_time: u64,
    wall_time: u64,
    memory_rss_mb: Fraction,
) -> AggregateView {
    AggregateView {
        count: samples.len(),
        avg: summary(samples).avg,
        median: summary(samples).median,
        min: summary(samples).min,
        max: summary(samples).max,
        total_wall_time: wall_time,
        throughput: rate(samples.len(), wall_time as nat),
        cpu_total: (user_time + system_time) as nat,
        cpu_percent: Fraction::of(((user_time + system_time) * 100) as nat, wall_time as nat),
        memory_rss_mb,
    }
}

/// The statistics of one benchmark. Times are in nanoseconds, round-trip
/// times in milliseconds.
#[derive(Debug, Clone)]
pub struct AggregateStats {
    pub count: usize,
    pub avg: Ratio,
    pub median: Ratio,
    pub min: u64,
    pub max: u64,
    pub total_wall_time: u64,
    /// Messages per second.
    pub throughput: Ratio,
    pub cpu_total: u128,
    pub cpu_percent: Ratio,
    pub memory_rss_mb: Ratio,
}

impl View for AggregateStats {
    type V = AggregateView;

    open spec fn view(&self) -> AggregateView {
        AggregateView {
            count: self.count as nat,
            avg: self.avg@,
            median: self.median@,
            min: self.min,
            max: self.max,
            total_wall_time: self.total_wall_time,
            throughput: self.throughput@,
            cpu_total: self.cpu_total as nat,
            cpu_percent: self.cpu_percent@,
            memory_rss_mb: self.memory_rss_mb@,
        }
    }
}

/// Reduces the samples of a benchmark and its process-wide measurements to
/// its statistics.
pub fn aggregate(rtts: Vec<u64>, cpu: &CpuTime, memory_rss_mb: Ratio) -> (stats: AggregateStats)
    ensures
        stats@ == aggregate_of(
            rtts@,
            cpu.user_time,
            cpu.system_time,
            cpu.wall_time,
            memory_rss_mb@,
        ),
{
    let mut rtt = RttStats::new(rtts);
    rtt.total_time = cpu.wall_time;
    AggregateStats {
        count: rtt.count,
        avg: rtt.avg,
        median: rtt.median,
        min: rtt.min,
        max: rtt.max,
        total_wall_time: cpu.wall_time,
        throughput: rtt.calculate_throughput(),
        cpu_total: cpu.cpu_total(),
        cpu_percent: cpu.cpu_percent(),
        memory_rss_mb,
    }
}

} // verus!
