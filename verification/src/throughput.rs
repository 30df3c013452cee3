//! A sliding-window estimate of how fast the child writes: byte counts with
//! their time of arrival, summed over the last one, five and fifteen minutes.

use vstd::prelude::*;
use crate::clock::{is_reading, millis_of, now_millis};

verus! {

/// Samples older than this many milliseconds are dropped.
pub const RETENTION_MS: u64 = 900000;

/// One chunk of output: when it arrived, in milliseconds since the epoch,
/// and how many bytes it had.
#[derive(Clone, Copy, Debug)]
pub struct ThroughputSample {
    pub at_ms: u64,
    pub bytes: usize,
}

/// An average rate: `bytes` bytes in `seconds` seconds. A rate over no time
/// at all is zero.
#[derive(Clone, Copy, Debug)]
pub struct Rate {
    pub bytes: u128,
    pub seconds: u64,
}

/// The samples seen in the last fifteen minutes.
pub struct ThroughputTracker {
    pub samples: Vec<ThroughputSample>,
}

/// Whether a sample taken at `at_ms` lies within the `window_ms`
/// milliseconds that end at `now`.
pub open spec fn in_window(at_ms: u64, now: u64, window_ms: int) -> bool {
    at_ms >= now - window_ms
}

/// The samples of `samples` that lie within the window, in their order.
pub open spec fn retained(samples: Seq<ThroughputSample>, now: u64, window_ms: int) -> Seq<
    ThroughputSample,
>
    decreases samples.len(),
{
    if samples.len() == 0 {
        Seq::empty()
    } else if in_window(samples.last().at_ms, now, window_ms) {
        retained(samples.drop_last(), now, window_ms).push(samples.last())
    } else {
        retained(samples.drop_last(), now, window_ms)
    }
}

/// The bytes of all samples of `samples` that lie within the window.
pub open spec fn window_bytes(samples: Seq<ThroughputSample>, now: u64, window_ms: int) -> nat
    decreases samples.len(),
{
    if samples.len() == 0 {
        0
    } else if in_window(samples.last().at_ms, now, window_ms) {
        window_bytes(samples.drop_last(), now, window_ms) + samples.last().bytes as nat
    } else {
        window_bytes(samples.drop_last(), now, window_ms)
    }
}

/// The average rate over the last `window_secs` seconds: the bytes of the
/// samples in that window, over the length of the window. Zero for a window
/// of no length.
pub open spec fn rate_over(samples: Seq<ThroughputSample>, now: u64, window_secs: u64) -> Rate {
    if window_secs == 0 {
        Rate { bytes: 0, seconds: 0 }
    } else {
        Rate { bytes: window_bytes(samples, now, window_secs * 1000) as u128, seconds: window_secs }
    }
}

/// The bytes in a window are no more than the number of samples times the
/// largest count one sample can hold.
pub proof fn lemma_window_bytes_bound(samples: Seq<ThroughputSample>, now: u64, window_ms: int)
    ensures
        window_bytes(samples, now, window_ms) <= samples.len() * usize::MAX,
    decreases samples.len(),
{
    if samples.len() > 0 {
        lemma_window_bytes_bound(samples.drop_last(), now, window_ms);
        assert((samples.len() - 1) * usize::MAX + usize::MAX == samples.len() * usize::MAX)
            by (nonlinear_arith);
    }
}

/// Nothing that is retained lies outside the window, and nothing inside the
/// window is lost.
pub proof fn lemma_retained(samples: Seq<ThroughputSample>, now: u64, window_ms: int)
    ensures
        retained(samples, now, window_ms).len() <= samples.len(),
        forall|k: int|
            0 <= k < retained(samples, now, window_ms).len() ==> in_window(
                #[trigger] retained(samples, now, window_ms)[k].at_ms,
                now,
                window_ms,
            ),
        window_bytes(retained(samples, now, window_ms), now, window_ms) == window_bytes(
            samples,
            now,
            window_ms,
        ),
    decreases samples.len(),
{
    if samples.len() > 0 {
        lemma_retained(samples.drop_last(), now, window_ms);
        let kept = retained(samples.drop_last(), now, window_ms);
        if in_window(samples.last().at_ms, now, window_ms) {
            assert(kept.push(samples.last()).drop_last() =~= kept);
        }
    }
}

impl Rate {
    /// The rate of nothing at all.
    pub fn zero() -> (rate: Rate)
        ensures
            rate.bytes == 0,
            rate.seconds == 0,
    {
        Rate { bytes: 0, seconds: 0 }
    }

    /// Whether the rate is at least `num / den` bytes a second.
    pub open spec fn at_least(self, num: int, den: int) -> bool {
        self.seconds > 0 && self.bytes * den >= num * self.seconds
    }

    /// Whether the rate is more than `limit` bytes a second.
    pub open spec fn more_than(self, limit: int) -> bool {
        self.seconds > 0 && self.bytes > limit * self.seconds
    }

    /// Whether the rate is less than `limit` bytes a second. A rate over no
    /// time is zero.
    pub open spec fn less_than(self, limit: int) -> bool {
        if self.seconds > 0 {
            self.bytes < limit * self.seconds
        } else {
            limit > 0
        }
    }

    /// Whether the rate is at least half a byte a second.
    pub fn at_least_half(&self) -> (yes: bool)
        ensures
            yes == self.at_least(1, 2),
    {
        self.seconds > 0 && self.bytes >= (self.seconds as u128 + 1) / 2
    }

    /// Whether the rate is more than `limit` bytes a second.
    pub fn exceeds(&self, limit: u64) -> (yes: bool)
        ensures
            yes == self.more_than(limit as int),
    {
        proof {
            assert(limit as int * self.seconds as int <= 0xffffffffffffffff * 0xffffffffffffffff)
                by (nonlinear_arith)
                requires
                    0 <= limit <= 0xffffffffffffffff,
                    0 <= self.seconds <= 0xffffffffffffffff,
            ;
        }
        self.seconds > 0 && self.bytes > limit as u128 * self.seconds as u128
    }

    /// Whether the rate is less than `limit` bytes a second. A rate over no
    /// time is zero, and so below every limit above zero.
    pub fn below(&self, limit: u64) -> (yes: bool)
        ensures
            yes == self.less_than(limit as int),
    {
        proof {
            assert(limit as int * self.seconds as int <= 0xffffffffffffffff * 0xffffffffffffffff)
                by (nonlinear_arith)
                requires
                    0 <= limit <= 0xffffffffffffffff,
                    0 <= self.seconds <= 0xffffffffffffffff,
            ;
        }
        if self.seconds > 0 {
            self.bytes < limit as u128 * self.seconds as u128
        } else {
            limit > 0
        }
    }
}

/// The earliest time that still lies in the window, held at zero.
fn window_start(now: u64, window_ms: u64) -> (start: u64)
    ensures
        forall|at_ms: u64| at_ms >= start <==> in_window(at_ms, now, window_ms as int),
{
    if window_ms >= now {
        0
    } else {
        now - window_ms
    }
}

impl ThroughputTracker {
    /// A tracker that has seen nothing.
    pub fn new() -> (tracker: ThroughputTracker)
        ensures
            tracker.samples@ == Seq::<ThroughputSample>::empty(),
    {
        ThroughputTracker { samples: Vec::new() }
    }

    /// Notes that `bytes` bytes arrived at time `now`, and forgets every
    /// sample that is by then older than fifteen minutes.
    pub fn record_at(&mut self, now: u64, bytes: usize)
        ensures
            final(self).samples@ == retained(
                old(self).samples@.push(ThroughputSample { at_ms: now, bytes }),
                now,
                RETENTION_MS as int,
            ),
    {
        self.samples.push(ThroughputSample { at_ms: now, bytes });
        let start: u64 = window_start(now, RETENTION_MS);
        let mut kept: Vec<ThroughputSample> = Vec::new();
        let mut i: usize = 0;
        let ghost all = self.samples@;
        while i < self.samples.len()
            invariant
                i <= self.samples.len(),
                self.samples@ == all,
                forall|at_ms: u64| at_ms >= start <==> in_window(at_ms, now, RETENTION_MS as int),
                kept@ == retained(all.subrange(0, i as int), now, RETENTION_MS as int),
            decreases self.samples.len() - i,
        {
            let sample = self.samples[i];
            proof {
                assert(all.subrange(0, i + 1).drop_last() =~= all.subrange(0, i as int));
                assert(all.subrange(0, i + 1).last() == sample);
            }
            if sample.at_ms >= start {
                kept.push(sample);
            }
            i += 1;
        }
        assert(all.subrange(0, i as int) =~= all);
        self.samples = kept;
    }

    /// Notes that `bytes` bytes arrived just now.
    pub fn record(&mut self, bytes: usize)
        ensures
            exists|reading: Option<(u64, u32)>|
                is_reading(reading) && final(self).samples@ == retained(
                    old(self).samples@.push(
                        ThroughputSample { at_ms: millis_of(reading), bytes },
                    ),
                    millis_of(reading),
                    RETENTION_MS as int,
                ),
    {
        let now = now_millis();
        self.record_at(now, bytes);
    }

    /// The average rate over the `window_secs` seconds that end at `now`.
    pub fn compute_bps(&self, now: u64, window_secs: u64) -> (rate: Rate)
        ensures
            rate == rate_over(self.samples@, now, window_secs),
    {
        if window_secs == 0 {
            return Rate::zero();
        }
        let start: u64 = if window_secs > now / 1000 {
            0
        } else {
            now - window_secs * 1000
        };
        let ghost window_ms: int = window_secs * 1000;
        assert(forall|at_ms: u64| at_ms >= start <==> in_window(at_ms, now, window_ms));
        let mut total: u128 = 0;
        let mut i: usize = 0;
        while i < self.samples.len()
            invariant
                i <= self.samples.len(),
                forall|at_ms: u64| at_ms >= start <==> in_window(at_ms, now, window_ms),
                total == window_bytes(self.samples@.subrange(0, i as int), now, window_ms),
            decreases self.samples.len() - i,
        {
            let sample = self.samples[i];
            proof {
                let upto = self.samples@.subrange(0, i + 1);
                assert(upto.drop_last() =~= self.samples@.subrange(0, i as int));
                assert(upto.last() == sample);
                lemma_window_bytes_bound(upto, now, window_ms);
                assert(upto.len() * usize::MAX <= 0xffffffffffffffff * 0xffffffffffffffff)
                    by (nonlinear_arith)
                    requires
                        upto.len() <= 0xffffffffffffffff,
                        usize::MAX <= 0xffffffffffffffff,
                ;
            }
            if sample.at_ms >= start {
                total = total + sample.bytes as u128;
            }
            i += 1;
        }
        proof {
            assert(self.samples@.subrange(0, i as int) =~= self.samples@);
            lemma_window_bytes_bound(self.samples@, now, window_ms);
        }
        Rate { bytes: total, seconds: window_secs }
    }

    /// The average rate over the last minute.
    pub fn bps1(&self) -> (rate: Rate)
        ensures
            exists|reading: Option<(u64, u32)>|
                is_reading(reading) && rate == rate_over(self.samples@, millis_of(reading), 60),
    {
        self.compute_bps(now_millis(), 60)
    }

    /// The average rate over the last five minutes.
    pub fn bps5(&self) -> (rate: Rate)
        ensures
            exists|reading: Option<(u64, u32)>|
                is_reading(reading) && rate == rate_over(self.samples@, millis_of(reading), 300),
    {
        self.compute_bps(now_millis(), 300)
    }

    /// The average rate over the last fifteen minutes.
    pub fn bps15(&self) -> (rate: Rate)
        ensures
            exists|reading: Option<(u64, u32)>|
                is_reading(reading) && rate == rate_over(self.samples@, millis_of(reading), 900),
    {
        self.compute_bps(now_millis(), 900)
    }
}

} // verus!
