//! Adaptive admission to the slow path: a permit count that shrinks toward
//! its minimum while upstream latency is high and grows toward its maximum
//! while latency is low and nobody waits.

use vstd::prelude::*;

verus! {

/// Permits in use, the current limit with its bounds, and the latency
/// average in milliseconds.
pub struct FlowControl {
    in_flight: usize,
    limit: usize,
    min_permits: usize,
    max_permits: usize,
    threshold_ms: u64,
    ewma_ms: u64,
}

/// Limit after an adjustment: halfway down to `lo` while the average is
/// above the threshold; up by `step`, at most to `hi`, while it is at most
/// half the threshold and nobody waits; unchanged otherwise.
pub open spec fn adjusted_limit(
    limit: usize,
    lo: usize,
    hi: usize,
    ewma: u64,
    threshold: u64,
    queue_empty: bool,
) -> usize {
    if ewma > threshold {
        (limit - (limit - lo) / 2) as usize
    } else if ewma <= threshold / 2 && queue_empty {
        if limit + grow_step(lo, hi) > hi {
            hi
        } else {
            (limit + grow_step(lo, hi)) as usize
        }
    } else {
        limit
    }
}

/// Additive growth: a sixteenth of the range, at least one.
pub open spec fn grow_step(lo: usize, hi: usize) -> usize {
    if (hi - lo) / 16 > 1 {
        ((hi - lo) / 16) as usize
    } else {
        1
    }
}

/// New latency average: seven parts old, one part new.
pub open spec fn next_ewma(ewma: u64, sample: u64) -> u64 {
    ((ewma as int * 7 + sample as int) / 8) as u64
}

impl FlowControl {
    pub closed spec fn in_flight_view(&self) -> usize {
        self.in_flight
    }

    pub closed spec fn limit_view(&self) -> usize {
        self.limit
    }

    pub closed spec fn bounds_view(&self) -> (usize, usize) {
        (self.min_permits, self.max_permits)
    }

    pub closed spec fn ewma_view(&self) -> u64 {
        self.ewma_ms
    }

    pub closed spec fn threshold_view(&self) -> u64 {
        self.threshold_ms
    }

    /// The limit stays within its bounds.
    pub open spec fn wf(&self) -> bool {
        self.bounds_view().0 <= self.limit_view() <= self.bounds_view().1
    }

    /// Starts at `initial` brought within `min..=max` (a maximum below the
    /// minimum counts as the minimum), with nothing in flight and no
    /// latency measured.
    pub fn new(initial: usize, min_permits: usize, max_permits: usize, threshold_ms: u64) -> (r: Self)
        ensures
            r.wf(),
            r.in_flight_view() == 0,
            r.ewma_view() == 0,
            r.threshold_view() == threshold_ms,
            r.bounds_view() == (min_permits, if max_permits < min_permits {
                min_permits
            } else {
                max_permits
            }),
            r.limit_view() == if initial < min_permits {
                min_permits
            } else if initial > r.bounds_view().1 {
                r.bounds_view().1
            } else {
                initial
            },
    {
        let hi = if max_permits < min_permits {
            min_permits
        } else {
            max_permits
        };
        let limit = if initial < min_permits {
            min_permits
        } else if initial > hi {
            hi
        } else {
            initial
        };
        FlowControl { in_flight: 0, limit, min_permits, max_permits: hi, threshold_ms, ewma_ms: 0 }
    }

    /// Takes a permit when fewer than the limit are in use.
    pub fn try_acquire(&mut self) -> (r: bool)
        requires
            old(self).wf(),
        ensures
            final(self).wf(),
            r == (old(self).in_flight_view() < old(self).limit_view()),
            final(self).in_flight_view() == if r {
                old(self).in_flight_view() + 1
            } else {
                old(self).in_flight_view() as int
            },
            final(self).limit_view() == old(self).limit_view(),
            final(self).bounds_view() == old(self).bounds_view(),
            final(self).ewma_view() == old(self).ewma_view(),
            final(self).threshold_view() == old(self).threshold_view(),
    {
        if self.in_flight < self.limit {
            self.in_flight = self.in_flight + 1;
            true
        } else {
            false
        }
    }

    /// Gives a permit back.
    pub fn release(&mut self)
        requires
            old(self).wf(),
        ensures
            final(self).wf(),
            final(self).in_flight_view() == if old(self).in_flight_view() > 0 {
                old(self).in_flight_view() - 1
            } else {
                0
            },
            final(self).limit_view() == old(self).limit_view(),
            final(self).bounds_view() == old(self).bounds_view(),
            final(self).ewma_view() == old(self).ewma_view(),
            final(self).threshold_view() == old(self).threshold_view(),
    {
        if self.in_flight > 0 {
            self.in_flight = self.in_flight - 1;
        }
    }

    /// Folds one upstream latency into the average.
    pub fn record_latency(&mut self, ms: u64)
        requires
            old(self).wf(),
        ensures
            final(self).wf(),
            final(self).ewma_view() == next_ewma(old(self).ewma_view(), ms),
            final(self).in_flight_view() == old(self).in_flight_view(),
            final(self).limit_view() == old(self).limit_view(),
            final(self).bounds_view() == old(self).bounds_view(),
            final(self).threshold_view() == old(self).threshold_view(),
    {
        let e = ((self.ewma_ms as u128) * 7 + (ms as u128)) / 8;
        self.ewma_ms = e as u64;
    }

    /// Periodic resize of the limit: see `adjusted_limit`.
    pub fn adjust(&mut self, queue_empty: bool)
        requires
            old(self).wf(),
        ensures
            final(self).wf(),
            final(self).limit_view() == adjusted_limit(
                old(self).limit_view(),
                old(self).bounds_view().0,
                old(self).bounds_view().1,
                old(self).ewma_view(),
                old(self).threshold_view(),
                queue_empty,
            ),
            final(self).in_flight_view() == old(self).in_flight_view(),
            final(self).bounds_view() == old(self).bounds_view(),
            final(self).ewma_view() == old(self).ewma_view(),
            final(self).threshold_view() == old(self).threshold_view(),
    {
        if self.ewma_ms > self.threshold_ms {
            self.limit = self.limit - (self.limit - self.min_permits) / 2;
        } else if self.ewma_ms <= self.threshold_ms / 2 && queue_empty {
            let span = (self.max_permits - self.min_permits) / 16;
            let step = if span > 1 {
                span
            } else {
                1
            };
            if self.max_permits - self.limit < step {
                self.limit = self.max_permits;
            } else {
                self.limit = self.limit + step;
            }
        }
    }

    /// Permits in use.
    pub fn in_flight(&self) -> (r: usize)
        ensures
            r == self.in_flight_view(),
    {
        self.in_flight
    }

    /// The current limit.
    pub fn limit(&self) -> (r: usize)
        ensures
            r == self.limit_view(),
    {
        self.limit
    }
}

} // verus!
