//! Admission control: the token bucket that bounds the rate at which probes
//! start, and the window that bounds how many are under way at once.
//!
//! Neither waits. A probe that gets no token is held back by the caller
//! until the bucket was refilled; it is never turned away.

use vstd::prelude::*;

verus! {

/// A token bucket: it holds at most `capacity` tokens and gains `refill`
/// tokens with every interval that ends.
#[derive(Debug, Clone, Copy, PartialEq, Eq, Structural)]
pub struct AdmissionController {
    pub capacity: u64,
    pub refill: u64,
    pub tokens: u64,
}

/// The smaller of two numbers.
pub open spec fn least(a: int, b: int) -> int {
    if a <= b {
        a
    } else {
        b
    }
}

impl AdmissionController {
    /// The bucket never holds more than its capacity.
    pub open spec fn wf(self) -> bool {
        self.tokens <= self.capacity
    }

    /// The bucket after `wanted` probes asked for a token each.
    pub open spec fn drawn(self, wanted: u64) -> AdmissionController {
        AdmissionController {
            tokens: (self.tokens - least(self.tokens as int, wanted as int)) as u64,
            ..self
        }
    }

    /// The bucket after an interval ended.
    pub open spec fn refilled(self) -> AdmissionController {
        AdmissionController {
            tokens: least(self.capacity as int, self.tokens + self.refill) as u64,
            ..self
        }
    }

    /// A bucket of the given capacity and refill that starts with `initial`
    /// tokens, or with as many as it can hold where that is fewer.
    pub fn new(capacity: u64, refill: u64, initial: u64) -> (bucket: AdmissionController)
        ensures
            bucket.wf(),
            bucket.capacity == capacity,
            bucket.refill == refill,
            bucket.tokens == least(initial as int, capacity as int),
    {
        let tokens = if initial <= capacity {
            initial
        } else {
            capacity
        };
        AdmissionController { capacity, refill, tokens }
    }

    /// The number of probes that may start now.
    pub fn available(&self) -> (tokens: u64)
        ensures
            tokens == self.tokens,
    {
        self.tokens
    }

    /// Asks for one token. Where the bucket is empty the probe has to wait
    /// for the next refill and ask again.
    pub fn try_acquire(&mut self) -> (granted: bool)
        ensures
            granted == (old(self).tokens > 0),
            *final(self) == old(self).drawn(1),
            old(self).wf() ==> final(self).wf(),
    {
        if self.tokens > 0 {
            self.tokens = self.tokens - 1;
            true
        } else {
            false
        }
    }

    /// Asks for a token for each of `wanted` probes and says how many may
    /// start; the others wait for the next refill.
    pub fn acquire_many(&mut self, wanted: u64) -> (granted: u64)
        ensures
            granted == least(old(self).tokens as int, wanted as int),
            *final(self) == old(self).drawn(wanted),
            old(self).wf() ==> final(self).wf(),
    {
        let granted = if wanted <= self.tokens {
            wanted
        } else {
            self.tokens
        };
        self.tokens = self.tokens - granted;
        granted
    }

    /// Takes note that an interval ended: the bucket gains its refill, up to
    /// its capacity.
    pub fn refill(&mut self)
        ensures
            *final(self) == old(self).refilled(),
            final(self).wf(),
    {
        if self.tokens < self.capacity && self.refill <= self.capacity - self.tokens {
            self.tokens = self.tokens + self.refill;
        } else {
            self.tokens = self.capacity;
        }
    }
}

/// However many probes wait, no more start at once than the bucket can
/// hold, and after a refill no more than were left over plus the refill.
pub proof fn lemma_batches_are_bounded(bucket: AdmissionController, first: u64, second: u64)
    requires
        bucket.wf(),
    ensures
        least(bucket.tokens as int, first as int) <= bucket.capacity,
        bucket.drawn(first).wf(),
        bucket.drawn(first).refilled().wf(),
        least(bucket.drawn(first).refilled().tokens as int, second as int) <= bucket.capacity,
        least(bucket.drawn(first).refilled().tokens as int, second as int) <= bucket.tokens - least(
            bucket.tokens as int,
            first as int,
        ) + bucket.refill,
        first >= bucket.tokens ==> least(
            bucket.drawn(first).refilled().tokens as int,
            second as int,
        ) <= bucket.refill,
{
}

/// Between two refills no more probes start than the bucket held: when
/// `first` and then `second` probes ask, the two batches together are no
/// larger than the tokens there were.
pub proof fn lemma_starts_between_refills(bucket: AdmissionController, first: u64, second: u64)
    requires
        bucket.wf(),
    ensures
        least(bucket.tokens as int, first as int) + least(
            bucket.drawn(first).tokens as int,
            second as int,
        ) <= bucket.tokens,
        bucket.tokens <= bucket.capacity,
{
}

/// What happens to a bucket: a probe asks for a token, or an interval ends.
#[derive(Debug, Clone, Copy, PartialEq, Eq, Structural)]
pub enum BucketEvent {
    Ask,
    Tick,
}

/// The bucket after `events`, and the number of probes that were granted a
/// token since the last interval ended.
pub open spec fn replayed(bucket: AdmissionController, events: Seq<BucketEvent>) -> (
    AdmissionController,
    nat,
)
    decreases events.len(),
{
    if events.len() == 0 {
        (bucket, 0)
    } else {
        let (before, started) = replayed(bucket, events.drop_last());
        match events.last() {
            BucketEvent::Ask => if before.tokens > 0 {
                (before.drawn(1), started + 1)
            } else {
                (before, started)
            },
            BucketEvent::Tick => (before.refilled(), 0),
        }
    }
}

/// In every history of a bucket, the probes that started within one
/// interval and the tokens still left are together no more than the bucket
/// can hold: no interval sees more starts than the capacity.
pub proof fn lemma_starts_per_interval_are_bounded(
    bucket: AdmissionController,
    events: Seq<BucketEvent>,
)
    requires
        bucket.wf(),
    ensures
        replayed(bucket, events).0.wf(),
        replayed(bucket, events).0.capacity == bucket.capacity,
        replayed(bucket, events).0.refill == bucket.refill,
        replayed(bucket, events).1 + replayed(bucket, events).0.tokens <= bucket.capacity,
        replayed(bucket, events).1 <= bucket.capacity,
    decreases events.len(),
{
    if events.len() > 0 {
        lemma_starts_per_interval_are_bounded(bucket, events.drop_last());
    }
}

/// The window of probes under way: at most `limit` at any time.
#[derive(Debug, Clone, Copy, PartialEq, Eq, Structural)]
pub struct InFlightWindow {
    pub limit: usize,
    pub in_flight: usize,
}

impl InFlightWindow {
    /// No more probes are under way than the window allows.
    pub open spec fn wf(self) -> bool {
        self.in_flight <= self.limit
    }

    /// An empty window of the given size.
    pub fn new(limit: usize) -> (window: InFlightWindow)
        ensures
            window.wf(),
            window.limit == limit,
            window.in_flight == 0,
    {
        InFlightWindow { limit, in_flight: 0 }
    }

    /// Whether a further probe may get under way.
    pub fn has_room(&self) -> (room: bool)
        ensures
            room == (self.in_flight < self.limit),
    {
        self.in_flight < self.limit
    }

    /// Takes a place for a probe, where there is one.
    pub fn try_enter(&mut self) -> (entered: bool)
        ensures
            entered == (old(self).in_flight < old(self).limit),
            final(self).limit == old(self).limit,
            final(self).in_flight == old(self).in_flight + if entered {
                1int
            } else {
                0int
            },
            old(self).wf() ==> final(self).wf(),
    {
        if self.in_flight < self.limit {
            self.in_flight = self.in_flight + 1;
            true
        } else {
            false
        }
    }

    /// Gives back the place of a probe that finished.
    pub fn leave(&mut self)
        ensures
            final(self).limit == old(self).limit,
            final(self).in_flight == if old(self).in_flight > 0 {
                old(self).in_flight - 1
            } else {
                0
            },
            old(self).wf() ==> final(self).wf(),
    {
        if self.in_flight > 0 {
            self.in_flight = self.in_flight - 1;
        }
    }

    /// Whether every probe that got under way has finished.
    pub fn is_drained(&self) -> (drained: bool)
        ensures
            drained == (self.in_flight == 0),
    {
        self.in_flight == 0
    }
}

} // verus!
