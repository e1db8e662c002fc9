//! Spans of time and points on a monotonic clock.

use vstd::prelude::*;

verus! {

/// Nanoseconds in one second.
pub const NANOS_PER_SEC: u32 = 1_000_000_000;

/// Nanoseconds in one millisecond.
pub const NANOS_PER_MILLI: u32 = 1_000_000;

/// The nanoseconds of the longest span.
pub open spec fn longest() -> nat {
    (u64::MAX * NANOS_PER_SEC + (NANOS_PER_SEC - 1)) as nat
}

/// A span of time, in whole seconds and the nanoseconds beyond them.
///
/// Its view is the span in nanoseconds, at most [`longest`].
#[derive(Debug, Clone, Copy, PartialEq, Eq, PartialOrd, Ord, Hash, Structural)]
pub struct Duration {
    secs: u64,
    nanos: u32,
}

impl Duration {
    /// The nanoseconds do not fill a second.
    #[verifier::type_invariant]
    spec fn normal(self) -> bool {
        self.nanos < NANOS_PER_SEC
    }
}

impl View for Duration {
    type V = nat;

    closed spec fn view(&self) -> nat {
        (self.secs * NANOS_PER_SEC + self.nanos) as nat
    }
}

impl Duration {
    /// The empty span.
    pub fn zero() -> (duration: Duration)
        ensures
            duration@ == 0,
    {
        Duration { secs: 0, nanos: 0 }
    }

    /// `secs` seconds and `nanos` nanoseconds.
    pub fn new(secs: u64, nanos: u32) -> (duration: Duration)
        requires
            secs * NANOS_PER_SEC + nanos <= longest(),
        ensures
            duration@ == secs * NANOS_PER_SEC + nanos,
    {
        let carry: u64 = (nanos / NANOS_PER_SEC) as u64;
        Duration { secs: secs + carry, nanos: nanos % NANOS_PER_SEC }
    }

    /// `secs` whole seconds.
    pub fn from_secs(secs: u64) -> (duration: Duration)
        ensures
            duration@ == secs * NANOS_PER_SEC,
    {
        Duration { secs, nanos: 0 }
    }

    /// `millis` milliseconds.
    pub fn from_millis(millis: u64) -> (duration: Duration)
        ensures
            duration@ == millis * NANOS_PER_MILLI,
    {
        let rest: u32 = (millis % 1000) as u32;
        Duration { secs: millis / 1000, nanos: rest * NANOS_PER_MILLI }
    }

    /// The whole seconds of the span.
    pub fn as_secs(self) -> (secs: u64)
        ensures
            secs == self@ / (NANOS_PER_SEC as nat),
    {
        proof {
            use_type_invariant(&self);
        }
        self.secs
    }

    /// The nanoseconds beyond the whole seconds.
    pub fn subsec_nanos(self) -> (nanos: u32)
        ensures
            nanos == self@ % (NANOS_PER_SEC as nat),
    {
        proof {
            use_type_invariant(&self);
        }
        self.nanos
    }

    /// Semantic predicate: the span is empty.
    pub fn is_zero(self) -> (zero: bool)
        ensures
            zero <==> self@ == 0,
    {
        self.secs == 0 && self.nanos == 0
    }

    /// Semantic predicate: the span is no longer than `other`.
    pub fn at_most(self, other: Duration) -> (fits: bool)
        ensures
            fits <==> self@ <= other@,
    {
        proof {
            use_type_invariant(&self);
            use_type_invariant(&other);
        }
        self.secs < other.secs || (self.secs == other.secs && self.nanos <= other.nanos)
    }

    /// The shorter of two spans.
    pub fn min(self, other: Duration) -> (shorter: Duration)
        ensures
            shorter == if self@ <= other@ {
                self
            } else {
                other
            },
    {
        if self.at_most(other) {
            self
        } else {
            other
        }
    }

    /// The sum of two spans, if there is a span that long.
    pub fn checked_add(self, other: Duration) -> (sum: Option<Duration>)
        ensures
            sum is Some <==> self@ + other@ <= longest(),
            sum is Some ==> sum->0@ == self@ + other@,
    {
        proof {
            use_type_invariant(&self);
            use_type_invariant(&other);
        }
        let nanos: u32 = self.nanos + other.nanos;
        let carry: u64 = if nanos >= NANOS_PER_SEC {
            1
        } else {
            0
        };
        match self.secs.checked_add(other.secs) {
            None => None,
            Some(secs) => match secs.checked_add(carry) {
                None => None,
                Some(secs) => Some(
                    Duration {
                        secs,
                        nanos: if nanos >= NANOS_PER_SEC {
                            nanos - NANOS_PER_SEC
                        } else {
                            nanos
                        },
                    },
                ),
            },
        }
    }

    /// The span `factor` times over, or the longest span where that is too long.
    pub fn saturating_mul(self, factor: u32) -> (product: Duration)
        ensures
            product@ == if self@ * factor <= longest() {
                (self@ * factor) as nat
            } else {
                longest()
            },
    {
        proof {
            use_type_invariant(&self);
            assert(self.nanos * factor <= 999_999_999 * 0xffff_ffff) by (nonlinear_arith)
                requires
                    self.nanos <= 999_999_999,
                    factor <= 0xffff_ffff,
            ;
            let (span, secs, nanos) = (self@, self.secs, self.nanos);
            assert(span * factor == (secs * factor) * 1_000_000_000 + nanos * factor)
                by (nonlinear_arith)
                requires
                    span == secs * 1_000_000_000 + nanos,
            ;
        }
        let nanos: u64 = self.nanos as u64 * factor as u64;
        let carry: u64 = nanos / NANOS_PER_SEC as u64;
        let rest: u32 = (nanos % NANOS_PER_SEC as u64) as u32;
        let longest = Duration { secs: u64::MAX, nanos: NANOS_PER_SEC - 1 };
        proof {
            vstd::arithmetic::div_mod::lemma_fundamental_div_mod(
                nanos as int,
                NANOS_PER_SEC as int,
            );
            assert(nanos == carry * NANOS_PER_SEC + rest);
            assert(self@ * factor == (self.secs * factor + carry) * NANOS_PER_SEC + rest);
        }
        match self.secs.checked_mul(factor as u64) {
            None => longest,
            Some(secs) => match secs.checked_add(carry) {
                None => longest,
                Some(secs) => Duration { secs, nanos: rest },
            },
        }
    }
}

/// A point on a monotonic clock: the span since an origin that the clock fixes.
#[derive(Debug, Clone, Copy, PartialEq, Eq, PartialOrd, Ord, Hash, Structural)]
pub struct Instant {
    since_origin: Duration,
}

impl View for Instant {
    type V = nat;

    closed spec fn view(&self) -> nat {
        self.since_origin@
    }
}

impl Instant {
    /// The point `since_origin` after the clock's origin.
    pub fn new(since_origin: Duration) -> (instant: Instant)
        ensures
            instant@ == since_origin@,
    {
        Instant { since_origin }
    }

    /// The point `span` later.
    pub fn after(self, span: Duration) -> (later: Option<Instant>)
        ensures
            later is Some <==> self@ + span@ <= longest(),
            later is Some ==> later->0@ == self@ + span@,
    {
        match self.since_origin.checked_add(span) {
            None => None,
            Some(since_origin) => Some(Instant { since_origin }),
        }
    }

    /// Semantic predicate: this point comes strictly before `other`.
    pub fn is_before(self, other: Instant) -> (earlier: bool)
        ensures
            earlier <==> self@ < other@,
    {
        !other.since_origin.at_most(self.since_origin)
    }
}

/// Law: the longest span is that of the most seconds and one nanosecond less
/// than a further one.
pub proof fn law_the_longest_span()
    ensures
        longest() == 18_446_744_073_709_551_615 * 1_000_000_000 + 999_999_999,
{
}

} // verus!
