//! Lengths of time with nanosecond resolution.

use vstd::prelude::*;

verus! {

/// Nanoseconds in one second.
pub const NANOS_PER_SEC: u32 = 1_000_000_000;

/// The longest span that can be represented, in nanoseconds.
pub open spec fn max_nanos() -> nat {
    (u64::MAX * 1_000_000_000 + 999_999_999) as nat
}

/// The sum of two lengths, capped at the longest representable span.
pub open spec fn capped_sum(a: nat, b: nat) -> nat {
    if a + b <= max_nanos() {
        a + b
    } else {
        max_nanos()
    }
}

/// The difference of two lengths, or zero where the second is the longer.
pub open spec fn floored_diff(a: nat, b: nat) -> nat {
    if a >= b {
        (a - b) as nat
    } else {
        0
    }
}

/// A length of time: whole seconds and the nanoseconds of the second begun.
///
/// Its view is the total number of nanoseconds, which is never beyond
/// `max_nanos()`.
#[derive(Clone, Copy, Debug, PartialEq, Eq, Structural)]
pub struct Span {
    secs: u64,
    nanos: u32,
}

impl View for Span {
    type V = nat;

    closed spec fn view(&self) -> nat {
        let total = (self.secs * 1_000_000_000 + self.nanos) as nat;
        if total <= max_nanos() {
            total
        } else {
            max_nanos()
        }
    }
}

impl Span {
    /// The nanoseconds never reach a full second.
    #[verifier::type_invariant]
    closed spec fn canonical(self) -> bool {
        self.nanos < NANOS_PER_SEC
    }

    /// No span is longer than the longest.
    pub proof fn lemma_bounded(self)
        ensures
            self@ <= max_nanos(),
    {
    }

    /// The span of no time at all.
    pub fn zero() -> (r: Span)
        ensures
            r@ == 0,
    {
        Span { secs: 0, nanos: 0 }
    }

    /// The longest representable span.
    pub fn longest() -> (r: Span)
        ensures
            r@ == max_nanos(),
    {
        Span { secs: u64::MAX, nanos: 999_999_999 }
    }

    /// A span of whole seconds.
    pub fn from_secs(secs: u64) -> (r: Span)
        ensures
            r@ == secs * 1_000_000_000,
    {
        Span { secs, nanos: 0 }
    }

    /// A span of whole minutes.
    pub fn from_mins(mins: u8) -> (r: Span)
        ensures
            r@ == mins * 60 * 1_000_000_000,
    {
        let mins: u64 = mins as u64;
        Span { secs: mins * 60, nanos: 0 }
    }

    /// A span of whole milliseconds.
    pub fn from_millis(millis: u64) -> (r: Span)
        ensures
            r@ == millis * 1_000_000,
    {
        let rest: u32 = (millis % 1000) as u32;
        Span { secs: millis / 1000, nanos: rest * 1_000_000 }
    }

    /// A span of `secs` seconds and `nanos` nanoseconds. Nanoseconds beyond
    /// a full second carry over into the seconds; a total beyond the longest
    /// span gives the longest span.
    pub fn new(secs: u64, nanos: u32) -> (r: Span)
        ensures
            r@ == capped_sum(secs as nat * 1_000_000_000, nanos as nat),
    {
        let carry: u64 = (nanos / NANOS_PER_SEC) as u64;
        let rest: u32 = nanos % NANOS_PER_SEC;
        match secs.checked_add(carry) {
            Some(total) => Span { secs: total, nanos: rest },
            None => Span::longest(),
        }
    }

    /// The whole seconds of the span.
    pub fn as_secs(&self) -> (r: u64)
        ensures
            r == self@ / 1_000_000_000,
    {
        proof {
            use_type_invariant(self);
        }
        self.secs
    }

    /// The nanoseconds beyond the whole seconds.
    pub fn subsec_nanos(&self) -> (r: u32)
        ensures
            r == self@ % 1_000_000_000,
            r < NANOS_PER_SEC,
    {
        proof {
            use_type_invariant(self);
        }
        self.nanos
    }

    /// The whole seconds of the span as hours, minutes of the hour begun
    /// and seconds of the minute begun.
    pub fn hms(&self) -> (r: (u64, u64, u64))
        ensures
            r.0 == (self@ / 1_000_000_000) / 3600,
            r.1 == ((self@ / 1_000_000_000) % 3600) / 60,
            r.2 == (self@ / 1_000_000_000) % 60,
            r.0 * 3600 + r.1 * 60 + r.2 == self@ / 1_000_000_000,
            r.1 < 60,
            r.2 < 60,
    {
        let secs = self.as_secs();
        (secs / 3600, (secs % 3600) / 60, secs % 60)
    }

    /// Whether the span is of no time at all.
    pub fn is_zero(&self) -> (r: bool)
        ensures
            r == (self@ == 0),
    {
        self.secs == 0 && self.nanos == 0
    }

    /// Whether `self` is at most as long as `other`.
    pub fn le(&self, other: &Span) -> (r: bool)
        ensures
            r == (self@ <= other@),
    {
        proof {
            use_type_invariant(self);
            use_type_invariant(other);
        }
        self.secs < other.secs || (self.secs == other.secs && self.nanos <= other.nanos)
    }

    /// Whether `self` is shorter than `other`.
    pub fn lt(&self, other: &Span) -> (r: bool)
        ensures
            r == (self@ < other@),
    {
        proof {
            use_type_invariant(self);
            use_type_invariant(other);
        }
        self.secs < other.secs || (self.secs == other.secs && self.nanos < other.nanos)
    }

    /// The sum of two spans, or the longest span where the sum is beyond it.
    pub fn saturating_add(self, other: Span) -> (r: Span)
        ensures
            r@ == capped_sum(self@, other@),
    {
        proof {
            use_type_invariant(self);
            use_type_invariant(other);
        }
        let mut nanos: u32 = self.nanos + other.nanos;
        let mut carry: u64 = 0;
        if nanos >= NANOS_PER_SEC {
            nanos = nanos - NANOS_PER_SEC;
            carry = 1;
        }
        match self.secs.checked_add(other.secs) {
            Some(sum) => match sum.checked_add(carry) {
                Some(secs) => Span { secs, nanos },
                None => Span::longest(),
            },
            None => Span::longest(),
        }
    }

    /// `self` less `other`, where `other` is not the longer of the two.
    pub fn checked_sub(self, other: Span) -> (r: Option<Span>)
        ensures
            self@ >= other@ ==> r is Some && r->0@ == self@ - other@,
            self@ < other@ ==> r is None,
    {
        proof {
            use_type_invariant(self);
            use_type_invariant(other);
        }
        if self.lt(&other) {
            None
        } else if self.nanos >= other.nanos {
            Some(Span { secs: self.secs - other.secs, nanos: self.nanos - other.nanos })
        } else {
            Some(
                Span {
                    secs: self.secs - other.secs - 1,
                    nanos: self.nanos + NANOS_PER_SEC - other.nanos,
                },
            )
        }
    }

    /// `self` less `other`, or no time at all where `other` is the longer.
    pub fn saturating_sub(self, other: Span) -> (r: Span)
        ensures
            r@ == floored_diff(self@, other@),
    {
        match self.checked_sub(other) {
            Some(rest) => rest,
            None => Span::zero(),
        }
    }

    /// The shorter of two spans.
    pub fn min(self, other: Span) -> (r: Span)
        ensures
            r@ == if self@ <= other@ { self@ } else { other@ },
            r == self || r == other,
    {
        if self.le(&other) {
            self
        } else {
            other
        }
    }
}

} // verus!
