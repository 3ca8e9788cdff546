//! Spans of time in whole nanoseconds.
use vstd::prelude::*;

verus! {

/// The longest latency: `u64::MAX` seconds and 999,999,999 nanoseconds, the range of
/// `std::time::Duration`.
pub const MAX_NANOS: u128 = 18_446_744_073_709_551_615_999_999_999;

/// The nanoseconds in a second.
pub const NANOS_PER_SEC: u128 = 1_000_000_000;

/// A span of time. Its view is the number of nanoseconds.
#[derive(Clone, Copy, PartialEq, Eq)]
pub struct Latency {
    nanos: u128,
}

impl View for Latency {
    type V = nat;

    closed spec fn view(&self) -> nat {
        self.nanos as nat
    }
}

impl Latency {
    #[verifier::type_invariant]
    spec fn in_range(self) -> bool {
        self.nanos <= MAX_NANOS
    }

    /// The span of `secs` seconds and `nanos` nanoseconds.
    pub fn new(secs: u64, nanos: u32) -> (r: Self)
        requires
            secs * NANOS_PER_SEC + nanos <= MAX_NANOS,
        ensures
            r@ == secs * NANOS_PER_SEC + nanos,
    {
        Latency { nanos: secs as u128 * NANOS_PER_SEC + nanos as u128 }
    }

    /// The span of `nanos` nanoseconds.
    pub fn from_nanos(nanos: u64) -> (r: Self)
        ensures
            r@ == nanos,
    {
        Latency { nanos: nanos as u128 }
    }

    /// The number of nanoseconds.
    pub fn as_nanos(self) -> (r: u128)
        ensures
            r == self@,
            r <= MAX_NANOS,
    {
        proof {
            use_type_invariant(&self);
        }
        self.nanos
    }

    /// The number of whole microseconds.
    pub fn as_micros(self) -> (r: u128)
        ensures
            r == self@ / 1000,
    {
        self.nanos / 1000
    }

    /// Whether the span is empty.
    pub fn is_zero(self) -> (r: bool)
        ensures
            r == (self@ == 0),
    {
        self.nanos == 0
    }

    /// Both spans together.
    pub fn plus(self, other: Latency) -> (r: Self)
        requires
            self@ + other@ <= MAX_NANOS,
        ensures
            r@ == self@ + other@,
    {
        Latency { nanos: self.nanos + other.nanos }
    }

    /// One of `n` equal parts of the span, rounded down to whole nanoseconds.
    pub fn divided_by(self, n: u32) -> (r: Self)
        requires
            n != 0,
        ensures
            r@ == self@ / (n as nat),
    {
        proof {
            use_type_invariant(&self);
            vstd::arithmetic::div_mod::lemma_div_is_ordered_by_denominator(
                self.nanos as int,
                1,
                n as int,
            );
        }
        Latency { nanos: self.nanos / (n as u128) }
    }
}

/// How a `std::time::Duration` of `secs` seconds and `nanos` nanoseconds is written for
/// debugging.
pub uninterp spec fn duration_text(secs: u64, nanos: u32) -> Seq<char>;

/// The `Debug` implementation of `std::time::Duration` writes a duration as a number with a
/// fitting unit. The text depends on the duration alone; what it is is left open.
#[verifier::external_body]
fn duration_debug(secs: u64, nanos: u32) -> (r: String)
    requires
        nanos < NANOS_PER_SEC,
    ensures
        r@ == duration_text(secs, nanos),
{
    format!("{:?}", std::time::Duration::new(secs, nanos))
}

/// How a latency of `nanos` nanoseconds is written for debugging.
pub open spec fn latency_text(nanos: nat) -> Seq<char> {
    duration_text(
        (nanos / (NANOS_PER_SEC as nat)) as u64,
        (nanos % (NANOS_PER_SEC as nat)) as u32,
    )
}

impl Latency {
    /// The latency as it is written for debugging.
    pub fn debug_text(self) -> (r: String)
        ensures
            r@ == latency_text(self@),
    {
        proof {
            use_type_invariant(&self);
        }
        duration_debug((self.nanos / NANOS_PER_SEC) as u64, (self.nanos % NANOS_PER_SEC) as u32)
    }
}

impl Default for Latency {
    fn default() -> (r: Self)
        ensures
            r@ == 0,
    {
        Latency { nanos: 0 }
    }
}

/// A latency is written as the duration of as many whole seconds and nanoseconds.
pub proof fn law_latency_written_as_duration(secs: u64, nanos: u32)
    requires
        nanos < 1_000_000_000,
    ensures
        latency_text((secs * 1_000_000_000 + nanos) as nat) == duration_text(secs, nanos),
{
}

} // verus!
