//! Time spans and the timeouts of a connection.

use vstd::prelude::*;

verus! {

/// Nanoseconds in a second.
pub const NANOS_PER_SEC: u32 = 1_000_000_000;

/// Nanoseconds in a millisecond.
pub const NANOS_PER_MILLI: u32 = 1_000_000;

/// A span of time: whole seconds, and nanoseconds below one second.
#[derive(Debug, Clone, Copy, PartialEq, Eq, Structural)]
pub struct Duration {
    secs: u64,
    nanos: u32,
}

impl View for Duration {
    type V = nat;

    /// The span in nanoseconds.
    closed spec fn view(&self) -> nat {
        (self.secs * NANOS_PER_SEC + self.nanos) as nat
    }
}

impl Duration {
    #[verifier::type_invariant]
    spec fn inv(self) -> bool {
        self.nanos < NANOS_PER_SEC
    }

    /// The span of `nanos` nanoseconds.
    pub closed spec fn of(nanos: nat) -> Duration {
        Duration {
            secs: (nanos / (NANOS_PER_SEC as nat)) as u64,
            nanos: (nanos % (NANOS_PER_SEC as nat)) as u32,
        }
    }

    /// A span of nanoseconds is of that many nanoseconds.
    pub proof fn lemma_of(nanos: nat)
        requires
            nanos / (NANOS_PER_SEC as nat) <= u64::MAX,
        ensures
            Duration::of(nanos)@ == nanos,
    {
    }

    /// A span of `secs` seconds and `nanos` nanoseconds.
    pub fn new(secs: u64, nanos: u32) -> (d: Self)
        requires
            nanos < NANOS_PER_SEC,
        ensures
            d == Duration::of((secs * NANOS_PER_SEC + nanos) as nat),
            d@ == secs * NANOS_PER_SEC + nanos,
    {
        Duration { secs, nanos }
    }

    /// A span of whole seconds.
    pub fn from_secs(secs: u64) -> (d: Self)
        ensures
            d == Duration::of((secs * NANOS_PER_SEC) as nat),
            d@ == secs * NANOS_PER_SEC,
    {
        Duration { secs, nanos: 0 }
    }

    /// A span of whole milliseconds.
    pub fn from_millis(millis: u64) -> (d: Self)
        ensures
            d == Duration::of((millis * NANOS_PER_MILLI) as nat),
            d@ == millis * NANOS_PER_MILLI,
    {
        Duration { secs: millis / 1000, nanos: (millis % 1000) as u32 * NANOS_PER_MILLI }
    }

    /// The whole seconds of the span.
    pub fn as_secs(&self) -> (secs: u64)
        ensures
            secs == self@ / (NANOS_PER_SEC as nat),
    {
        proof {
            use_type_invariant(&*self);
        }
        self.secs
    }

    /// The nanoseconds of the span beyond its whole seconds.
    pub fn subsec_nanos(&self) -> (nanos: u32)
        ensures
            nanos == self@ % (NANOS_PER_SEC as nat),
    {
        proof {
            use_type_invariant(&*self);
        }
        self.nanos
    }

    /// The whole milliseconds of the span.
    pub fn as_millis(&self) -> (millis: u128)
        ensures
            millis == self@ / (NANOS_PER_MILLI as nat),
    {
        proof {
            use_type_invariant(&*self);
        }
        self.secs as u128 * 1000 + (self.nanos / NANOS_PER_MILLI) as u128
    }
}

/// USB timeouts for PICOBOOT operations
#[derive(Debug, Clone, Copy, PartialEq, Eq, Structural)]
pub struct Timeouts {
    /// Endpoint timeout duration
    pub endpoint: Duration,
    /// Command status timeout duration
    pub command_status: Duration,
    /// Reset timeout duration
    pub reset: Duration,
}

impl Timeouts {
    /// The timeouts of a device that was given none.
    pub open spec fn of_default() -> Timeouts {
        Timeouts {
            endpoint: Duration::of((5 * NANOS_PER_SEC) as nat),
            command_status: Duration::of(NANOS_PER_SEC as nat),
            reset: Duration::of(NANOS_PER_SEC as nat),
        }
    }
}

/// Law: without timeouts of its own a device has five seconds for a transfer of an
/// endpoint, and one second each for its status and its reset.
pub proof fn law_default_timeouts()
    ensures
        Timeouts::of_default().endpoint@ == 5_000_000_000,
        Timeouts::of_default().command_status@ == 1_000_000_000,
        Timeouts::of_default().reset@ == 1_000_000_000,
{
}

impl Default for Timeouts {
    fn default() -> (t: Self)
        ensures
            t == Timeouts::of_default(),
    {
        Timeouts {
            endpoint: Duration::from_secs(5),
            command_status: Duration::from_secs(1),
            reset: Duration::from_secs(1),
        }
    }
}

} // verus!
