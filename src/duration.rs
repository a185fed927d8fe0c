//! A non-negative span of time with nanosecond precision.
use vstd::prelude::*;

verus! {

/// Nanoseconds in one second.
pub const NANOS_PER_SEC: u32 = 1_000_000_000;

/// A span of time: whole seconds and a sub-second part in nanoseconds.
///
/// Its view is the total number of nanoseconds it spans.
#[derive(Clone, Copy, Debug, PartialEq, Eq)]
pub struct Duration {
    secs: u64,
    nanos: u32,
}

impl View for Duration {
    type V = nat;

    closed spec fn view(&self) -> nat {
        self.secs as nat * NANOS_PER_SEC as nat + self.nanos as nat
    }
}

impl Duration {
    #[verifier::type_invariant]
    spec fn inv(self) -> bool {
        self.nanos < NANOS_PER_SEC
    }

    /// A duration of `secs` seconds and `nanos` nanoseconds. Nanoseconds beyond
    /// one second are carried into the seconds, which must not overflow.
    pub fn new(secs: u64, nanos: u32) -> (r: Duration)
        requires
            secs as nat + nanos as nat / NANOS_PER_SEC as nat <= u64::MAX,
        ensures
            r@ == secs as nat * NANOS_PER_SEC as nat + nanos as nat,
    {
        let extra = (nanos / NANOS_PER_SEC) as u64;
        let r = Duration { secs: secs + extra, nanos: nanos % NANOS_PER_SEC };
        assert(r@ == secs as nat * NANOS_PER_SEC as nat + nanos as nat) by (nonlinear_arith)
            requires
                r@ == r.secs as nat * NANOS_PER_SEC as nat + r.nanos as nat,
                r.secs == secs + nanos / NANOS_PER_SEC,
                r.nanos == nanos % NANOS_PER_SEC,
                NANOS_PER_SEC == 1_000_000_000,
        ;
        r
    }

    /// The number of whole seconds.
    pub fn as_secs(&self) -> (r: u64)
        ensures
            r == self@ / NANOS_PER_SEC as nat,
    {
        proof {
            use_type_invariant(self);
            lemma_split(self.secs as nat, self.nanos as nat);
        }
        self.secs
    }

    /// The sub-second part, in nanoseconds.
    pub fn subsec_nanos(&self) -> (r: u32)
        ensures
            r == self@ % NANOS_PER_SEC as nat,
    {
        proof {
            use_type_invariant(self);
            lemma_split(self.secs as nat, self.nanos as nat);
        }
        self.nanos
    }
}

/// The whole seconds in a span of `d` nanoseconds.
pub open spec fn whole_secs(d: nat) -> nat {
    d / NANOS_PER_SEC as nat
}

/// The whole hours in a span of `d` nanoseconds.
pub open spec fn hours(d: nat) -> nat {
    whole_secs(d) / 3600
}

/// The minutes past the last whole hour.
pub open spec fn minutes_of_hour(d: nat) -> nat {
    whole_secs(d) / 60 % 60
}

/// The seconds past the last whole minute.
pub open spec fn seconds_of_minute(d: nat) -> nat {
    whole_secs(d) % 60
}

/// The nanoseconds past the last whole second.
pub open spec fn nanos_of_second(d: nat) -> nat {
    d % NANOS_PER_SEC as nat
}

/// The whole microseconds past the last whole second.
pub open spec fn micros_of_second(d: nat) -> nat {
    nanos_of_second(d) / 1000
}

/// The whole milliseconds past the last whole second.
pub open spec fn millis_of_second(d: nat) -> nat {
    nanos_of_second(d) / 1_000_000
}

proof fn lemma_split(s: nat, n: nat)
    requires
        n < NANOS_PER_SEC,
    ensures
        (s * NANOS_PER_SEC as nat + n) / NANOS_PER_SEC as nat == s,
        (s * NANOS_PER_SEC as nat + n) % NANOS_PER_SEC as nat == n,
{
    vstd::arithmetic::div_mod::lemma_fundamental_div_mod_converse(
        (s * NANOS_PER_SEC as nat + n) as int,
        NANOS_PER_SEC as int,
        s as int,
        n as int,
    );
}

} // verus!
