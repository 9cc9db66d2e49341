//! Elapsed wall-clock time as plain numbers: whole seconds plus the
//! nanoseconds below one second (the program converts from its clock).
use vstd::prelude::*;

verus! {

/// A span of elapsed time. Its view is `(whole seconds, nanoseconds)`,
/// the nanoseconds always below one second.
#[derive(Debug, Clone, Copy, PartialEq, Eq)]
pub struct Elapsed {
    pub(crate) secs: u64,
    pub(crate) nanos: u32,
}

impl View for Elapsed {
    type V = (u64, u32);

    closed spec fn view(&self) -> (u64, u32) {
        (self.secs, self.nanos)
    }
}

/// `2^64`: `as u64` keeps a value modulo this.
pub open spec fn u64_modulus() -> int {
    0x1_0000_0000_0000_0000
}

impl Elapsed {
    #[verifier::type_invariant]
    spec fn nanos_below_second(self) -> bool {
        self.nanos < 1_000_000_000
    }

    /// `secs` seconds and `nanos` nanoseconds; whole seconds in `nanos`
    /// carry over into the seconds.
    pub fn new(secs: u64, nanos: u32) -> (e: Elapsed)
        requires
            secs + nanos / 1_000_000_000 <= u64::MAX,
        ensures
            e@.0 == secs + nanos / 1_000_000_000,
            e@.1 == nanos % 1_000_000_000,
    {
        Elapsed { secs: secs + (nanos / 1_000_000_000) as u64, nanos: nanos % 1_000_000_000 }
    }

    /// `ms` milliseconds.
    pub fn from_millis(ms: u64) -> (e: Elapsed)
        ensures
            e@.0 == ms / 1000,
            e@.1 == (ms % 1000) * 1_000_000,
    {
        Elapsed { secs: ms / 1000, nanos: ((ms % 1000) as u32) * 1_000_000 }
    }

    /// Whole seconds.
    pub fn as_secs(&self) -> (s: u64)
        ensures
            s == self@.0,
    {
        self.secs
    }

    /// The nanoseconds below one second.
    pub fn subsec_nanos(&self) -> (n: u32)
        ensures
            n == self@.1,
            n < 1_000_000_000,
    {
        proof { use_type_invariant(self); }
        self.nanos
    }

    /// Whole milliseconds, truncated to `u64` as `as u64` truncates.
    pub fn millis_u64(&self) -> (ms: u64)
        ensures
            ms == (self@.0 * 1000 + self@.1 / 1_000_000) % u64_modulus(),
    {
        let m: u128 = (self.secs as u128) * 1000 + (self.nanos / 1_000_000) as u128;
        (m % 0x1_0000_0000_0000_0000u128) as u64
    }
}

} // verus!
