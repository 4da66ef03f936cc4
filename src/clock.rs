use vstd::prelude::*;

verus! {

/// Nanoseconds in one second.
pub const NANOS_PER_SEC: u64 = 1_000_000_000;

/// `n` where it fits in 64 bits, else the `u64::MAX` sentinel.
pub open spec fn saturate(n: int) -> u64 {
    if n <= u64::MAX {
        n as u64
    } else {
        u64::MAX
    }
}

/// The timestamp of a monotonic clock reading: `u64::MAX` where the reading
/// failed (`status` is not zero), else the reading in nanoseconds, or
/// `u64::MAX` where that does not fit.
pub open spec fn reading_nanos(status: i32, secs: u64, nanos: u32) -> u64 {
    if status != 0 {
        u64::MAX
    } else {
        saturate(secs * NANOS_PER_SEC + nanos)
    }
}

/// Turns a monotonic clock reading (seconds and nanoseconds, and the status
/// the clock returned) into a timestamp. A failed reading never aborts: it
/// gives the `u64::MAX` sentinel.
pub fn timestamp_from_reading(status: i32, secs: u64, nanos: u32) -> (r: u64)
    ensures
        r == reading_nanos(status, secs, nanos),
{
    if status != 0 {
        return u64::MAX;
    }
    let s: u128 = secs as u128;
    proof {
        assert(s * 1_000_000_000 <= u64::MAX as u128 * 1_000_000_000) by (nonlinear_arith)
            requires
                s <= u64::MAX,
        ;
    }
    let total: u128 = s * (NANOS_PER_SEC as u128) + (nanos as u128);
    if total <= u64::MAX as u128 {
        total as u64
    } else {
        u64::MAX
    }
}

/// The factor that turns the kernel's raw ticks into nanoseconds:
/// `numer / denom`.
#[derive(Clone, Copy, Debug, PartialEq, Eq)]
pub struct Timebase {
    pub numer: u32,
    pub denom: u32,
}

impl Timebase {
    /// A usable factor has a nonzero denominator.
    pub open spec fn wf(&self) -> bool {
        self.denom != 0
    }

    /// The factor from the kernel's answer: the one it gave, unless the query
    /// failed (`status` is not zero) or gave a zero denominator, in which case
    /// ticks are taken as nanoseconds.
    pub fn from_kernel(status: i32, numer: u32, denom: u32) -> (r: Timebase)
        ensures
            r.wf(),
            status == 0 && denom != 0 ==> r == (Timebase { numer, denom }),
            !(status == 0 && denom != 0) ==> r == (Timebase { numer: 1, denom: 1 }),
    {
        if status != 0 || denom == 0 {
            Timebase { numer: 1, denom: 1 }
        } else {
            Timebase { numer, denom }
        }
    }

    /// `ticks * numer / denom` nanoseconds, or `u64::MAX` where that does not
    /// fit.
    pub fn ticks_to_nanos(&self, ticks: u64) -> (r: u64)
        requires
            self.wf(),
        ensures
            r == saturate((ticks * self.numer) / (self.denom as int)),
    {
        let t: u128 = ticks as u128;
        let n: u128 = self.numer as u128;
        proof {
            assert(t * n <= u64::MAX as u128 * u32::MAX as u128) by (nonlinear_arith)
                requires
                    t <= u64::MAX,
                    n <= u32::MAX,
            ;
        }
        let q: u128 = (t * n) / (self.denom as u128);
        if q <= u64::MAX as u128 {
            q as u64
        } else {
            u64::MAX
        }
    }
}

} // verus!
