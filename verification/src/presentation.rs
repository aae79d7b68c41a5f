//! When a frame reached the screen, as clients are told.
use vstd::prelude::*;

verus! {

/// How long the panel shows one frame.
#[derive(Clone, Copy, Debug, PartialEq, Eq, Structural)]
pub enum Refresh {
    /// The mode has no rate.
    Unknown,
    /// A fixed interval, in nanoseconds.
    Fixed(u64),
}

/// The interval of a mode whose rate is given in millihertz. A mode without a
/// rate, or with one below zero, has none.
pub open spec fn interval(refresh_mhz: i32) -> Refresh {
    if refresh_mhz <= 0 {
        Refresh::Unknown
    } else {
        Refresh::Fixed((1_000_000_000_000int / refresh_mhz as int) as u64)
    }
}

/// The interval of a mode whose rate is given in millihertz.
pub fn refresh_from_mhz(refresh_mhz: i32) -> (r: Refresh)
    ensures
        r == interval(refresh_mhz),
{
    if refresh_mhz <= 0 {
        return Refresh::Unknown;
    }
    Refresh::Fixed(1_000_000_000_000u64 / refresh_mhz as u64)
}

/// The interval is the longest whole number of nanoseconds that fits as often
/// into a second as the rate says; a mode without a rate has none.
pub proof fn law_interval_fits_the_rate(refresh_mhz: i32, r: Refresh)
    requires
        call_ensures(refresh_from_mhz, (refresh_mhz,), r),
    ensures
        r == Refresh::Unknown <==> refresh_mhz <= 0,
        match r {
            Refresh::Fixed(ns) => ns * refresh_mhz <= 1_000_000_000_000 < (ns + 1) * refresh_mhz,
            Refresh::Unknown => true,
        },
{
    if refresh_mhz > 0 {
        let m = refresh_mhz as int;
        let q = 1_000_000_000_000int / m;
        assert(q * m <= 1_000_000_000_000 < (q + 1) * m && 0 <= q <= 1_000_000_000_000) by (nonlinear_arith)
            requires
                m > 0,
                q == 1_000_000_000_000int / m,
        ;
    }
}

} // verus!
