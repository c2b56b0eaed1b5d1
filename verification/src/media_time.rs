//! Caller-supplied media time: whole nanoseconds since an arbitrary origin,
//! saturating at the largest span a `std::time::Duration` can hold.

use vstd::prelude::*;

verus! {

/// `u64::MAX` seconds plus 999,999,999 nanoseconds.
pub const MAX_MEDIA_NANOS: u128 = 18_446_744_073_709_551_615_999_999_999;

pub open spec fn media_sat_add(a: nat, b: nat) -> nat {
    if a + b > MAX_MEDIA_NANOS {
        MAX_MEDIA_NANOS as nat
    } else {
        a + b
    }
}

pub open spec fn media_sat_sub(a: nat, b: nat) -> nat {
    if a < b {
        0
    } else {
        (a - b) as nat
    }
}

/// Nanoseconds spanned by `ticks` RTP ticks at `clock_rate` Hz (a zero rate
/// counts as 1 Hz), rounded down.
pub open spec fn tick_nanos(ticks: nat, clock_rate: u32) -> nat {
    ticks * 1_000_000_000 / (if clock_rate == 0 {
        1
    } else {
        clock_rate as nat
    })
}

/// A span of media time in whole nanoseconds.
#[derive(Clone, Copy, Debug, PartialEq, Eq, Hash, Structural)]
pub struct MediaTime {
    pub nanos: u128,
}

impl View for MediaTime {
    type V = nat;

    open spec fn view(&self) -> nat {
        self.nanos as nat
    }
}

impl MediaTime {
    pub open spec fn spec_from_nanos(nanos: nat) -> MediaTime {
        MediaTime { nanos: nanos as u128 }
    }

    pub fn zero() -> (time: MediaTime)
        ensures
            time@ == 0,
    {
        MediaTime { nanos: 0 }
    }

    pub fn from_nanos(nanos: u128) -> (time: MediaTime)
        ensures
            time@ == nanos,
    {
        MediaTime { nanos }
    }

    pub fn from_millis(millis: u64) -> (time: MediaTime)
        ensures
            time@ == millis * 1_000_000,
    {
        MediaTime { nanos: millis as u128 * 1_000_000 }
    }

    pub fn from_secs(secs: u64) -> (time: MediaTime)
        ensures
            time@ == secs * 1_000_000_000,
    {
        MediaTime { nanos: secs as u128 * 1_000_000_000 }
    }

    /// Whole seconds plus nanoseconds; nanoseconds beyond a second carry into
    /// the seconds, as long as the seconds still fit in 64 bits.
    pub fn from_parts(secs: u64, nanos: u64) -> (time: MediaTime)
        requires
            secs + nanos / 1_000_000_000 <= u64::MAX,
        ensures
            time@ == secs * 1_000_000_000 + nanos,
            time@ <= MAX_MEDIA_NANOS,
    {
        proof {
            let q = nanos / 1_000_000_000;
            let r = nanos % 1_000_000_000;
            vstd::arithmetic::div_mod::lemma_fundamental_div_mod(nanos as int, 1_000_000_000);
            assert(secs * 1_000_000_000 + nanos == (secs + q) * 1_000_000_000 + r) by (nonlinear_arith)
                requires
                    nanos == 1_000_000_000 * q + r,
            ;
            assert((secs + q) * 1_000_000_000 <= 18_446_744_073_709_551_615 * 1_000_000_000)
                by (nonlinear_arith)
                requires
                    secs + q <= 18_446_744_073_709_551_615,
            ;
        }
        MediaTime { nanos: secs as u128 * 1_000_000_000 + nanos as u128 }
    }

    pub fn as_nanos(&self) -> (nanos: u128)
        ensures
            nanos == self@,
    {
        self.nanos
    }

    pub fn is_zero(&self) -> (zero: bool)
        ensures
            zero == (self@ == 0),
    {
        self.nanos == 0
    }

    pub fn saturating_add(self, other: MediaTime) -> (sum: MediaTime)
        ensures
            sum@ == media_sat_add(self@, other@),
    {
        match self.nanos.checked_add(other.nanos) {
            Some(total) => if total > MAX_MEDIA_NANOS {
                MediaTime { nanos: MAX_MEDIA_NANOS }
            } else {
                MediaTime { nanos: total }
            },
            None => MediaTime { nanos: MAX_MEDIA_NANOS },
        }
    }

    pub fn saturating_sub(self, other: MediaTime) -> (difference: MediaTime)
        ensures
            difference@ == media_sat_sub(self@, other@),
    {
        if self.nanos < other.nanos {
            MediaTime { nanos: 0 }
        } else {
            MediaTime { nanos: self.nanos - other.nanos }
        }
    }
}

/// Splitting ticks into whole seconds and a remainder converts exactly:
/// `floor(t * 1e9 / r) == (t / r) * 1e9 + floor((t % r) * 1e9 / r)`, and the
/// intermediate products fit the machine types used.
pub proof fn lemma_tick_nanos_split(ticks: nat, rate: nat)
    requires
        1 <= rate <= u32::MAX,
        ticks <= u64::MAX,
    ensures
        (ticks % rate) * 1_000_000_000 < u64::MAX,
        (ticks % rate) * 1_000_000_000 / rate < 1_000_000_000,
        (ticks / rate) <= u64::MAX,
        (ticks / rate) * 1_000_000_000 + (ticks % rate) * 1_000_000_000 / rate == ticks
            * 1_000_000_000 / rate,
{
    let q = ticks / rate;
    let r = ticks % rate;
    let x = r * 1_000_000_000;
    vstd::arithmetic::div_mod::lemma_fundamental_div_mod(ticks as int, rate as int);
    vstd::arithmetic::div_mod::lemma_fundamental_div_mod(x as int, rate as int);
    assert(r < rate);
    assert(x < rate * 1_000_000_000) by (nonlinear_arith)
        requires
            r < rate,
            x == r * 1_000_000_000,
    ;
    assert(x < u64::MAX) by (nonlinear_arith)
        requires
            x < rate * 1_000_000_000,
            rate <= u32::MAX,
    ;
    assert(x / rate < 1_000_000_000) by (nonlinear_arith)
        requires
            x < rate * 1_000_000_000,
            rate >= 1,
            x == rate * (x / rate) + x % rate,
            x % rate >= 0,
    ;
    assert(q <= ticks) by (nonlinear_arith)
        requires
            ticks == rate * q + r,
            rate >= 1,
            r >= 0,
            q >= 0,
    ;
    assert(ticks * 1_000_000_000 == rate * (q * 1_000_000_000 + x / rate) + x % rate)
        by (nonlinear_arith)
        requires
            ticks == rate * q + r,
            x == r * 1_000_000_000,
            x == rate * (x / rate) + x % rate,
    ;
    vstd::arithmetic::div_mod::lemma_div_multiples_vanish_fancy(
        (q * 1_000_000_000 + x / rate) as int,
        (x % rate) as int,
        rate as int,
    );
}

} // verus!
