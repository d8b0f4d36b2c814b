//! Calendar arithmetic between host dates and times and the integers that
//! stand for them on the wire: days, milliseconds or microseconds since
//! the epoch. Division rounds toward zero throughout.

use crate::values::HostValue;
use vstd::prelude::*;

verus! {

/// The quotient of `a` by a positive `b`, rounded toward zero.
pub open spec fn div_toward_zero(a: int, b: int) -> int {
    if a >= 0 {
        a / b
    } else {
        -((-a) / b)
    }
}

/// What is left of `a` after `div_toward_zero`: it has the sign of `a`.
pub open spec fn rem_toward_zero(a: int, b: int) -> int {
    a - b * div_toward_zero(a, b)
}

/// `a` times `b` plus `c`, where that fits 64 bits.
pub open spec fn scaled(a: i64, b: i64, c: i64) -> Option<i64> {
    if -0x8000_0000_0000_0000 <= a * b + c <= 0x7fff_ffff_ffff_ffff {
        Some((a * b + c) as i64)
    } else {
        None
    }
}

/// Divides by a positive number, rounding toward zero.
pub fn divide(a: i64, b: i64) -> (r: (i64, i64))
    requires
        b >= 2,
    ensures
        r.0 == div_toward_zero(a as int, b as int),
        r.1 == rem_toward_zero(a as int, b as int),
{
    if a >= 0 {
        let q: i64 = a / b;
        let m: i64 = a % b;
        proof {
            vstd::arithmetic::div_mod::lemma_fundamental_div_mod(a as int, b as int);
        }
        (q, m)
    } else {
        let positive: u64 = ((-(a + 1)) as u64) + 1;
        let divisor: u64 = b as u64;
        let q: u64 = positive / divisor;
        let m: u64 = positive % divisor;
        proof {
            vstd::arithmetic::div_mod::lemma_fundamental_div_mod(positive as int, divisor as int);
            vstd::arithmetic::div_mod::lemma_div_pos_is_pos(positive as int, divisor as int);
            assert(q * divisor <= positive) by (nonlinear_arith)
                requires
                    positive == divisor * q + m,
                    m >= 0,
            ;
            assert(q <= 0x4000_0000_0000_0000) by (nonlinear_arith)
                requires
                    q * divisor <= positive,
                    divisor >= 2,
                    positive <= 0x8000_0000_0000_0000,
                    q >= 0,
            ;
            assert(m < divisor) by {
                vstd::arithmetic::div_mod::lemma_mod_bound(positive as int, divisor as int);
            }
            assert(positive == -a);
            assert(div_toward_zero(a as int, b as int) == -(q as int));
            assert(b * (-(q as int)) == -(divisor * q)) by (nonlinear_arith)
                requires
                    b == divisor,
            ;
        }
        (-(q as i64), -(m as i64))
    }
}

/// `a * b + c`, unless it overflows.
pub fn scale(a: i64, b: i64, c: i64) -> (r: Option<i64>)
    ensures
        r == scaled(a, b, c),
{
    assert(-0x4000_0000_0000_0000_0000_0000_0000_0000 <= a * b
        <= 0x4000_0000_0000_0000_0000_0000_0000_0000) by (nonlinear_arith)
        requires
            -0x8000_0000_0000_0000 <= a <= 0x7fff_ffff_ffff_ffff,
            -0x8000_0000_0000_0000 <= b <= 0x7fff_ffff_ffff_ffff,
    ;
    let wide: i128 = (a as i128) * (b as i128) + (c as i128);
    if -0x8000_0000_0000_0000 <= wide && wide <= 0x7fff_ffff_ffff_ffff {
        Some(wide as i64)
    } else {
        None
    }
}

/// Calendar dates.
pub struct RDate;

/// Dates with a time of day.
pub struct RDateTime;

/// Points in time.
pub struct RTime;

impl RDate {
    /// The host date that lies `n` days after the epoch.
    pub fn from_i64(n: i64) -> (r: HostValue)
        ensures
            r@ == crate::values::HostView::Date(n),
    {
        HostValue::Date(n)
    }

    /// The host date that lies `n` days after the epoch.
    pub fn from_integer(n: &i64) -> (r: HostValue)
        ensures
            r@ == crate::values::HostView::Date(*n),
    {
        Self::from_i64(*n)
    }

    /// The days between the epoch and a date that is held as that count.
    pub fn days_since_epoch(days: i64) -> (r: i64)
        ensures
            r == days,
    {
        days
    }
}

impl RDateTime {
    /// The whole days in `seconds` since the epoch.
    pub fn days_since_epoch(seconds: i64) -> (r: i64)
        ensures
            r == div_toward_zero(seconds as int, 86400),
    {
        divide(seconds, 86400).0
    }
}

impl RTime {
    /// The whole days in `seconds` since the epoch.
    pub fn days_since_epoch(seconds: i64) -> (r: i64)
        ensures
            r == div_toward_zero(seconds as int, 86400),
    {
        divide(seconds, 86400).0
    }

    /// Milliseconds since the epoch, unless they overflow.
    pub fn to_millis(seconds: i64, micros: i64) -> (r: Option<i64>)
        ensures
            r == scaled(seconds, 1000, div_toward_zero(micros as int, 1000) as i64),
    {
        scale(seconds, 1000, divide(micros, 1000).0)
    }

    /// Microseconds since the epoch, unless they overflow.
    pub fn to_micros(seconds: i64, micros: i64) -> (r: Option<i64>)
        ensures
            r == scaled(seconds, 1000000, micros),
    {
        scale(seconds, 1000000, micros)
    }

    /// The seconds and the microseconds within the second of a count of
    /// milliseconds.
    pub fn from_i64_millis(n: i64) -> (r: (i64, i64))
        ensures
            r.0 == div_toward_zero(n as int, 1000),
            r.1 == rem_toward_zero(n as int, 1000) * 1000,
    {
        let (seconds, millis) = divide(n, 1000);
        assert(-1000 < millis < 1000) by (nonlinear_arith)
            requires
                millis == n - 1000 * div_toward_zero(n as int, 1000),
                n >= 0 ==> div_toward_zero(n as int, 1000) == n / 1000,
                n < 0 ==> div_toward_zero(n as int, 1000) == -((-n) / 1000),
        ;
        (seconds, millis * 1000)
    }

    /// The host time of a count of milliseconds.
    pub fn from_millis(n: &i64) -> (r: HostValue)
        ensures
            r@ == crate::values::HostView::Time(
                div_toward_zero(*n as int, 1000) as i64,
                (rem_toward_zero(*n as int, 1000) * 1000) as i64,
            ),
    {
        let (seconds, micros) = Self::from_i64_millis(*n);
        HostValue::Time(seconds, micros)
    }

    /// The seconds and the microseconds within the second of a count of
    /// microseconds.
    pub fn from_i64_micros(n: i64) -> (r: (i64, i64))
        ensures
            r.0 == div_toward_zero(n as int, 1000000),
            r.1 == rem_toward_zero(n as int, 1000000),
    {
        divide(n, 1000000)
    }

    /// The host time of a count of microseconds.
    pub fn from_micros(n: &i64) -> (r: HostValue)
        ensures
            r@ == crate::values::HostView::Time(
                div_toward_zero(*n as int, 1000000) as i64,
                rem_toward_zero(*n as int, 1000000) as i64,
            ),
    {
        let (seconds, micros) = Self::from_i64_micros(*n);
        HostValue::Time(seconds, micros)
    }
}

} // verus!
