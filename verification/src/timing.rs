//! Nanosecond timing on a 64-bit clock: an [`Instant`], a signed [`Offset`], and a [`Timer`].
use vstd::prelude::*;

use crate::clock::unix_nanos_now;
use crate::time::{div_i128_toward_zero, div_toward_zero};

verus! {

/// Reinterprets the bits of a `u64` as an `i64` (two's complement).
pub open spec fn reinterpret_as_i64(x: int) -> int {
    if x <= i64::MAX {
        x
    } else {
        x - 0x1_0000_0000_0000_0000int
    }
}

/// `later - earlier` on 64-bit unsigned integers, wrapping around on underflow.
pub open spec fn wrapping_sub_u64(later: int, earlier: int) -> int {
    if later >= earlier {
        later - earlier
    } else {
        later - earlier + 0x1_0000_0000_0000_0000int
    }
}

/// Whether `x` fits in an `i64`.
pub open spec fn fits_i64(x: int) -> bool {
    i64::MIN <= x <= i64::MAX
}

/// The offset from `earlier` to `later`, as [`Instant::to`] computes it: the wrapped difference, reinterpreted
/// as a signed number. When `later` is at or after `earlier` and at most `i64::MAX` nanoseconds apart, this is
/// just `later - earlier`.
pub open spec fn offset_between(earlier: int, later: int) -> int {
    reinterpret_as_i64(wrapping_sub_u64(later, earlier))
}

/// Casts a `u64` to an `i64`, reinterpreting its bits.
fn u64_bits_as_i64(x: u64) -> (r: i64)
    ensures
        r == reinterpret_as_i64(x as int),
{
    if x <= (i64::MAX as u64) {
        x as i64
    } else {
        let low: u64 = x - 0x8000_0000_0000_0000u64;
        (low as i64) + i64::MIN
    }
}

/// Casts a `usize` to an `i64`, reinterpreting its bits.
fn usize_bits_as_i64(x: usize) -> (r: i64)
    ensures
        r == reinterpret_as_i64(x as int),
{
    u64_bits_as_i64(x as u64)
}

/// A point in time, counted in nanoseconds on an unsigned 64-bit clock.
#[derive(Copy, Clone, PartialEq, Eq, Structural, PartialOrd, Ord, Hash, Debug)]
pub struct Instant(u64);

impl View for Instant {
    type V = int;

    closed spec fn view(&self) -> int {
        self.0 as int
    }
}

impl Instant {
    /// Two instants with the same nanoseconds are equal.
    pub proof fn lemma_view_injective(self, other: Self)
        ensures
            self@ == other@ ==> self == other,
    {
    }

    /// The nanoseconds of this instant are in the range of `u64`.
    pub proof fn lemma_range(self)
        ensures
            0 <= self@ <= u64::MAX,
    {
    }

    /// The instant at `nanoseconds` on the clock.
    pub fn from_nanoseconds(nanoseconds: u64) -> (r: Self)
        ensures
            r@ == nanoseconds,
    {
        Instant(nanoseconds)
    }

    /// The current instant: the nanoseconds since the Unix epoch on the system clock, truncated to 64 bits, or the
    /// instant `0` when the clock reads a moment before that epoch. What it returns depends on the moment of the
    /// call.
    pub fn now() -> (r: Instant) {
        match unix_nanos_now() {
            Some(n) => Instant(n as u64),
            None => Instant(0),
        }
    }

    /// The offset from this instant to `later`: their difference, wrapping on 64 bits and reinterpreted as signed.
    pub fn to(&self, later: Instant) -> (r: Offset)
        ensures
            r@ == offset_between(self@, later@),
    {
        let difference: u64 = if later.0 >= self.0 {
            later.0 - self.0
        } else {
            later.0.wrapping_sub(self.0)
        };
        Offset::from_ns(u64_bits_as_i64(difference))
    }
}

/// A signed amount of time in nanoseconds.
#[derive(Copy, Clone, PartialEq, Eq, Structural, PartialOrd, Ord, Hash, Debug)]
pub struct Offset(i64);

impl View for Offset {
    type V = int;

    closed spec fn view(&self) -> int {
        self.0 as int
    }
}

impl Default for Offset {
    /// The zero offset.
    fn default() -> (r: Self)
        ensures
            r@ == 0,
    {
        Offset(0)
    }
}

impl Offset {
    /// Two offsets with the same nanoseconds are equal.
    pub proof fn lemma_view_injective(self, other: Self)
        ensures
            self@ == other@ ==> self == other,
    {
    }

    /// The nanoseconds of this offset are in the range of `i64`.
    pub proof fn lemma_range(self)
        ensures
            fits_i64(self@),
    {
    }

    /// The zero offset.
    pub fn zero() -> (r: Offset)
        ensures
            r@ == 0,
    {
        Offset(0)
    }

    /// An offset of `ns` nanoseconds.
    pub fn from_ns(ns: i64) -> (r: Offset)
        ensures
            r@ == ns,
    {
        Offset(ns)
    }

    /// An offset of `us` microseconds.
    pub fn from_us(us: i64) -> (r: Offset)
        requires
            fits_i64(us * 1_000),
        ensures
            r@ == us * 1_000,
    {
        Offset::from_ns(us * 1_000)
    }

    /// An offset of `ms` milliseconds.
    pub fn from_ms(ms: i64) -> (r: Offset)
        requires
            fits_i64(ms * 1_000_000),
        ensures
            r@ == ms * 1_000_000,
    {
        Offset::from_ns(ms * 1_000_000)
    }

    /// An offset of `s` seconds.
    pub fn from_s(s: i64) -> (r: Offset)
        requires
            fits_i64(s * 1_000_000_000),
        ensures
            r@ == s * 1_000_000_000,
    {
        Offset::from_ns(s * 1_000_000_000)
    }

    /// The nanoseconds of this offset.
    pub fn as_ns(&self) -> (r: i64)
        ensures
            r == self@,
    {
        self.0
    }

    /// The sum of two offsets.
    pub fn add(self, rhs: Offset) -> (r: Offset)
        requires
            fits_i64(self@ + rhs@),
        ensures
            r@ == self@ + rhs@,
    {
        Offset(self.0 + rhs.0)
    }

    /// Adds `rhs` to this offset.
    pub fn add_assign(&mut self, rhs: Offset)
        requires
            fits_i64(old(self)@ + rhs@),
        ensures
            final(self)@ == old(self)@ + rhs@,
    {
        self.0 = self.0 + rhs.0;
    }

    /// The difference of two offsets.
    pub fn sub(self, rhs: Offset) -> (r: Offset)
        requires
            fits_i64(self@ - rhs@),
        ensures
            r@ == self@ - rhs@,
    {
        Offset(self.0 - rhs.0)
    }

    /// Subtracts `rhs` from this offset.
    pub fn sub_assign(&mut self, rhs: Offset)
        requires
            fits_i64(old(self)@ - rhs@),
        ensures
            final(self)@ == old(self)@ - rhs@,
    {
        self.0 = self.0 - rhs.0;
    }

    /// This offset multiplied by `rhs`.
    pub fn mul(self, rhs: i64) -> (r: Offset)
        requires
            fits_i64(self@ * rhs),
        ensures
            r@ == self@ * rhs,
    {
        Offset(self.0 * rhs)
    }

    /// This offset divided by `rhs`, rounding towards zero.
    pub fn div_i64(self, rhs: i64) -> (r: Offset)
        requires
            rhs != 0,
            !(self@ == i64::MIN && rhs == -1),
        ensures
            r@ == div_toward_zero(self@, rhs as int),
    {
        let q = div_i128_toward_zero(self.0 as i128, rhs as i128);
        proof {
            lemma_div_toward_zero_fits_i64(self@, rhs as int);
        }
        Offset(q as i64)
    }

    /// This offset divided by `rhs`, rounding towards zero. As in `self / rhs as i64`, the divisor's bits are
    /// reinterpreted as an `i64` first.
    pub fn div_u64(self, rhs: u64) -> (r: Offset)
        requires
            reinterpret_as_i64(rhs as int) != 0,
            !(self@ == i64::MIN && reinterpret_as_i64(rhs as int) == -1),
        ensures
            r@ == div_toward_zero(self@, reinterpret_as_i64(rhs as int)),
    {
        self.div_i64(u64_bits_as_i64(rhs))
    }

    /// This offset divided by `rhs`, rounding towards zero. As in `self / rhs as i64`, the divisor's bits are
    /// reinterpreted as an `i64` first.
    pub fn div_usize(self, rhs: usize) -> (r: Offset)
        requires
            reinterpret_as_i64(rhs as int) != 0,
            !(self@ == i64::MIN && reinterpret_as_i64(rhs as int) == -1),
        ensures
            r@ == div_toward_zero(self@, reinterpret_as_i64(rhs as int)),
    {
        self.div_i64(usize_bits_as_i64(rhs))
    }

    /// This offset divided by `rhs`, rounding towards zero.
    pub fn div_isize(self, rhs: isize) -> (r: Offset)
        requires
            rhs != 0,
            !(self@ == i64::MIN && rhs == -1),
        ensures
            r@ == div_toward_zero(self@, rhs as int),
    {
        self.div_i64(rhs as i64)
    }
}

/// Dividing a value of `i64` by a nonzero divisor, other than `i64::MIN` by `-1`, gives a value of `i64`.
proof fn lemma_div_toward_zero_fits_i64(a: int, b: int)
    requires
        fits_i64(a),
        fits_i64(b),
        b != 0,
        !(a == i64::MIN && b == -1),
    ensures
        fits_i64(div_toward_zero(a, b)),
{
    let aa: int = vstd::math::abs(a) as int;
    let bb: int = vstd::math::abs(b) as int;
    assert(aa / bb <= aa) by (nonlinear_arith)
        requires
            aa >= 0,
            bb >= 1,
    ;
    if aa == 0x8000_0000_0000_0000int && bb >= 2 {
        assert(aa / bb <= aa / 2) by (nonlinear_arith)
            requires
                aa >= 0,
                bb >= 2,
        ;
    }
}

/// Measures time since it was created or last reset.
#[derive(Debug)]
pub struct Timer {
    instant: Instant,
}

impl View for Timer {
    type V = int;

    /// The instant the timer was last reset.
    closed spec fn view(&self) -> int {
        self.instant@
    }
}

impl Default for Timer {
    /// A timer started now. Its start depends on the moment of the call.
    fn default() -> (r: Self)
        ensures
            0 <= r@ <= u64::MAX,
    {
        let instant = Instant::now();
        proof {
            instant.lemma_range();
        }
        Self { instant }
    }
}

impl Timer {
    /// A timer started now. Its start depends on the moment of the call.
    pub fn new() -> (r: Self) {
        Self::default()
    }

    /// The time from the last reset until now; the timer keeps running.
    pub fn time(&self) -> (r: Offset)
        ensures
            exists|now: Instant| r@ == offset_between(self@, now@),
    {
        let now = Instant::now();
        self.instant.to(now)
    }

    /// Restarts the timer from now.
    pub fn reset(&mut self) {
        self.instant = Instant::now();
    }

    /// The time from the last reset until now, after which the timer restarts from that very instant.
    pub fn time_then_reset(&mut self) -> (r: Offset)
        ensures
            r@ == offset_between(old(self)@, final(self)@),
    {
        let now = Instant::now();
        let time = self.instant.to(now);
        self.instant = now;
        time
    }
}

} // verus!
