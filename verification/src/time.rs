//! Nanosecond time: an [`Instant`] on a 128-bit unsigned clock, a signed [`Offset`] between instants, and a
//! [`Stopwatch`] that measures the time since it was last reset on the monotonic clock, so that what it measures
//! is never negative.
//!
//! Instants saturate: adding an offset never wraps around, and the offset between two instants saturates to the
//! range of `i128`.
use vstd::prelude::*;

use crate::clock::{duration_as_nanos, duration_nanos, duration_since, instant_duration_since, monotonic_now, unix_nanos_now};

verus! {

/// Clamps `x` to the range of `u128`.
pub open spec fn saturate_u128(x: int) -> int {
    if x < 0 {
        0
    } else if x > u128::MAX {
        u128::MAX as int
    } else {
        x
    }
}

/// Clamps `x` to the range of `i128`.
pub open spec fn saturate_i128(x: int) -> int {
    if x < i128::MIN {
        i128::MIN as int
    } else if x > i128::MAX {
        i128::MAX as int
    } else {
        x
    }
}

/// Reinterprets the bits of a `u128` as an `i128` (two's complement).
pub open spec fn reinterpret_as_i128(x: int) -> int {
    if x <= i128::MAX {
        x
    } else {
        x - 0x1_0000_0000_0000_0000_0000_0000_0000_0000int
    }
}

/// Whether `x` fits in an `i128`.
pub open spec fn fits_i128(x: int) -> bool {
    i128::MIN <= x <= i128::MAX
}

/// Integer division rounding towards zero, as Rust's `/` does.
pub open spec fn div_toward_zero(a: int, b: int) -> int {
    let q: int = (vstd::math::abs(a) / vstd::math::abs(b)) as int;
    if (a >= 0) == (b > 0) || a == 0 {
        q
    } else {
        -q
    }
}

/// Divides `a` by `b`, rounding towards zero, as Rust's `/` on `i128` does.
pub(crate) fn div_i128_toward_zero(a: i128, b: i128) -> (q: i128)
    requires
        b != 0,
        !(a == i128::MIN && b == -1),
    ensures
        q == div_toward_zero(a as int, b as int),
{
    let a_abs: u128 = if a >= 0 { a as u128 } else if a == i128::MIN {
        0x8000_0000_0000_0000_0000_0000_0000_0000u128
    } else {
        (-a) as u128
    };
    let b_abs: u128 = if b >= 0 { b as u128 } else if b == i128::MIN {
        0x8000_0000_0000_0000_0000_0000_0000_0000u128
    } else {
        (-b) as u128
    };
    let m: u128 = a_abs / b_abs;
    assert(m <= a_abs) by (nonlinear_arith)
        requires
            m == a_abs / b_abs,
            b_abs >= 1,
    ;
    let q: i128 = if (a >= 0) == (b > 0) || a == 0 {
        assert(m <= i128::MAX) by (nonlinear_arith)
            requires
                m == a_abs / b_abs,
                a_abs <= 0x8000_0000_0000_0000_0000_0000_0000_0000u128,
                b_abs >= 1,
                a_abs == 0x8000_0000_0000_0000_0000_0000_0000_0000u128 ==> b_abs >= 2,
        ;
        m as i128
    } else if m == 0x8000_0000_0000_0000_0000_0000_0000_0000u128 {
        i128::MIN
    } else {
        -(m as i128)
    };
    q
}

/// The sum of `a` and `b`, clamped to the range of `u128`, as `u128::saturating_add_signed` gives it.
fn u128_saturating_add_signed(a: u128, b: i128) -> (r: u128)
    ensures
        r == saturate_u128(a + b),
{
    if b >= 0 {
        let up: u128 = b as u128;
        if a > u128::MAX - up {
            u128::MAX
        } else {
            a + up
        }
    } else {
        let down: u128 = if b == i128::MIN {
            0x8000_0000_0000_0000_0000_0000_0000_0000u128
        } else {
            (-b) as u128
        };
        if a < down {
            0
        } else {
            a - down
        }
    }
}

/// The difference of `a` and `b`, clamped to the range of `i128`, as `i128::saturating_sub_unsigned` gives it.
fn i128_saturating_sub_unsigned(a: i128, b: u128) -> (r: i128)
    ensures
        r == saturate_i128(a - b),
{
    let room: u128 = if a >= 0 {
        (a as u128) + 0x8000_0000_0000_0000_0000_0000_0000_0000u128
    } else if a == i128::MIN {
        0
    } else {
        (0x8000_0000_0000_0000_0000_0000_0000_0000u128 - ((-a) as u128))
    };
    assert(room == a - i128::MIN);
    if b >= room {
        i128::MIN
    } else {
        let left: u128 = room - b;
        assert(left + i128::MIN == a - b);
        if left >= 0x8000_0000_0000_0000_0000_0000_0000_0000u128 {
            (left - 0x8000_0000_0000_0000_0000_0000_0000_0000u128) as i128
        } else {
            (left as i128) + i128::MIN
        }
    }
}

/// Casts a `u128` to an `i128`, reinterpreting its bits.
fn u128_bits_as_i128(x: u128) -> (r: i128)
    ensures
        r == reinterpret_as_i128(x as int),
{
    if x <= (i128::MAX as u128) {
        x as i128
    } else {
        let low: u128 = x - 0x8000_0000_0000_0000_0000_0000_0000_0000u128;
        assert(low <= i128::MAX);
        (low as i128) + i128::MIN
    }
}

/// A point in time, counted in nanoseconds on an unsigned 128-bit clock.
#[derive(Copy, Clone, PartialEq, Eq, Structural, PartialOrd, Ord, Hash, Debug)]
pub struct Instant(u128);

impl View for Instant {
    type V = int;

    closed spec fn view(&self) -> int {
        self.0 as int
    }
}

/// The offset from `earlier` to `later`, as [`Instant::sub`] computes it.
pub open spec fn offset_between(later: int, earlier: int) -> int {
    saturate_i128(reinterpret_as_i128(later) - earlier)
}

/// Moving an instant by an offset and then measuring from the instant gives the offset back, as long as the
/// moved instant stays on the clock and below `i128::MAX` nanoseconds, where [`Instant::sub`] reads it as is.
pub proof fn lemma_add_then_sub(instant: int, offset: int)
    requires
        0 <= instant <= u128::MAX,
        fits_i128(offset),
        0 <= instant + offset <= i128::MAX,
    ensures
        offset_between(saturate_u128(instant + offset), instant) == offset,
{
}

/// Offsets between instants add up: the offset from `a` to `b` and the offset from `b` to `c` make the offset from
/// `a` to `c`, as long as the three instants lie below `i128::MAX` nanoseconds, where [`Instant::sub`] reads them as
/// they are.
pub proof fn lemma_offsets_add_up(a: int, b: int, c: int)
    requires
        0 <= a <= i128::MAX,
        0 <= b <= i128::MAX,
        0 <= c <= i128::MAX,
    ensures
        offset_between(c, a) == offset_between(c, b) + offset_between(b, a),
{
}

impl Instant {
    /// Two instants with the same nanoseconds are equal.
    pub proof fn lemma_view_injective(self, other: Self)
        ensures
            self@ == other@ ==> self == other,
    {
    }

    /// The nanoseconds of this instant are in the range of `u128`.
    pub proof fn lemma_range(self)
        ensures
            0 <= self@ <= u128::MAX,
    {
    }

    /// The instant at `nanoseconds` on the clock.
    pub fn from_nanoseconds(nanoseconds: u128) -> (r: Self)
        ensures
            r@ == nanoseconds,
    {
        Instant(nanoseconds)
    }

    /// The nanoseconds of this instant on the clock.
    pub fn into_nanoseconds(self) -> (r: u128)
        ensures
            r == self@,
    {
        self.0
    }

    /// The current instant: the nanoseconds since the Unix epoch on the system clock, or the instant `0` when the
    /// clock reads a moment before that epoch. What it returns depends on the moment of the call.
    pub fn now() -> (r: Self) {
        match unix_nanos_now() {
            Some(n) => Instant(n),
            None => Instant(0),
        }
    }

    /// The time elapsed from this instant until now, saturated to the range of an offset.
    pub fn elapsed(self) -> (r: Offset)
        ensures
            exists|now: Instant| r@ == offset_between(now@, self@),
    {
        let now = Self::now();
        let r = now.sub(self);
        assert(r@ == offset_between(now@, self@));
        r
    }

    /// This instant moved by `rhs`, saturating at both ends of the clock.
    pub fn add(self, rhs: Offset) -> (r: Self)
        ensures
            r@ == saturate_u128(self@ + rhs@),
    {
        Instant(u128_saturating_add_signed(self.0, rhs.0))
    }

    /// Moves this instant by `rhs`, saturating at both ends of the clock.
    pub fn add_assign(&mut self, rhs: Offset)
        ensures
            final(self)@ == saturate_u128(old(self)@ + rhs@),
    {
        self.0 = u128_saturating_add_signed(self.0, rhs.0);
    }

    /// The offset from `rhs` to this instant. This instant's nanoseconds are reinterpreted as an `i128` before
    /// `rhs` is subtracted, and the difference saturates to the range of an offset.
    pub fn sub(self, rhs: Instant) -> (r: Offset)
        ensures
            r@ == offset_between(self@, rhs@),
    {
        let signed = u128_bits_as_i128(self.0);
        Offset(i128_saturating_sub_unsigned(signed, rhs.0))
    }
}

/// A signed amount of time in nanoseconds.
#[derive(Copy, Clone, PartialEq, Eq, Structural, PartialOrd, Ord, Hash, Debug)]
pub struct Offset(i128);

impl View for Offset {
    type V = int;

    closed spec fn view(&self) -> int {
        self.0 as int
    }
}

impl Default for Offset {
    /// The zero offset.
    fn default() -> (r: Self)
        ensures
            r@ == 0,
    {
        Offset(0)
    }
}

impl Offset {
    /// Two offsets with the same nanoseconds are equal.
    pub proof fn lemma_view_injective(self, other: Self)
        ensures
            self@ == other@ ==> self == other,
    {
    }

    /// The nanoseconds of this offset are in the range of `i128`.
    pub proof fn lemma_range(self)
        ensures
            fits_i128(self@),
    {
    }

    /// The zero offset.
    pub fn zero() -> (r: Self)
        ensures
            r@ == 0,
    {
        Self::default()
    }

    /// An offset of `nanoseconds`.
    pub fn from_nanoseconds(nanoseconds: i128) -> (r: Self)
        ensures
            r@ == nanoseconds,
    {
        Offset(nanoseconds)
    }

    /// An offset of `microseconds`.
    pub fn from_microseconds(microseconds: i128) -> (r: Self)
        requires
            fits_i128(microseconds * 1_000),
        ensures
            r@ == microseconds * 1_000,
    {
        Offset(microseconds * 1_000)
    }

    /// An offset of `milliseconds`.
    pub fn from_milliseconds(milliseconds: i128) -> (r: Self)
        requires
            fits_i128(milliseconds * 1_000_000),
        ensures
            r@ == milliseconds * 1_000_000,
    {
        Offset(milliseconds * 1_000_000)
    }

    /// An offset of `seconds`.
    pub fn from_seconds(seconds: i128) -> (r: Self)
        requires
            fits_i128(seconds * 1_000_000_000),
        ensures
            r@ == seconds * 1_000_000_000,
    {
        Offset(seconds * 1_000_000_000)
    }

    /// The nanoseconds of this offset.
    pub fn into_nanoseconds(self) -> (r: i128)
        ensures
            r == self@,
    {
        self.0
    }

    /// The sum of two offsets.
    pub fn add(self, rhs: Offset) -> (r: Self)
        requires
            fits_i128(self@ + rhs@),
        ensures
            r@ == self@ + rhs@,
    {
        Offset(self.0 + rhs.0)
    }

    /// Adds `rhs` to this offset.
    pub fn add_assign(&mut self, rhs: Offset)
        requires
            fits_i128(old(self)@ + rhs@),
        ensures
            final(self)@ == old(self)@ + rhs@,
    {
        self.0 = self.0 + rhs.0;
    }

    /// The difference of two offsets.
    pub fn sub(self, rhs: Offset) -> (r: Self)
        requires
            fits_i128(self@ - rhs@),
        ensures
            r@ == self@ - rhs@,
    {
        Offset(self.0 - rhs.0)
    }

    /// Subtracts `rhs` from this offset.
    pub fn sub_assign(&mut self, rhs: Offset)
        requires
            fits_i128(old(self)@ - rhs@),
        ensures
            final(self)@ == old(self)@ - rhs@,
    {
        self.0 = self.0 - rhs.0;
    }

    /// This offset multiplied by `rhs`.
    pub fn mul(self, rhs: i128) -> (r: Self)
        requires
            fits_i128(self@ * rhs),
        ensures
            r@ == self@ * rhs,
    {
        Offset(self.0 * rhs)
    }

    /// This offset divided by `rhs`, rounding towards zero.
    pub fn div(self, rhs: i128) -> (r: Self)
        requires
            rhs != 0,
            !(self@ == i128::MIN && rhs == -1),
        ensures
            r@ == div_toward_zero(self@, rhs as int),
    {
        Offset(div_i128_toward_zero(self.0, rhs))
    }

    /// This offset multiplied by `rhs`.
    pub fn mul_isize(self, rhs: isize) -> (r: Self)
        requires
            fits_i128(self@ * rhs),
        ensures
            r@ == self@ * rhs,
    {
        self.mul(rhs as i128)
    }

    /// This offset multiplied by `rhs`.
    pub fn mul_i64(self, rhs: i64) -> (r: Self)
        requires
            fits_i128(self@ * rhs),
        ensures
            r@ == self@ * rhs,
    {
        self.mul(rhs as i128)
    }

    /// This offset multiplied by `rhs`.
    pub fn mul_i32(self, rhs: i32) -> (r: Self)
        requires
            fits_i128(self@ * rhs),
        ensures
            r@ == self@ * rhs,
    {
        self.mul(rhs as i128)
    }

    /// This offset multiplied by `rhs`.
    pub fn mul_i16(self, rhs: i16) -> (r: Self)
        requires
            fits_i128(self@ * rhs),
        ensures
            r@ == self@ * rhs,
    {
        self.mul(rhs as i128)
    }

    /// This offset multiplied by `rhs`.
    pub fn mul_i8(self, rhs: i8) -> (r: Self)
        requires
            fits_i128(self@ * rhs),
        ensures
            r@ == self@ * rhs,
    {
        self.mul(rhs as i128)
    }

    /// This offset multiplied by `rhs`.
    pub fn mul_usize(self, rhs: usize) -> (r: Self)
        requires
            fits_i128(self@ * rhs),
        ensures
            r@ == self@ * rhs,
    {
        self.mul(rhs as i128)
    }

    /// This offset multiplied by `rhs`.
    pub fn mul_u64(self, rhs: u64) -> (r: Self)
        requires
            fits_i128(self@ * rhs),
        ensures
            r@ == self@ * rhs,
    {
        self.mul(rhs as i128)
    }

    /// This offset multiplied by `rhs`.
    pub fn mul_u32(self, rhs: u32) -> (r: Self)
        requires
            fits_i128(self@ * rhs),
        ensures
            r@ == self@ * rhs,
    {
        self.mul(rhs as i128)
    }

    /// This offset multiplied by `rhs`.
    pub fn mul_u16(self, rhs: u16) -> (r: Self)
        requires
            fits_i128(self@ * rhs),
        ensures
            r@ == self@ * rhs,
    {
        self.mul(rhs as i128)
    }

    /// This offset multiplied by `rhs`.
    pub fn mul_u8(self, rhs: u8) -> (r: Self)
        requires
            fits_i128(self@ * rhs),
        ensures
            r@ == self@ * rhs,
    {
        self.mul(rhs as i128)
    }

    /// This offset divided by `rhs`, rounding towards zero.
    pub fn div_isize(self, rhs: isize) -> (r: Self)
        requires
            rhs != 0,
            !(self@ == i128::MIN && rhs == -1),
        ensures
            r@ == div_toward_zero(self@, rhs as int),
    {
        self.div(rhs as i128)
    }

    /// This offset divided by `rhs`, rounding towards zero.
    pub fn div_i64(self, rhs: i64) -> (r: Self)
        requires
            rhs != 0,
            !(self@ == i128::MIN && rhs == -1),
        ensures
            r@ == div_toward_zero(self@, rhs as int),
    {
        self.div(rhs as i128)
    }

    /// This offset divided by `rhs`, rounding towards zero.
    pub fn div_i32(self, rhs: i32) -> (r: Self)
        requires
            rhs != 0,
            !(self@ == i128::MIN && rhs == -1),
        ensures
            r@ == div_toward_zero(self@, rhs as int),
    {
        self.div(rhs as i128)
    }

    /// This offset divided by `rhs`, rounding towards zero.
    pub fn div_i16(self, rhs: i16) -> (r: Self)
        requires
            rhs != 0,
            !(self@ == i128::MIN && rhs == -1),
        ensures
            r@ == div_toward_zero(self@, rhs as int),
    {
        self.div(rhs as i128)
    }

    /// This offset divided by `rhs`, rounding towards zero.
    pub fn div_i8(self, rhs: i8) -> (r: Self)
        requires
            rhs != 0,
            !(self@ == i128::MIN && rhs == -1),
        ensures
            r@ == div_toward_zero(self@, rhs as int),
    {
        self.div(rhs as i128)
    }

    /// This offset divided by `rhs`, rounding towards zero.
    pub fn div_usize(self, rhs: usize) -> (r: Self)
        requires
            rhs != 0,
        ensures
            r@ == div_toward_zero(self@, rhs as int),
    {
        self.div(rhs as i128)
    }

    /// This offset divided by `rhs`, rounding towards zero.
    pub fn div_u64(self, rhs: u64) -> (r: Self)
        requires
            rhs != 0,
        ensures
            r@ == div_toward_zero(self@, rhs as int),
    {
        self.div(rhs as i128)
    }

    /// This offset divided by `rhs`, rounding towards zero.
    pub fn div_u32(self, rhs: u32) -> (r: Self)
        requires
            rhs != 0,
        ensures
            r@ == div_toward_zero(self@, rhs as int),
    {
        self.div(rhs as i128)
    }

    /// This offset divided by `rhs`, rounding towards zero.
    pub fn div_u16(self, rhs: u16) -> (r: Self)
        requires
            rhs != 0,
        ensures
            r@ == div_toward_zero(self@, rhs as int),
    {
        self.div(rhs as i128)
    }

    /// This offset divided by `rhs`, rounding towards zero.
    pub fn div_u8(self, rhs: u8) -> (r: Self)
        requires
            rhs != 0,
        ensures
            r@ == div_toward_zero(self@, rhs as int),
    {
        self.div(rhs as i128)
    }
}

/// The time measured from the reading `earlier` of the monotonic clock to the reading `later`: the nanoseconds
/// between them, saturated to the range of an offset. It is never negative.
pub open spec fn elapsed_between(later: std::time::Instant, earlier: std::time::Instant) -> int {
    saturate_i128(duration_nanos(instant_duration_since(later, earlier)) as int)
}

/// An offset of `nanoseconds`, saturated to the range of an offset.
fn offset_from_unsigned(nanoseconds: u128) -> (r: Offset)
    ensures
        r@ == saturate_i128(nanoseconds as int),
{
    if nanoseconds > 0x7fff_ffff_ffff_ffff_ffff_ffff_ffff_ffffu128 {
        Offset(i128::MAX)
    } else {
        Offset(nanoseconds as i128)
    }
}

/// Measures the time since it was created or last reset, on the monotonic clock.
#[derive(Debug)]
pub struct Stopwatch {
    start: std::time::Instant,
}

impl Stopwatch {
    /// The reading of the monotonic clock at which the stopwatch was last reset.
    pub closed spec fn start(&self) -> std::time::Instant {
        self.start
    }
}

impl Default for Stopwatch {
    /// A stopwatch started now. Its start depends on the moment of the call; whatever it is, no time measured
    /// from it is negative.
    fn default() -> (r: Self)
        ensures
            forall|later: std::time::Instant| #[trigger] elapsed_between(later, r.start()) >= 0,
    {
        Self { start: monotonic_now() }
    }
}

impl Stopwatch {
    /// A stopwatch started now. Its start depends on the moment of the call; whatever it is, no time measured
    /// from it is negative.
    pub fn new() -> (r: Self) {
        Self::default()
    }

    /// The time elapsed since the stopwatch was last reset, measured against a reading of the monotonic clock
    /// taken now; it is never negative, and the stopwatch is left running.
    pub fn elapsed(&self) -> (r: Offset)
        ensures
            exists|now: std::time::Instant| r@ == elapsed_between(now, self.start()),
            r@ >= 0,
    {
        let now = monotonic_now();
        let d = duration_since(&now, &self.start);
        let n = duration_as_nanos(&d);
        let r = offset_from_unsigned(n);
        assert(r@ == elapsed_between(now, self.start()));
        r
    }

    /// Restarts the stopwatch from a reading of the monotonic clock taken now.
    pub fn reset(&mut self) {
        self.start = monotonic_now();
    }

    /// The time elapsed since the stopwatch was last reset, after which the stopwatch restarts from the very
    /// reading that the elapsed time was measured against; the time is never negative.
    pub fn elapsed_then_reset(&mut self) -> (r: Offset)
        ensures
            r@ == elapsed_between(final(self).start(), old(self).start()),
            r@ >= 0,
    {
        let now = monotonic_now();
        let d = duration_since(&now, &self.start);
        let n = duration_as_nanos(&d);
        self.start = now;
        offset_from_unsigned(n)
    }
}

} // verus!
