use ggg::timing::{Instant, Offset, Timer};

#[test]
fn timing_offset_units() {
    assert_eq!(Offset::zero().as_ns(), 0);
    assert_eq!(Offset::from_ns(12).as_ns(), 12);
    assert_eq!(Offset::from_us(2).as_ns(), 2_000);
    assert_eq!(Offset::from_ms(3).as_ns(), 3_000_000);
    assert_eq!(Offset::from_s(-1).as_ns(), -1_000_000_000);
}

#[test]
fn timing_offset_arithmetic() {
    let a = Offset::from_ns(9);
    let b = Offset::from_ns(4);
    assert_eq!(a.add(b).as_ns(), 13);
    assert_eq!(a.sub(b).as_ns(), 5);
    assert_eq!(a.mul(-2).as_ns(), -18);
    assert_eq!(a.div_i64(-2).as_ns(), -4);
    assert_eq!(a.div_u64(4).as_ns(), 2);
    assert_eq!(a.div_usize(3).as_ns(), 3);
    assert_eq!(a.div_isize(-9).as_ns(), -1);
    let mut c = a;
    c.add_assign(b);
    c.sub_assign(Offset::from_ns(1));
    assert_eq!(c.as_ns(), 12);
}

#[test]
fn timing_divisor_bits_are_read_as_signed() {
    // As in `self / rhs as i64`: a divisor of u64::MAX reads as -1.
    assert_eq!(Offset::from_ns(5).div_u64(u64::MAX).as_ns(), -5);
}

#[test]
fn timing_instants_wrap() {
    let a = Instant::from_nanoseconds(100);
    let b = Instant::from_nanoseconds(250);
    assert_eq!(a.to(b).as_ns(), 150);
    assert_eq!(b.to(a).as_ns(), -150);
    let top = Instant::from_nanoseconds(u64::MAX);
    assert_eq!(top.to(Instant::from_nanoseconds(4)).as_ns(), 5);
}

#[test]
fn timer_measures() {
    let mut timer = Timer::new();
    assert!(timer.time().as_ns() >= 0);
    assert!(timer.time_then_reset().as_ns() >= 0);
    timer.reset();
    assert!(timer.time().as_ns() >= 0);
    let later = Instant::now();
    assert!(later.to(Instant::now()).as_ns() >= 0);
}
