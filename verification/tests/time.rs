use ggg::time::{Instant, Offset, Stopwatch};

#[test]
fn offset_units_convert_to_nanoseconds() {
    assert_eq!(Offset::zero().into_nanoseconds(), 0);
    assert_eq!(Offset::from_nanoseconds(-5).into_nanoseconds(), -5);
    assert_eq!(Offset::from_microseconds(3).into_nanoseconds(), 3_000);
    assert_eq!(Offset::from_milliseconds(-2).into_nanoseconds(), -2_000_000);
    assert_eq!(Offset::from_seconds(7).into_nanoseconds(), 7_000_000_000);
    assert_eq!(Offset::default().into_nanoseconds(), 0);
}

#[test]
fn offset_arithmetic() {
    let a = Offset::from_nanoseconds(10);
    let b = Offset::from_nanoseconds(-4);
    assert_eq!(a.add(b).into_nanoseconds(), 6);
    assert_eq!(a.sub(b).into_nanoseconds(), 14);
    let mut c = a;
    c.add_assign(b);
    assert_eq!(c.into_nanoseconds(), 6);
    c.sub_assign(a);
    assert_eq!(c.into_nanoseconds(), -4);
    assert_eq!(a.mul(-3).into_nanoseconds(), -30);
    assert_eq!(a.mul_u8(2).into_nanoseconds(), 20);
    assert_eq!(a.mul_i32(-1).into_nanoseconds(), -10);
}

#[test]
fn offset_division_rounds_toward_zero() {
    assert_eq!(Offset::from_nanoseconds(-7).div(2).into_nanoseconds(), -3);
    assert_eq!(Offset::from_nanoseconds(7).div(-2).into_nanoseconds(), -3);
    assert_eq!(Offset::from_nanoseconds(-7).div(-2).into_nanoseconds(), 3);
    assert_eq!(Offset::from_nanoseconds(7).div_u64(2).into_nanoseconds(), 3);
    assert_eq!(Offset::from_nanoseconds(-9).div_i8(4).into_nanoseconds(), -2);
    assert_eq!(Offset::from_nanoseconds(i128::MIN).div(1).into_nanoseconds(), i128::MIN);
}

#[test]
fn instant_moves_and_saturates() {
    let i = Instant::from_nanoseconds(5);
    assert_eq!(i.add(Offset::from_nanoseconds(10)).into_nanoseconds(), 15);
    assert_eq!(i.add(Offset::from_nanoseconds(-10)).into_nanoseconds(), 0);
    let top = Instant::from_nanoseconds(u128::MAX);
    assert_eq!(top.add(Offset::from_nanoseconds(1)).into_nanoseconds(), u128::MAX);
    let mut j = i;
    j.add_assign(Offset::from_nanoseconds(3));
    assert_eq!(j.into_nanoseconds(), 8);
}

#[test]
fn instant_difference_is_an_offset() {
    let a = Instant::from_nanoseconds(10);
    let b = Instant::from_nanoseconds(4);
    assert_eq!(a.sub(b).into_nanoseconds(), 6);
    assert_eq!(b.sub(a).into_nanoseconds(), -6);
    // The later instant's nanoseconds are read as an i128 before the subtraction, which saturates.
    let huge = Instant::from_nanoseconds(u128::MAX);
    assert_eq!(huge.sub(Instant::from_nanoseconds(0)).into_nanoseconds(), -1);
    assert_eq!(Instant::from_nanoseconds(0).sub(huge).into_nanoseconds(), i128::MIN);
}

#[test]
fn clock_reads_after_the_epoch() {
    let a = Instant::now();
    let b = Instant::now();
    assert!(a.into_nanoseconds() > 0);
    assert!(b.sub(a).into_nanoseconds() >= 0);
    assert!(a.elapsed().into_nanoseconds() >= 0);
}

#[test]
fn stopwatch_measures_and_restarts() {
    let mut stopwatch = Stopwatch::new();
    assert!(stopwatch.elapsed().into_nanoseconds() >= 0);
    let first = stopwatch.elapsed_then_reset();
    assert!(first.into_nanoseconds() >= 0);
    stopwatch.reset();
    assert!(stopwatch.elapsed().into_nanoseconds() >= 0);
    let other = Stopwatch::default();
    assert!(other.elapsed().into_nanoseconds() >= 0);
}

#[test]
fn moving_then_measuring_gives_the_offset_back() {
    let start = Instant::from_nanoseconds(1_000);
    for nanoseconds in [-300i128, 0, 700, 5_000] {
        let offset = Offset::from_nanoseconds(nanoseconds);
        assert_eq!(start.add(offset).sub(start).into_nanoseconds(), nanoseconds);
    }
}

#[test]
fn offsets_between_instants_add_up() {
    let a = Instant::from_nanoseconds(100);
    let b = Instant::from_nanoseconds(250);
    let c = Instant::from_nanoseconds(1_000);
    assert_eq!(
        c.sub(b).into_nanoseconds() + b.sub(a).into_nanoseconds(),
        c.sub(a).into_nanoseconds()
    );
    assert_eq!(a.sub(c).into_nanoseconds() + c.sub(b).into_nanoseconds(), a.sub(b).into_nanoseconds());
}

#[test]
fn stopwatch_readings_chain() {
    let mut stopwatch = Stopwatch::new();
    let first = stopwatch.elapsed_then_reset();
    let second = stopwatch.elapsed_then_reset();
    assert!(first.into_nanoseconds() >= 0);
    assert!(second.into_nanoseconds() >= 0);
    let a = stopwatch.elapsed();
    let b = stopwatch.elapsed();
    assert!(a.into_nanoseconds() <= b.into_nanoseconds());
}
