use ggg::screen::{PhysicalDelta, PhysicalPosition, PhysicalSize};

#[test]
fn physical_size_basics() {
    let size = PhysicalSize::new(1920, 1080);
    assert_eq!(size.width, 1920);
    assert_eq!(size.height, 1080);
    assert!(!size.is_zero());
    assert!(PhysicalSize::default().is_zero());
    assert!(!PhysicalSize::new(0, 1).is_zero());
    assert_eq!(size.mul(2), PhysicalSize::new(3840, 2160));
    assert_eq!(size.to_tuple(), (1920, 1080));
    assert_eq!(size.to_array(), [1920, 1080]);
}

#[test]
fn physical_size_conversions() {
    assert_eq!(PhysicalSize::from((3u64, 4u64)), PhysicalSize::new(3, 4));
    assert_eq!(PhysicalSize::from((3u32, 4u32)), PhysicalSize::new(3, 4));
    assert_eq!(PhysicalSize::from([5u64, 6u64]), PhysicalSize::new(5, 6));
    assert_eq!(PhysicalSize::from([u32::MAX, 6u32]), PhysicalSize::new(u32::MAX as u64, 6));
}

#[test]
fn physical_position_moves_by_deltas() {
    let p = PhysicalPosition::new(3, -4);
    let d = PhysicalDelta::new(1, 2);
    assert_eq!(p.add(d), PhysicalPosition::new(4, -2));
    let mut q = p;
    q.add_assign(d);
    assert_eq!(q, PhysicalPosition::new(4, -2));
    assert_eq!(p.sub_position(PhysicalPosition::new(1, 1)), PhysicalDelta::new(2, -5));
    assert!(PhysicalPosition::default().is_zero());
    assert!(!p.is_zero());
}

#[test]
fn subtracting_a_delta_from_a_position_adds_it() {
    let p = PhysicalPosition::new(3, -4);
    let d = PhysicalDelta::new(1, 2);
    assert_eq!(p.sub(d), PhysicalPosition::new(4, -2));
    let mut q = p;
    q.sub_assign(d);
    assert_eq!(q, PhysicalPosition::new(4, -2));
}

#[test]
fn physical_position_and_delta_conversions() {
    assert_eq!(PhysicalPosition::from((1i64, -2i64)), PhysicalPosition::new(1, -2));
    assert_eq!(PhysicalPosition::from((1i32, -2i32)), PhysicalPosition::new(1, -2));
    assert_eq!(PhysicalPosition::from([7i64, 8i64]), PhysicalPosition::new(7, 8));
    assert_eq!(PhysicalPosition::from([i32::MIN, 8i32]), PhysicalPosition::new(i32::MIN as i64, 8));
    assert_eq!(PhysicalPosition::new(1, 2).to_tuple(), (1, 2));
    assert_eq!(PhysicalPosition::new(1, 2).to_array(), [1, 2]);
    assert_eq!(PhysicalDelta::from((1i64, -2i64)), PhysicalDelta::new(1, -2));
    assert_eq!(PhysicalDelta::from((1i32, -2i32)), PhysicalDelta::new(1, -2));
    assert_eq!(PhysicalDelta::from([7i64, 8i64]), PhysicalDelta::new(7, 8));
    assert_eq!(PhysicalDelta::from([7i32, 8i32]), PhysicalDelta::new(7, 8));
    assert_eq!(PhysicalDelta::new(1, 2).to_tuple(), (1, 2));
    assert_eq!(PhysicalDelta::new(1, 2).to_array(), [1, 2]);
}

#[test]
fn physical_deltas_add() {
    let a = PhysicalDelta::new(1, 2);
    let b = PhysicalDelta::new(-3, 5);
    assert_eq!(a.add(b), PhysicalDelta::new(-2, 7));
    let mut c = a;
    c.add_assign(b);
    assert_eq!(c, PhysicalDelta::new(-2, 7));
    assert!(PhysicalDelta::default().is_zero());
    assert!(!PhysicalDelta::new(0, 1).is_zero());
}
