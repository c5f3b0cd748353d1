use ggg::run::{FrameEnd, Frames, ResizeState, Updates};
use ggg::time::Offset;

#[test]
fn frames_are_numbered_and_the_first_has_no_duration() {
    let mut frames = Frames::default();
    let frame = frames.start(FrameEnd::default());
    assert_eq!(frame.frame, 0);
    assert_eq!(frame.duration.into_nanoseconds(), 0);
    let end = frames.end();
    assert!(end.duration.into_nanoseconds() >= 0);
    let frame = frames.start(FrameEnd { duration: Offset::from_nanoseconds(42) });
    assert_eq!(frame.frame, 1);
    assert_eq!(frame.duration.into_nanoseconds(), 42);
}

#[test]
fn updates_step_while_lag_reaches_the_target() {
    let mut updates = Updates::new(Offset::from_nanoseconds(10));
    assert_eq!(updates.target_duration().into_nanoseconds(), 10);
    assert_eq!(updates.accumulated_lag().into_nanoseconds(), 0);
    assert!(!updates.should_step());
    assert_eq!(updates.accumulate_lag(Offset::from_nanoseconds(25)).into_nanoseconds(), 25);
    let mut steps = Vec::new();
    while updates.should_step() {
        let step = updates.start_step();
        assert_eq!(step.target_duration.into_nanoseconds(), 10);
        steps.push(step.update);
        let end = updates.end_step();
        assert!(end.duration.into_nanoseconds() >= 0);
    }
    assert_eq!(steps, vec![0, 1]);
    assert_eq!(updates.accumulated_lag().into_nanoseconds(), 5);
}

#[test]
fn a_lag_equal_to_the_target_takes_one_step() {
    let mut updates = Updates::new(Offset::from_nanoseconds(16_666_667));
    updates.accumulate_lag(Offset::from_nanoseconds(16_666_667));
    assert!(updates.should_step());
    updates.start_step();
    updates.end_step();
    assert!(!updates.should_step());
    assert_eq!(updates.accumulated_lag().into_nanoseconds(), 0);
}

#[test]
fn resizes_wait_while_minimized() {
    let mut state = ResizeState::new();
    assert!(!state.take_resize());
    state.size_changed(true);
    assert!(state.minimized);
    assert!(!state.take_resize());
    assert!(!state.resized);
    state.size_changed(false);
    assert!(state.take_resize());
    assert!(!state.take_resize());
    state.surface_outdated();
    assert!(state.take_resize());
}

#[test]
fn steps_add_up_and_keep_their_target() {
    let mut updates = Updates::new(Offset::from_nanoseconds(7));
    updates.accumulate_lag(Offset::from_nanoseconds(100));
    for i in 0..5u64 {
        let step = updates.start_step();
        assert_eq!(step.update, i);
        assert_eq!(step.target_duration.into_nanoseconds(), 7);
        updates.end_step();
    }
    assert_eq!(updates.accumulated_lag().into_nanoseconds(), 100 - 5 * 7);
    assert_eq!(updates.target_duration().into_nanoseconds(), 7);
}

#[test]
fn stepping_takes_the_lag_divided_by_the_target() {
    let mut updates = Updates::new(Offset::from_nanoseconds(7));
    updates.accumulate_lag(Offset::from_nanoseconds(100));
    let mut steps = 0u64;
    while updates.should_step() {
        updates.start_step();
        updates.end_step();
        steps += 1;
    }
    assert_eq!(steps, 100 / 7);
    assert_eq!(updates.accumulated_lag().into_nanoseconds(), 100 % 7);
}
