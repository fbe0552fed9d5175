use timestep::simulator::TimestepSimulator;

#[test]
fn step_stays_on_track() {
    // One unit of track per sub-unit, 60 units per second.
    let mut s = TimestepSimulator::new(60, 1);
    for delta in [0u64, 1, 13, 799, 800, 100_000] {
        s.step(delta);
        assert!(s.position < 800 * s.resolution);
    }
}

#[test]
fn step_stays_on_track_at_extremes() {
    let resolution = u64::MAX / 800;
    let mut s = TimestepSimulator::new(u64::MAX, resolution);
    s.step(u64::MAX);
    assert!((s.position as u128) < 800 * resolution as u128);
    s.step(u64::MAX);
    assert!((s.position as u128) < 800 * resolution as u128);
}

#[test]
fn step_wraps_modulo_track() {
    // Pushing past the end of the track wraps: the new position is the old
    // one plus the distance covered, modulo the track length.
    let mut s = TimestepSimulator::new(60, 1);
    s.step(20);
    assert_eq!(s.position, (0 + 60 * 20) % 800);
    assert_eq!(s.position, 400);
    s.step(10);
    assert_eq!(s.position, (400 + 60 * 10) % 800);
    assert_eq!(s.position, 200);
    assert_eq!(s.previous_position, 400);
}

#[test]
fn step_keeps_velocity_and_resolution() {
    let mut s = TimestepSimulator::new(150, 100);
    s.step(17);
    s.step(0);
    assert_eq!(s.velocity, 150);
    assert_eq!(s.resolution, 100);
}

#[test]
fn interpolate_endpoints_without_wrap() {
    let mut s = TimestepSimulator::new(100, 1);
    s.step(2);
    s.step(2);
    assert_eq!(s.previous_position, 200);
    assert_eq!(s.position, 400);
    // alpha == 0 gives the previous position, alpha == 1 the current one,
    // each scaled by the alpha denominator.
    assert_eq!(s.interpolate(0, 5), 200 * 5);
    assert_eq!(s.interpolate(5, 5), 400 * 5);
    // Halfway in between at alpha == 1/2.
    assert_eq!(s.interpolate(1, 2), 400 + 200);
}

#[test]
fn interpolate_adjusts_baseline_after_wrap() {
    let mut s = TimestepSimulator::new(10, 1);
    s.step(79);
    assert_eq!(s.position, 790);
    s.step(3);
    assert_eq!(s.position, 20);
    assert_eq!(s.previous_position, 790);
    // The step wrapped around, so the blend starts from the reflected
    // baseline 800 - 790 = 10 instead of 790.
    assert_eq!(s.interpolate(0, 1), 10);
    assert_eq!(s.interpolate(1, 1), 20);
    assert_eq!(s.interpolate(1, 2), 20 + 10);
}

#[test]
fn zero_delta_step_only_records_previous() {
    let mut s = TimestepSimulator::new(60, 1);
    s.step(5);
    assert_eq!(s.position, 300);
    s.step(0);
    assert_eq!(s.position, 300);
    assert_eq!(s.previous_position, 300);
}
