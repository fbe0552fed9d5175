use timestep::policy::{FixedTimestep, SemiFixedTimestep};
use timestep::simulator::TimestepSimulator;

#[test]
fn fixed_three_steps_of_a_hundredth() {
    // 100 ticks per second, 150 units per second: three fixed steps of
    // 1/100 s land the body at 4.5 units.
    let mut f = FixedTimestep::new(TimestepSimulator::new(150, 100), 1);
    for _ in 0..3 {
        assert_eq!(f.advance_frame(1), 1);
    }
    assert_eq!(f.sim.position, 450);
    assert_eq!(f.sim.position as f64 / f.sim.resolution as f64, 4.5);
}

#[test]
fn fixed_banks_partial_frames() {
    let mut f = FixedTimestep::new(TimestepSimulator::new(150, 100), 4);
    // Less than one interval: nothing fires, the time stays banked.
    assert_eq!(f.advance_frame(3), 0);
    assert_eq!(f.accumulator, 3);
    assert_eq!(f.sim.position, 0);
    // The next frame completes one interval and banks the rest.
    assert_eq!(f.advance_frame(6), 2);
    assert_eq!(f.accumulator, 1);
    assert_eq!(f.sim.position, 150 * 4 * 2);
}

#[test]
fn fixed_zero_delta_changes_nothing() {
    let mut f = FixedTimestep::new(TimestepSimulator::new(150, 100), 4);
    assert_eq!(f.advance_frame(0), 0);
    assert_eq!(f.accumulator, 0);
    assert_eq!(f.sim.position, 0);
}

#[test]
fn fixed_is_frame_rate_independent() {
    // The same total elapsed time, split into frames three different ways,
    // ends in exactly the same state.
    let partitions: [&[u64]; 3] = [&[100], &[30, 70], &[10, 10, 35, 45]];
    let mut finals = Vec::new();
    for frames in partitions {
        let mut f = FixedTimestep::new(TimestepSimulator::new(150, 100), 7);
        for &delta in frames {
            f.advance_frame(delta);
        }
        finals.push((f.sim.position, f.sim.previous_position, f.accumulator));
    }
    assert_eq!(finals[0], finals[1]);
    assert_eq!(finals[0], finals[2]);
}

#[test]
fn fixed_interpolates_banked_fraction() {
    let mut f = FixedTimestep::new(TimestepSimulator::new(100, 1), 4);
    // 6 ticks: one step of 4 fires (0 to 400), 2 ticks stay banked,
    // so alpha is 2/4 and the blend sits halfway between 0 and 400.
    assert_eq!(f.advance_frame(6), 1);
    assert_eq!(f.sim.previous_position, 0);
    assert_eq!(f.sim.position, 400);
    assert_eq!(f.accumulator, 2);
    let blended = f.interpolate();
    assert_eq!(blended, 800);
    assert_eq!(blended / f.interval as u128, 200);
}

#[test]
fn at_most_once_drops_extra_intervals() {
    let mut f = FixedTimestep::new(TimestepSimulator::new(1, 1), 10);
    // 35 ticks bank three full intervals, but only one step fires; the
    // bank still drains to the remainder.
    assert!(f.advance_frame_at_most_once(35));
    assert_eq!(f.sim.position, 10);
    assert_eq!(f.accumulator, 5);
    // Too little for an interval: no step, the time stays banked.
    assert!(!f.advance_frame_at_most_once(2));
    assert_eq!(f.sim.position, 10);
    assert_eq!(f.accumulator, 7);
}

#[test]
fn semi_fixed_splits_a_tenth_into_sixtieths() {
    // 600 ticks per second: a cap of 10 ticks is 1/60 s and a frame of
    // 60 ticks is 0.1 s.  0.1 s divides into exactly six full caps, so
    // the leftover sub-step is empty and six sub-steps fire.
    let mut f = SemiFixedTimestep::new(TimestepSimulator::new(60, 600), 10);
    assert_eq!(f.advance_frame(60), 6);
    assert_eq!(f.sim.position, 60 * 60);
    // A frame a shade longer really does end in a shorter seventh
    // sub-step of the leftover 3 ticks.
    assert_eq!(f.advance_frame(63), 7);
    assert_eq!(f.sim.position, 60 * 60 + 60 * 63);
    assert_eq!(f.sim.previous_position, 60 * 60 + 60 * 60);
}

#[test]
fn semi_fixed_covers_the_whole_frame() {
    // Splitting a frame into capped sub-steps covers exactly the same
    // distance as one big step would.
    let mut split = SemiFixedTimestep::new(TimestepSimulator::new(60, 600), 10);
    split.advance_frame(12345);
    let mut whole = TimestepSimulator::new(60, 600);
    whole.step(12345);
    assert_eq!(split.sim.position, whole.position);
}

#[test]
fn semi_fixed_short_frame_is_one_substep() {
    let mut f = SemiFixedTimestep::new(TimestepSimulator::new(60, 600), 10);
    assert_eq!(f.advance_frame(4), 1);
    assert_eq!(f.sim.position, 60 * 4);
    assert_eq!(f.advance_frame(0), 0);
    assert_eq!(f.sim.position, 60 * 4);
}
