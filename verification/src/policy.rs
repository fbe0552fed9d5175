//! Per-frame stepping policies.
//!
//! A policy decides how the elapsed time of one rendered frame, given in
//! ticks, is turned into simulation steps.  The variable policy is a single
//! [`TimestepSimulator::step`] with the raw frame delta; the fixed and
//! semi-fixed policies live here, together with the frame-rate-independence
//! proof for the fixed policy.

use vstd::prelude::*;

verus! {

use crate::simulator::TimestepSimulator;
use vstd::arithmetic::div_mod::lemma_add_mod_noop_right;
use vstd::arithmetic::div_mod::lemma_basic_div;
use vstd::arithmetic::div_mod::lemma_div_multiples_vanish_fancy;
use vstd::arithmetic::div_mod::lemma_fundamental_div_mod;
use vstd::arithmetic::div_mod::lemma_fundamental_div_mod_converse;
use vstd::arithmetic::div_mod::lemma_hoist_over_denominator;
use vstd::arithmetic::div_mod::lemma_mod_division_less_than_divisor;
use vstd::arithmetic::div_mod::lemma_mod_multiples_basic;
use vstd::arithmetic::div_mod::lemma_small_mod;
use vstd::arithmetic::mul::lemma_mul_inequality;
use vstd::arithmetic::mul::lemma_mul_is_commutative;
use vstd::arithmetic::mul::lemma_mul_is_distributive_add;

/// Total elapsed time of a sequence of frame deltas, in ticks.
pub open spec fn ticks_total(deltas: Seq<int>) -> int
    decreases deltas.len(),
{
    if deltas.len() == 0 {
        0
    } else {
        deltas[0] + ticks_total(deltas.drop_first())
    }
}

pub open spec fn all_nonneg(deltas: Seq<int>) -> bool {
    forall|k: int| 0 <= k < deltas.len() ==> 0 <= #[trigger] deltas[k]
}

/// The state of the fixed policy after one rendered frame of `delta`
/// ticks, as a (position, accumulator) pair: the banked time grows by
/// `delta`, one step of `interval` ticks fires per full interval banked,
/// and the remainder stays banked.
pub open spec fn fixed_frame(
    pos: int,
    acc: int,
    v: int,
    interval: int,
    track: int,
    delta: int,
) -> (int, int) {
    ((pos + v * interval * ((acc + delta) / interval)) % track, (acc + delta) % interval)
}

/// The state of the fixed policy after a whole sequence of rendered
/// frames, one [`fixed_frame`] per delta.
pub open spec fn fixed_run(
    pos: int,
    acc: int,
    v: int,
    interval: int,
    track: int,
    deltas: Seq<int>,
) -> (int, int)
    decreases deltas.len(),
{
    if deltas.len() == 0 {
        (pos, acc)
    } else {
        let frame = fixed_frame(pos, acc, v, interval, track, deltas[0]);
        fixed_run(frame.0, frame.1, v, interval, track, deltas.drop_first())
    }
}

proof fn lemma_ticks_total_nonneg(deltas: Seq<int>)
    requires
        all_nonneg(deltas),
    ensures
        0 <= ticks_total(deltas),
    decreases deltas.len(),
{
    if deltas.len() > 0 {
        assert(all_nonneg(deltas.drop_first()));
        lemma_ticks_total_nonneg(deltas.drop_first());
    }
}

/// The state the fixed policy reaches over any sequence of frames depends
/// only on the total elapsed time of the sequence: it is the state after
/// `(acc + total) / interval` steps, with `(acc + total) % interval` ticks
/// left banked.
pub proof fn lemma_fixed_run_closed_form(
    pos: int,
    acc: int,
    v: int,
    interval: int,
    track: int,
    deltas: Seq<int>,
)
    requires
        1 <= interval,
        1 <= track,
        0 <= pos < track,
        0 <= acc < interval,
        0 <= v,
        all_nonneg(deltas),
    ensures
        fixed_run(pos, acc, v, interval, track, deltas) == (
            (pos + v * interval * ((acc + ticks_total(deltas)) / interval)) % track,
            (acc + ticks_total(deltas)) % interval,
        ),
    decreases deltas.len(),
{
    if deltas.len() == 0 {
        lemma_basic_div(acc, interval);
        lemma_small_mod(acc as nat, interval as nat);
        lemma_small_mod(pos as nat, track as nat);
        assert(v * interval * 0 == 0) by (nonlinear_arith);
    } else {
        let d0 = deltas[0];
        let rest = deltas.drop_first();
        let s1 = acc + d0;
        let k1 = s1 / interval;
        let p1 = (pos + v * interval * k1) % track;
        let a1 = s1 % interval;
        assert(all_nonneg(rest));
        lemma_ticks_total_nonneg(rest);
        let srest = ticks_total(rest);
        lemma_mod_division_less_than_divisor(s1, interval);
        lemma_mod_division_less_than_divisor(pos + v * interval * k1, track);
        lemma_fixed_run_closed_form(p1, a1, v, interval, track, rest);
        let k2 = (a1 + srest) / interval;
        // The two frames' remainders chain: banking more time on top of a
        // reduced accumulator is the same as banking it on the raw sum.
        lemma_add_mod_noop_right(srest, s1, interval);
        assert((a1 + srest) % interval == (acc + ticks_total(deltas)) % interval);
        // The step counts add up: k1 steps in the first frame, k2 in the rest.
        lemma_fundamental_div_mod(s1, interval);
        lemma_mul_is_commutative(interval, k1);
        lemma_hoist_over_denominator(a1 + srest, k1, interval as nat);
        assert(k2 + k1 == (acc + ticks_total(deltas)) / interval);
        // And so do the distances covered.
        lemma_add_mod_noop_right(v * interval * k2, pos + v * interval * k1, track);
        lemma_mul_is_distributive_add(v * interval, k1, k2);
        assert((p1 + v * interval * k2) % track == (pos + v * interval * (k1 + k2)) % track);
    }
}

/// Frame-rate independence of the fixed policy: from the same well-formed
/// state, two sequences of frame deltas with the same total elapsed time
/// leave the policy in the same state, however differently the total is
/// split across frames.
pub proof fn lemma_fixed_determinism(
    pos: int,
    acc: int,
    v: int,
    interval: int,
    track: int,
    one: Seq<int>,
    other: Seq<int>,
)
    requires
        1 <= interval,
        1 <= track,
        0 <= pos < track,
        0 <= acc < interval,
        0 <= v,
        all_nonneg(one),
        all_nonneg(other),
        ticks_total(one) == ticks_total(other),
    ensures
        fixed_run(pos, acc, v, interval, track, one) == fixed_run(
            pos,
            acc,
            v,
            interval,
            track,
            other,
        ),
{
    lemma_fixed_run_closed_form(pos, acc, v, interval, track, one);
    lemma_fixed_run_closed_form(pos, acc, v, interval, track, other);
}

/// The fixed (decoupled) stepping policy: elapsed time is banked in an
/// accumulator, and whenever a full fixed interval has been banked the
/// simulation advances by exactly that interval.  A single rendered frame
/// may fire many steps, or none.
pub struct FixedTimestep {
    pub sim: TimestepSimulator,
    /// Elapsed ticks banked but not yet simulated; always below `interval`.
    pub accumulator: u64,
    /// The fixed step size, in ticks.
    pub interval: u64,
}

impl FixedTimestep {
    pub open spec fn wf(self) -> bool {
        &&& self.sim.wf()
        &&& 1 <= self.interval
        &&& self.accumulator < self.interval
    }

    pub fn new(sim: TimestepSimulator, interval: u64) -> (t: Self)
        requires
            sim.wf(),
            1 <= interval,
        ensures
            t.wf(),
            t.sim == sim,
            t.accumulator == 0,
            t.interval == interval,
    {
        FixedTimestep { sim, accumulator: 0, interval }
    }

    /// One rendered frame: bank `delta` elapsed ticks, then fire one fixed
    /// step per full interval banked, consuming it.  Returns the number of
    /// steps fired.  The new state is exactly [`fixed_frame`] of the old
    /// one, which is what makes the policy frame-rate independent (see
    /// [`lemma_fixed_determinism`]).
    pub fn advance_frame(&mut self, delta: u64) -> (steps: u64)
        requires
            old(self).wf(),
            old(self).accumulator + delta <= u64::MAX,
        ensures
            final(self).wf(),
            final(self).interval == old(self).interval,
            final(self).sim.velocity == old(self).sim.velocity,
            final(self).sim.resolution == old(self).sim.resolution,
            steps == (old(self).accumulator + delta) / (old(self).interval as int),
            final(self).accumulator == (old(self).accumulator + delta) % (old(
                self,
            ).interval as int),
            final(self).sim.position == (old(self).sim.position + old(self).sim.velocity * old(
                self,
            ).interval * steps) % old(self).sim.track_subunits(),
            steps == 0 ==> final(self).sim == old(self).sim,
            steps > 0 ==> final(self).sim.previous_position == (old(self).sim.position + old(
                self,
            ).sim.velocity * old(self).interval * (steps - 1)) % old(self).sim.track_subunits(),
            (final(self).sim.position as int, final(self).accumulator as int) == fixed_frame(
                old(self).sim.position as int,
                old(self).accumulator as int,
                old(self).sim.velocity as int,
                old(self).interval as int,
                old(self).sim.track_subunits(),
                delta as int,
            ),
    {
        let ghost total: int = old(self).accumulator + delta;
        let ghost pos0: int = old(self).sim.position as int;
        let ghost v: int = old(self).sim.velocity as int;
        let ghost ival: int = old(self).interval as int;
        let ghost track: int = old(self).sim.track_subunits();
        proof {
            lemma_small_mod(old(self).sim.position as nat, track as nat);
        }
        self.accumulator = self.accumulator + delta;
        let mut steps: u64 = 0;
        while self.accumulator >= self.interval
            invariant
                self.sim.wf(),
                self.interval == old(self).interval,
                self.sim.velocity == old(self).sim.velocity,
                self.sim.resolution == old(self).sim.resolution,
                1 <= ival,
                ival == self.interval,
                v == self.sim.velocity,
                track == self.sim.track_subunits(),
                total <= u64::MAX,
                self.accumulator + steps * ival == total,
                self.sim.position == (pos0 + v * ival * steps) % track,
                steps == 0 ==> self.sim == old(self).sim,
                steps > 0 ==> self.sim.previous_position == (pos0 + v * ival * (steps - 1))
                    % track,
            decreases self.accumulator,
        {
            proof {
                assert(steps * ival >= steps * 1) by {
                    lemma_mul_inequality(1, ival, steps as int);
                    assert(steps * ival == ival * steps && steps * 1 == 1 * steps) by (
                    nonlinear_arith);
                }
            }
            self.sim.step(self.interval);
            proof {
                lemma_add_mod_noop_right(v * ival, pos0 + v * ival * steps, track);
                lemma_mul_is_distributive_add(v * ival, steps as int, 1);
                assert(v * ival * (steps + 1) == v * ival * steps + v * ival);
                assert(self.sim.position == (pos0 + v * ival * (steps + 1)) % track);
            }
            self.accumulator = self.accumulator - self.interval;
            steps = steps + 1;
            proof {
                assert(steps * ival == (steps - 1) * ival + ival) by (nonlinear_arith);
            }
        }
        proof {
            lemma_fundamental_div_mod_converse(
                total,
                ival,
                steps as int,
                self.accumulator as int,
            );
        }
        steps
    }

    /// One rendered frame of the variant that fires at most one fixed step
    /// per frame: the banked time is still consumed down to less than one
    /// interval, but full intervals beyond the first are dropped rather
    /// than simulated.  Returns whether a step fired.
    pub fn advance_frame_at_most_once(&mut self, delta: u64) -> (stepped: bool)
        requires
            old(self).wf(),
            old(self).accumulator + delta <= u64::MAX,
        ensures
            final(self).wf(),
            final(self).interval == old(self).interval,
            final(self).sim.velocity == old(self).sim.velocity,
            final(self).sim.resolution == old(self).sim.resolution,
            final(self).accumulator == (old(self).accumulator + delta) % (old(
                self,
            ).interval as int),
            stepped <==> old(self).accumulator + delta >= old(self).interval,
            stepped ==> final(self).sim.position == (old(self).sim.position + old(
                self,
            ).sim.velocity * old(self).interval) % old(self).sim.track_subunits(),
            stepped ==> final(self).sim.previous_position == old(self).sim.position,
            !stepped ==> final(self).sim == old(self).sim,
    {
        self.accumulator = self.accumulator + delta;
        let stepped = self.accumulator >= self.interval;
        if stepped {
            self.sim.step(self.interval);
        }
        proof {
            lemma_mod_division_less_than_divisor(self.accumulator as int, self.interval as int);
            if !stepped {
                lemma_small_mod(self.accumulator as nat, self.interval as nat);
            }
        }
        self.accumulator = self.accumulator % self.interval;
        stepped
    }

    /// Render-only blended position for the interpolating variant.  The
    /// blend fraction is the banked share of the pending interval,
    /// `accumulator / interval`; the interpolated position in sub-units is
    /// the result divided by `interval`.  The simulation state is not
    /// touched.
    pub fn interpolate(&self) -> (blended: u128)
        requires
            self.wf(),
        ensures
            blended == self.sim.blend_numerator(self.accumulator as int, self.interval as int),
    {
        self.sim.interpolate(self.accumulator, self.interval)
    }
}

/// Number of sub-steps one frame of `delta` ticks splits into under the
/// semi-fixed policy: one per full cap of frame time, plus one for a
/// shorter leftover.
pub open spec fn substep_count(delta: int, cap: int) -> int {
    (delta + cap - 1) / cap
}

/// Length of the last sub-step of a frame of `delta > 0` ticks: the
/// leftover below the cap, or a full cap when the frame divides evenly.
pub open spec fn last_substep(delta: int, cap: int) -> int {
    if delta % cap == 0 {
        cap
    } else {
        delta % cap
    }
}

/// The semi-fixed stepping policy: each rendered frame's elapsed time is
/// consumed entirely, in sub-steps of at most `cap` ticks each, so a
/// sub-step is shorter than the cap only when less than a cap of frame
/// time is left.  Nothing is banked across frames.
pub struct SemiFixedTimestep {
    pub sim: TimestepSimulator,
    /// Upper bound on a single sub-step, in ticks.
    pub cap: u64,
}

impl SemiFixedTimestep {
    pub open spec fn wf(self) -> bool {
        &&& self.sim.wf()
        &&& 1 <= self.cap
    }

    pub fn new(sim: TimestepSimulator, cap: u64) -> (t: Self)
        requires
            sim.wf(),
            1 <= cap,
        ensures
            t.wf(),
            t.sim == sim,
            t.cap == cap,
    {
        SemiFixedTimestep { sim, cap }
    }

    /// One rendered frame: consume all of `delta` in sub-steps of at most
    /// `cap` ticks each and return how many fired.  Splitting the frame
    /// does not change the distance covered, so the whole frame moves the
    /// position by exactly `velocity * delta` sub-units, wrapped onto the
    /// track.
    pub fn advance_frame(&mut self, delta: u64) -> (steps: u64)
        requires
            old(self).wf(),
        ensures
            final(self).wf(),
            final(self).cap == old(self).cap,
            final(self).sim.velocity == old(self).sim.velocity,
            final(self).sim.resolution == old(self).sim.resolution,
            final(self).sim.position == (old(self).sim.position + old(self).sim.velocity * delta)
                % old(self).sim.track_subunits(),
            steps == substep_count(delta as int, old(self).cap as int),
            delta == 0 ==> final(self).sim == old(self).sim,
            delta > 0 ==> final(self).sim.previous_position == (old(self).sim.position + old(
                self,
            ).sim.velocity * (delta - last_substep(delta as int, old(self).cap as int))) % old(
                self,
            ).sim.track_subunits(),
    {
        let ghost pos0: int = old(self).sim.position as int;
        let ghost v: int = old(self).sim.velocity as int;
        let ghost cap_g: int = old(self).cap as int;
        let ghost track: int = old(self).sim.track_subunits();
        proof {
            lemma_small_mod(old(self).sim.position as nat, track as nat);
            lemma_basic_div(cap_g - 1, cap_g);
            assert(v * (delta - delta) == 0) by (nonlinear_arith);
        }
        let mut remaining: u64 = delta;
        let mut steps: u64 = 0;
        while remaining > 0
            invariant
                self.sim.wf(),
                self.cap == old(self).cap,
                self.sim.velocity == old(self).sim.velocity,
                self.sim.resolution == old(self).sim.resolution,
                1 <= cap_g,
                cap_g == self.cap,
                v == self.sim.velocity,
                track == self.sim.track_subunits(),
                pos0 == old(self).sim.position,
                remaining <= delta,
                self.sim.position == (pos0 + v * (delta - remaining)) % track,
                remaining > 0 ==> delta - remaining == steps * cap_g,
                remaining == 0 ==> steps == substep_count(delta as int, cap_g),
                remaining == 0 && delta > 0 ==> self.sim.previous_position == (pos0 + v * (delta
                    - last_substep(delta as int, cap_g))) % track,
                delta == 0 ==> self.sim == old(self).sim,
            decreases remaining,
        {
            let chunk: u64 = if remaining < self.cap {
                remaining
            } else {
                self.cap
            };
            let ghost consumed_before: int = delta - remaining;
            proof {
                assert(steps * cap_g >= steps) by (nonlinear_arith)
                    requires
                        1 <= cap_g,
                        0 <= steps,
                ;
            }
            self.sim.step(chunk);
            proof {
                lemma_add_mod_noop_right(v * chunk, pos0 + v * consumed_before, track);
                lemma_mul_is_distributive_add(v, consumed_before, chunk as int);
                assert(self.sim.position == (pos0 + v * (consumed_before + chunk)) % track);
            }
            remaining = remaining - chunk;
            steps = steps + 1;
            proof {
                if remaining > 0 {
                    assert(steps * cap_g == (steps - 1) * cap_g + cap_g) by (nonlinear_arith);
                } else {
                    assert(delta == (steps - 1) * cap_g + chunk);
                    assert((steps - 1) * cap_g + cap_g == cap_g * steps) by (nonlinear_arith);
                    if chunk == self.cap {
                        // The frame time divided evenly into full caps.
                        lemma_mod_multiples_basic(steps as int, cap_g);
                        assert(delta == steps * cap_g && steps * cap_g == cap_g * steps) by (
                        nonlinear_arith)
                            requires
                                delta == (steps - 1) * cap_g + chunk,
                                chunk == cap_g,
                        ;
                        lemma_div_multiples_vanish_fancy(steps as int, cap_g - 1, cap_g);
                        assert(delta + cap_g - 1 == cap_g * steps + (cap_g - 1));
                        assert(last_substep(delta as int, cap_g) == cap_g);
                    } else {
                        // A shorter leftover sub-step closed the frame.
                        lemma_fundamental_div_mod_converse(
                            delta as int,
                            cap_g,
                            steps - 1,
                            chunk as int,
                        );
                        assert(last_substep(delta as int, cap_g) == chunk);
                        lemma_div_multiples_vanish_fancy(steps as int, chunk - 1, cap_g);
                        assert(delta + cap_g - 1 == cap_g * steps + (chunk - 1));
                    }
                }
            }
        }
        steps
    }
}

} // verus!
