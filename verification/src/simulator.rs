//! Kinematic state of the simulated body and the single-step rule.

use vstd::prelude::*;

verus! {

use vstd::arithmetic::div_mod::lemma_mod_division_less_than_divisor;
use vstd::arithmetic::mul::lemma_mul_inequality;
use vstd::arithmetic::mul::lemma_mul_is_distributive_add;
use vstd::arithmetic::mul::lemma_mul_upper_bound;

/// Length of the circular track, in whole position units.
pub const TRACK_UNITS: u64 = 800;

/// A body moving at constant speed along the circular track.
///
/// Positions are kept in *sub-units*: `resolution` sub-units make one
/// position unit, and one tick of time lasts `1 / resolution` seconds.
/// Tying the two scales together makes stepping exact: a step of `delta`
/// ticks moves the body by `velocity * (delta / resolution)` units, which
/// is exactly `velocity * delta` sub-units.
pub struct TimestepSimulator {
    /// Position at the last completed step, in sub-units.
    pub previous_position: u64,
    /// Current position, in sub-units; always on the track.
    pub position: u64,
    /// Constant speed, in units per second; never changed by a step.
    pub velocity: u64,
    /// Sub-units per unit and ticks per second.
    pub resolution: u64,
}

impl TimestepSimulator {
    /// Track length in sub-units.
    pub open spec fn track_subunits(self) -> int {
        TRACK_UNITS * self.resolution
    }

    pub open spec fn wf(self) -> bool {
        &&& 1 <= self.resolution
        &&& TRACK_UNITS * self.resolution <= u64::MAX
        &&& self.position < self.track_subunits()
        &&& self.previous_position < self.track_subunits()
    }

    /// A fresh body at the left end of the track.
    pub fn new(velocity: u64, resolution: u64) -> (s: Self)
        requires
            1 <= resolution,
            TRACK_UNITS * resolution <= u64::MAX,
        ensures
            s.wf(),
            s.position == 0,
            s.previous_position == 0,
            s.velocity == velocity,
            s.resolution == resolution,
    {
        TimestepSimulator { previous_position: 0, position: 0, velocity, resolution }
    }

    /// Advance the simulation by `delta` ticks: remember the pre-step
    /// position, move by `velocity * delta` sub-units, and wrap the result
    /// back onto the track.  The new position is the old one plus the
    /// distance covered, modulo the track length, and so always lies on
    /// the track, however large `delta` is.
    pub fn step(&mut self, delta: u64)
        requires
            old(self).wf(),
        ensures
            final(self).wf(),
            final(self).velocity == old(self).velocity,
            final(self).resolution == old(self).resolution,
            final(self).previous_position == old(self).position,
            final(self).position == (old(self).position + old(self).velocity * delta)
                % old(self).track_subunits(),
            final(self).position < final(self).track_subunits(),
    {
        let track: u64 = TRACK_UNITS * self.resolution;
        proof {
            lemma_mul_upper_bound(
                self.velocity as int,
                u64::MAX as int,
                delta as int,
                u64::MAX as int,
            );
            lemma_mod_division_less_than_divisor(
                self.position + self.velocity * delta,
                track as int,
            );
        }
        let advanced: u128 = self.position as u128 + (self.velocity as u128) * (delta as u128);
        let wrapped: u128 = advanced % (track as u128);
        self.previous_position = self.position;
        self.position = wrapped as u64;
    }

    /// The position the render-time blend starts from.  Normally it is the
    /// previous position itself; when the last step wrapped around (the
    /// current position is below the previous one) the start is reflected
    /// to `track - previous_position`, so the blend does not sweep the
    /// body backward across the whole track.  The reflection compensates
    /// for a single wrap per step only.
    pub open spec fn interpolation_baseline(self) -> int {
        if self.position >= self.previous_position {
            self.previous_position as int
        } else {
            self.track_subunits() - self.previous_position
        }
    }

    /// The blend between the baseline and the current position at
    /// `alpha == alpha_num / alpha_den`, scaled by `alpha_den`: the
    /// interpolated position in sub-units is this value divided by
    /// `alpha_den`.
    pub open spec fn blend_numerator(self, alpha_num: int, alpha_den: int) -> int {
        self.position * alpha_num + self.interpolation_baseline() * (alpha_den - alpha_num)
    }

    /// Render-only interpolated position between the last two simulated
    /// positions, for `alpha == alpha_num / alpha_den` in `[0, 1]`: the
    /// fraction of the pending fixed interval already elapsed.  Returns
    /// the blend scaled by `alpha_den`, exactly; the simulation state is
    /// not touched.
    pub fn interpolate(&self, alpha_num: u64, alpha_den: u64) -> (blended: u128)
        requires
            self.wf(),
            1 <= alpha_den,
            alpha_num <= alpha_den,
        ensures
            blended == self.blend_numerator(alpha_num as int, alpha_den as int),
            blended <= (self.track_subunits() - 1) * alpha_den,
    {
        let track: u64 = TRACK_UNITS * self.resolution;
        let baseline: u64 = if self.position >= self.previous_position {
            self.previous_position
        } else {
            track - self.previous_position
        };
        proof {
            lemma_mul_inequality(self.position as int, track - 1, alpha_num as int);
            lemma_mul_inequality(baseline as int, track - 1, alpha_den - alpha_num);
            lemma_mul_is_distributive_add(track - 1, alpha_num as int, alpha_den - alpha_num);
            lemma_mul_upper_bound(track - 1, u64::MAX - 1, alpha_den as int, u64::MAX as int);
        }
        (self.position as u128) * (alpha_num as u128) + (baseline as u128) * ((alpha_den
            - alpha_num) as u128)
    }
}

/// Endpoint law of the interpolation: for any denominator, the blend at
/// `alpha == 0` is the interpolation baseline and the blend at `alpha == 1`
/// is the current position (each scaled by the denominator); and for a step
/// that did not wrap around, the baseline is the previous position itself.
pub proof fn lemma_interpolate_endpoints(s: TimestepSimulator, alpha_den: int)
    requires
        s.wf(),
        1 <= alpha_den,
    ensures
        s.position >= s.previous_position ==> s.interpolation_baseline() == s.previous_position,
        s.blend_numerator(0, alpha_den) == s.interpolation_baseline() * alpha_den,
        s.blend_numerator(alpha_den, alpha_den) == s.position * alpha_den,
{
}

} // verus!
