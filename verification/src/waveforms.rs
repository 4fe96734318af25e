//! Preset waveforms and the pseudo-random generator behind the "Chaos" and
//! "Jitter" buttons.
//!
//! Simple geometric shapes are direct-construct curves (minimal points, exact
//! shape); each coordinate is written as the bits of its `f32` value. Smooth
//! and random presets are fitted to float samples by the program around the
//! library, which draws its random numbers from [`Lcg`].
use vstd::prelude::*;

use crate::curve::{BezierCurve, ControlPoint};
use crate::text::{chars_of, string_of};

verus! {

/// `0.0_f32`.
pub const F_ZERO: u32 = 0;

/// `1.0_f32`.
pub const F_ONE: u32 = 0x3F80_0000;

/// `0.5_f32`.
pub const F_HALF: u32 = 0x3F00_0000;

/// `0.25_f32`.
pub const F_QUARTER: u32 = 0x3E80_0000;

/// `0.75_f32`.
pub const F_THREE_QUARTERS: u32 = 0x3F40_0000;

/// `0.499_f32`.
pub const F_0_499: u32 = 0x3EFF_7CEE;

/// `0.501_f32`.
pub const F_0_501: u32 = 0x3F00_4189;

/// `0.049_f32`.
pub const F_0_049: u32 = 0x3D48_B439;

/// `0.051_f32`.
pub const F_0_051: u32 = 0x3D50_E560;

/// `0.1_f32`.
pub const F_TENTH: u32 = 0x3DCC_CCCD;

/// A control point without handles (straight segments on both sides).
pub open spec fn spec_cp(x: u32, y: u32) -> ControlPoint {
    ControlPoint { position: (x, y), incoming: None, outgoing: None }
}

/// A control point without handles.
pub fn cp(x: u32, y: u32) -> (res: ControlPoint)
    ensures
        res == spec_cp(x, y),
{
    ControlPoint { position: (x, y), incoming: None, outgoing: None }
}

/// A preset curve: id 1, morph type "Peaks And Valleys", the given points.
pub fn make_curve(points: Vec<ControlPoint>) -> (res: BezierCurve)
    ensures
        res@.points == points@,
        res@.curve_id == 1,
        res@.morph_type == "Peaks And Valleys"@,
{
    BezierCurve { points, curve_id: 1, morph_type: string_of(&chars_of("Peaks And Valleys")) }
}

/// Falling straight line y=1→0. Two points without handles are a line.
pub fn sawtooth_curve() -> (res: BezierCurve)
    ensures
        res@.points == seq![spec_cp(F_ZERO, F_ONE), spec_cp(F_ONE, F_ZERO)],
        res@.curve_id == 1,
        res@.morph_type == "Peaks And Valleys"@,
{
    let mut pts: Vec<ControlPoint> = Vec::new();
    pts.push(cp(F_ZERO, F_ONE));
    pts.push(cp(F_ONE, F_ZERO));
    assert(pts@ =~= seq![spec_cp(F_ZERO, F_ONE), spec_cp(F_ONE, F_ZERO)]);
    make_curve(pts)
}

/// Flat top, steep near-vertical drop at x=0.5, flat bottom (the transition
/// spans Δx=0.002).
pub fn square_curve() -> (res: BezierCurve)
    ensures
        res@.points == seq![
            spec_cp(F_ZERO, F_ONE),
            spec_cp(F_0_499, F_ONE),
            spec_cp(F_0_501, F_ZERO),
            spec_cp(F_ONE, F_ZERO),
        ],
        res@.curve_id == 1,
        res@.morph_type == "Peaks And Valleys"@,
{
    let mut pts: Vec<ControlPoint> = Vec::new();
    pts.push(cp(F_ZERO, F_ONE));
    pts.push(cp(F_0_499, F_ONE));
    pts.push(cp(F_0_501, F_ZERO));
    pts.push(cp(F_ONE, F_ZERO));
    assert(pts@ =~= seq![
        spec_cp(F_ZERO, F_ONE),
        spec_cp(F_0_499, F_ONE),
        spec_cp(F_0_501, F_ZERO),
        spec_cp(F_ONE, F_ZERO),
    ]);
    make_curve(pts)
}

/// Peak at x=0.25, trough at x=0.75, zero crossings at x=0, 0.5 and 1.
pub fn triangle_curve() -> (res: BezierCurve)
    ensures
        res@.points == seq![
            spec_cp(F_ZERO, F_HALF),
            spec_cp(F_QUARTER, F_ONE),
            spec_cp(F_THREE_QUARTERS, F_ZERO),
            spec_cp(F_ONE, F_HALF),
        ],
        res@.curve_id == 1,
        res@.morph_type == "Peaks And Valleys"@,
{
    let mut pts: Vec<ControlPoint> = Vec::new();
    pts.push(cp(F_ZERO, F_HALF));
    pts.push(cp(F_QUARTER, F_ONE));
    pts.push(cp(F_THREE_QUARTERS, F_ZERO));
    pts.push(cp(F_ONE, F_HALF));
    assert(pts@ =~= seq![
        spec_cp(F_ZERO, F_HALF),
        spec_cp(F_QUARTER, F_ONE),
        spec_cp(F_THREE_QUARTERS, F_ZERO),
        spec_cp(F_ONE, F_HALF),
    ]);
    make_curve(pts)
}

/// 5% duty cycle; the transition spans Δx=0.002 like the square wave's.
pub fn pulse_curve() -> (res: BezierCurve)
    ensures
        res@.points == seq![
            spec_cp(F_ZERO, F_ONE),
            spec_cp(F_0_049, F_ONE),
            spec_cp(F_0_051, F_ZERO),
            spec_cp(F_ONE, F_ZERO),
        ],
        res@.curve_id == 1,
        res@.morph_type == "Peaks And Valleys"@,
{
    let mut pts: Vec<ControlPoint> = Vec::new();
    pts.push(cp(F_ZERO, F_ONE));
    pts.push(cp(F_0_049, F_ONE));
    pts.push(cp(F_0_051, F_ZERO));
    pts.push(cp(F_ONE, F_ZERO));
    assert(pts@ =~= seq![
        spec_cp(F_ZERO, F_ONE),
        spec_cp(F_0_049, F_ONE),
        spec_cp(F_0_051, F_ZERO),
        spec_cp(F_ONE, F_ZERO),
    ]);
    make_curve(pts)
}

/// Spectrum preset: a linear ramp 1→0 across the first harmonic cell
/// [x=0, x=0.1], then flat zero. Harmonic 1 (x=0) reads 1.0; harmonics 2
/// and up (x ≥ 0.1) read 0.0.
pub fn spec_fundamental_curve() -> (res: BezierCurve)
    ensures
        res@.points == seq![
            spec_cp(F_ZERO, F_ONE),
            spec_cp(F_TENTH, F_ZERO),
            spec_cp(F_ONE, F_ZERO),
        ],
        res@.curve_id == 1,
        res@.morph_type == "Peaks And Valleys"@,
{
    let mut pts: Vec<ControlPoint> = Vec::new();
    pts.push(cp(F_ZERO, F_ONE));
    pts.push(cp(F_TENTH, F_ZERO));
    pts.push(cp(F_ONE, F_ZERO));
    assert(pts@ =~= seq![spec_cp(F_ZERO, F_ONE), spec_cp(F_TENTH, F_ZERO), spec_cp(F_ONE, F_ZERO)]);
    make_curve(pts)
}

// ── linear congruential generator ───────────────────────────────────────────

/// The seed of the generator behind the preset "Chaos" buttons.
pub const PRESET_SEED: u32 = 0x6D2B_50A3;

/// The seed of the generator behind the "Jitter" transforms (a separate
/// state, so jitter and presets do not interfere).
pub const JITTER_SEED: u32 = 0xA3D1_F4B2;

/// One step of the generator: `state * 1664525 + 1013904223` modulo 2³².
pub open spec fn lcg_step(state: u32) -> u32 {
    ((state as nat * 1_664_525 + 1_013_904_223) % 0x1_0000_0000) as u32
}

/// The state after `n` steps from `seed`.
pub open spec fn lcg_state(seed: u32, n: nat) -> u32
    decreases n,
{
    if n == 0 {
        seed
    } else {
        lcg_step(lcg_state(seed, (n - 1) as nat))
    }
}

/// A linear congruential generator; each draw is the top 24 bits of the
/// next state, which the program divides by 2²⁴ for a float in [0, 1).
pub struct Lcg {
    pub state: u32,
}

impl Lcg {
    /// A generator starting from `seed`.
    pub fn new(seed: u32) -> (res: Lcg)
        ensures
            res.state == seed,
    {
        Lcg { state: seed }
    }

    /// Advances the state and returns its top 24 bits.
    pub fn next_u24(&mut self) -> (res: u32)
        ensures
            final(self).state == lcg_step(old(self).state),
            res == final(self).state / 256,
            res < 0x100_0000,
    {
        let v = self.state.wrapping_mul(1_664_525).wrapping_add(1_013_904_223);
        assert(v == lcg_step(self.state)) by {
            let s = self.state as int;
            vstd::arithmetic::div_mod::lemma_add_mod_noop(
                s * 1_664_525,
                1_013_904_223,
                0x1_0000_0000,
            );
            vstd::arithmetic::div_mod::lemma_small_mod(1_013_904_223, 0x1_0000_0000);
        }
        self.state = v;
        assert(v >> 8 == v / 256) by (bit_vector);
        v >> 8
    }
}

} // verus!
