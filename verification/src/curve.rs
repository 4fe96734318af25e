//! The piecewise cubic Bézier curve of one Zebra(lette) 3 oscillator cycle.
//!
//! Coordinates are IEEE 754 single-precision numbers; the library holds each
//! as its 32-bit pattern (what `f32::to_bits` gives), which is also how the
//! clipboard format writes them. Evaluating and fitting curves is floating
//! point work that the program around the library does.
use vstd::prelude::*;

verus! {

/// A pair of coordinates, each an `f32` bit pattern.
pub type BitsPair = (u32, u32);

/// A single control point on the Bézier curve.
#[derive(Clone, Copy, Debug, PartialEq)]
pub struct ControlPoint {
    /// Position in 0–1 space (x = phase, y = amplitude where 0.5 = zero).
    pub position: BitsPair,
    /// Incoming tangent handle (IV), absent on the first point.
    pub incoming: Option<BitsPair>,
    /// Outgoing tangent handle (OV), absent on the last point.
    pub outgoing: Option<BitsPair>,
}

/// A complete piecewise cubic Bézier curve (one waveform cycle).
#[derive(Clone, Debug)]
pub struct BezierCurve {
    pub points: Vec<ControlPoint>,
    pub curve_id: u32,
    pub morph_type: String,
}

/// What a `BezierCurve` holds, as mathematical values.
pub struct CurveView {
    pub points: Seq<ControlPoint>,
    pub curve_id: u32,
    pub morph_type: Seq<char>,
}

impl View for BezierCurve {
    type V = CurveView;

    open spec fn view(&self) -> CurveView {
        CurveView { points: self.points@, curve_id: self.curve_id, morph_type: self.morph_type@ }
    }
}

impl BezierCurve {
    /// A copy of the curve with the same points, id and morph type.
    pub fn duplicate(&self) -> (res: BezierCurve)
        ensures
            res@ == self@,
    {
        let mut points: Vec<ControlPoint> = Vec::new();
        let mut i: usize = 0;
        while i < self.points.len()
            invariant
                i <= self.points.len(),
                points@ == self.points@.take(i as int),
            decreases self.points.len() - i,
        {
            points.push(self.points[i]);
            i = i + 1;
            assert(points@ =~= self.points@.take(i as int));
        }
        assert(points@ =~= self.points@);
        let morph_type = crate::text::string_of(&crate::text::chars_of(self.morph_type.as_str()));
        BezierCurve { points, curve_id: self.curve_id, morph_type }
    }
}

} // verus!
