use zebra_curve_transform::waveforms::{
    cp, make_curve, pulse_curve, spec_fundamental_curve, square_curve, Lcg, F_ONE, F_ZERO,
    JITTER_SEED, PRESET_SEED,
};

fn xy(c: &zebra_curve_transform::curve::BezierCurve) -> Vec<(f32, f32)> {
    c.points.iter().map(|p| (f32::from_bits(p.position.0), f32::from_bits(p.position.1))).collect()
}

#[test]
fn square_preset_points() {
    let c = square_curve();
    assert_eq!(xy(&c), vec![(0.0, 1.0), (0.499, 1.0), (0.501, 0.0), (1.0, 0.0)]);
    assert_eq!(c.curve_id, 1);
    assert_eq!(c.morph_type, "Peaks And Valleys");
}

#[test]
fn pulse_and_fundamental_presets() {
    assert_eq!(xy(&pulse_curve()), vec![(0.0, 1.0), (0.049, 1.0), (0.051, 0.0), (1.0, 0.0)]);
    assert_eq!(xy(&spec_fundamental_curve()), vec![(0.0, 1.0), (0.1, 0.0), (1.0, 0.0)]);
}

#[test]
fn make_curve_keeps_points() {
    let c = make_curve(vec![cp(F_ZERO, F_ONE)]);
    assert_eq!(c.points.len(), 1);
    assert_eq!(c.points[0].incoming, None);
    assert_eq!(c.points[0].outgoing, None);
}

#[test]
fn lcg_draws_top_bits_of_each_state() {
    let mut g = Lcg::new(PRESET_SEED);
    assert_eq!(g.next_u24(), 15314429);
    assert_eq!(g.state, 0xE9ADFDA6);
    assert_eq!(g.next_u24(), 3312376);
    assert_eq!(g.next_u24(), 7906371);
    let mut j = Lcg::new(JITTER_SEED);
    assert_eq!(j.next_u24(), 1767756);
}
