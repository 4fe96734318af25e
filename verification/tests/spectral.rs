use zebra_curve_transform::spectral::{keep_odd_harmonics, octave_up, phase_normalize};

#[test]
fn octave_up_moves_harmonic_k_to_2k() {
    let src = vec![1.0f32, 2.0, 3.0, 4.0, 5.0];
    assert_eq!(octave_up(&src, 0.0), vec![0.0, 1.0, 0.0, 2.0, 0.0]);
    assert_eq!(octave_up(&Vec::<f32>::new(), 0.0), Vec::<f32>::new());
}

#[test]
fn thin_keeps_odd_harmonics() {
    let amps = vec![1, 2, 3, 4, 5];
    assert_eq!(keep_odd_harmonics(&amps, 0), vec![1, 0, 3, 0, 5]);
    assert_eq!(keep_odd_harmonics(&keep_odd_harmonics(&amps, 0), 0), vec![1, 0, 3, 0, 5]);
    assert_eq!(keep_odd_harmonics(&octave_up(&amps, 0), 0), vec![0, 0, 0, 0, 0]);
}

#[test]
fn phase_normalize_starts_after_upward_crossing() {
    let mut s = vec![0.6f32, 0.4, 0.3, 0.7, 0.8];
    let below: Vec<bool> = s.iter().map(|&v| v < 0.5).collect();
    let above: Vec<bool> = s.iter().map(|&v| v >= 0.5).collect();
    phase_normalize(&mut s, &below, &above);
    assert_eq!(s, vec![0.7, 0.8, 0.6, 0.4, 0.3]);
}

#[test]
fn phase_normalize_crossing_at_the_wrap() {
    let mut s = vec![0.9f32, 0.8, 0.2];
    let below: Vec<bool> = s.iter().map(|&v| v < 0.5).collect();
    let above: Vec<bool> = s.iter().map(|&v| v >= 0.5).collect();
    phase_normalize(&mut s, &below, &above);
    assert_eq!(s, vec![0.9, 0.8, 0.2]);
    let mut flat = vec![0.5f32; 4];
    let below = vec![false; 4];
    let above = vec![true; 4];
    phase_normalize(&mut flat, &below, &above);
    assert_eq!(flat, vec![0.5; 4]);
}

#[test]
fn phase_normalize_needs_the_next_sample_at_or_above() {
    // A sample that is not a number is neither below nor at or above the line.
    let mut s = vec![0.2f32, f32::NAN, 0.7, 0.3];
    let below: Vec<bool> = s.iter().map(|&v| v < 0.5).collect();
    let above: Vec<bool> = s.iter().map(|&v| v >= 0.5).collect();
    phase_normalize(&mut s, &below, &above);
    // No crossing: after 0.2 comes NaN, and after 0.3 comes 0.2.
    assert_eq!(s.len(), 4);
    assert_eq!(s[0], 0.2);
    assert!(s[1].is_nan());
    assert_eq!(&s[2..], &[0.7, 0.3]);
    let mut t = vec![0.2f32, f32::NAN, 0.1, 0.9];
    let below: Vec<bool> = t.iter().map(|&v| v < 0.5).collect();
    let above: Vec<bool> = t.iter().map(|&v| v >= 0.5).collect();
    phase_normalize(&mut t, &below, &above);
    assert_eq!(t[0], 0.9);
    assert_eq!(t[1], 0.2);
    assert!(t[2].is_nan());
    assert_eq!(t[3], 0.1);
}
