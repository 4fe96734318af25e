use zebra_curve_transform::audio::{stop, Voices};
use zebra_curve_transform::midi;
use zebra_curve_transform::session::{PlayAs, PlayRequest, Session};
use zebra_curve_transform::waveforms::sawtooth_curve;
use zebra_curve_transform::zebra_format::generate;

#[test]
fn session_starts_ready() {
    let s = Session::new();
    assert_eq!(s.status, "Ready — paste a Zebra(lette) 3 curve or click a preset.");
    assert!(s.curve.is_none());
    assert_eq!(s.fft_size, 2048);
    assert!(!s.playing);
    assert_eq!(s.play_as, PlayAs::Waveform);
}

#[test]
fn preset_then_load() {
    let mut s = Session::new();
    let text = generate(&sawtooth_curve());
    s.take_preset(text.clone());
    assert_eq!(s.paste_input, text);
    assert_eq!(s.copy_output, text);
    assert!(s.curve.is_none());
    s.load_curve();
    assert_eq!(s.status, "Loaded 2 points.");
    assert_eq!(s.curve.as_ref().unwrap().points.len(), 2);
}

#[test]
fn load_error_keeps_curve() {
    let mut s = Session::new();
    s.take_preset(generate(&sawtooth_curve()));
    s.load_curve();
    s.paste_input = String::from("garbage");
    s.load_curve();
    assert_eq!(s.status, "Parse error: No control points found");
    assert_eq!(s.curve.as_ref().unwrap().points.len(), 2);
}

#[test]
fn edit_without_curve() {
    let mut s = Session::new();
    s.playing = true;
    assert!(s.begin_edit().is_none());
    assert!(!s.playing);
    assert_eq!(s.status, "No curve loaded.");
}

#[test]
fn edit_round() {
    let mut s = Session::new();
    s.take_preset(generate(&sawtooth_curve()));
    s.load_curve();
    let c = s.begin_edit().unwrap();
    assert_eq!(c.points, sawtooth_curve().points);
    s.finish_op(c, "Flip Y");
    assert_eq!(s.status, "Flip Y.");
    assert_eq!(s.copy_output, generate(&sawtooth_curve()));
    s.finish_transform(Err(String::from("bad")));
    assert_eq!(s.status, "Transform error: bad");
    s.finish_transform(Ok(sawtooth_curve()));
    assert_eq!(s.status, "Transformed.");
}

#[test]
fn play_toggles() {
    let mut s = Session::new();
    assert_eq!(s.toggle_play(true), PlayRequest::Nothing);
    s.take_preset(generate(&sawtooth_curve()));
    s.load_curve();
    assert_eq!(s.toggle_play(false), PlayRequest::Nothing);
    assert_eq!(s.status, "Audio only available in browser.");
    assert!(!s.playing);
    s.play_as = PlayAs::Spectrum;
    assert_eq!(s.toggle_play(true), PlayRequest::PlaySpectrum);
    assert!(s.playing);
    assert_eq!(s.toggle_play(true), PlayRequest::Stop);
    assert!(!s.playing);
}

#[test]
fn stop_hands_back_the_playing_nodes() {
    let mut v: Voices<&str, u8> = Voices::new();
    v.start_source("buffer");
    v.start_osc(7);
    assert_eq!(stop(&mut v), (Some("buffer"), Some(7)));
    assert_eq!(stop(&mut v), (None, None));
    midi::init();
}

#[test]
fn export_reloads_as_the_edited_curve() {
    let mut s = Session::new();
    s.take_preset(generate(&sawtooth_curve()));
    s.load_curve();
    let mut c = s.begin_edit().unwrap();
    c.points[0].position = (0x8000_0000, 0x3F00_0000);
    s.finish_op(c, "Edit");
    s.paste_input = s.copy_output.clone();
    s.load_curve();
    assert_eq!(s.status, "Loaded 2 points.");
    let back = s.curve.as_ref().unwrap();
    assert_eq!(back.points[0].position, (0, 0x3F00_0000));
    assert_eq!(back.points[1], sawtooth_curve().points[1]);
}
