use zebra_curve_transform::curve::{BezierCurve, ControlPoint};
use zebra_curve_transform::waveforms::{sawtooth_curve, triangle_curve};
use zebra_curve_transform::zebra_format::{generate, parse};

const SAMPLE: &str = "// u-he Bezier Curve\n\
    // Version 1.0\n\
    Curve ID = 1 MorphType = 'Peaks And Valleys'\n\
    PX XY = '0/3F006807' OV = '3EB65325/3E9BF21C' \n\
    PX XY = '3E4CCCCD/3F5CD30E' IV = '3F2FE8E0/3F24346D' OV = '3EBE0644/3EA36414' \n\
    PX XY = '3ECCCCCD/3E530DAC' IV = '3F20882E/3F3DD28A' OV = '3E8A67BA/3F1AC7AB' \n\
    PX XY = '3F19999A/3F33C948' IV = '3F164181/3F800000' OV = '3EBA0CFA/0' \n\
    PX XY = '3F19999A/3F006807' IV = '3F22F983/3F800000' OV = '3EAAAAAB/3EAAAAAB' \n\
    PX XY = '3F4CCCCD/3DFA2330' IV = '3F2AAAAB/3F2AAAAB' OV = '3EAAAAAB/3EAAAAAB' \n\
    PX XY = '3F800000/3F006807' IV = '3F2AAAAB/3F2AAAAB' \n";

const SINE: &str = "// u-he Bezier Curve\n\
    // Version 1.0\n\
    Curve ID = 1 MorphType = 'Peaks And Valleys'\n\
    PX XY = '0/3F000000' OV = '3EA2F980/3F000000' \n\
    PX XY = '3E800000/3F800000' IV = '3F22F980/3F800000' OV = '3EBA0CFA/0' \n\
    PX XY = '3E800000/3F800000' IV = '3F22F983/3F800000' OV = '3EBA0CFA/0' \n\
    PX XY = '3F400000/0' IV = '3F22F983/3F800000' OV = '3EBA0CF8/0' \n\
    PX XY = '3F800000/3F000000' IV = '3F2E8340/3F000000' \n";

fn x(p: &ControlPoint) -> f32 {
    f32::from_bits(p.position.0)
}

fn y(p: &ControlPoint) -> f32 {
    f32::from_bits(p.position.1)
}

#[test]
fn sine_parses() {
    let curve = parse(SINE).unwrap();
    assert_eq!(curve.points.len(), 5);
    let p1 = &curve.points[1];
    let p2 = &curve.points[2];
    assert!((x(p1) - x(p2)).abs() < 1e-6);
    assert!((y(p1) - y(p2)).abs() < 1e-6);
}

#[test]
fn parse_point_count() {
    let curve = parse(SAMPLE).unwrap();
    assert_eq!(curve.points.len(), 7);
    assert_eq!(curve.morph_type, "Peaks And Valleys");
}

#[test]
fn first_point_values() {
    let curve = parse(SAMPLE).unwrap();
    let p0 = &curve.points[0];
    assert!((x(p0) - 0.0).abs() < 1e-5, "x={}", x(p0));
    assert!((y(p0) - 0.502).abs() < 1e-2, "y={}", y(p0));
    assert!(p0.incoming.is_none());
    assert!(p0.outgoing.is_some());
}

#[test]
fn round_trip() {
    let curve = parse(SAMPLE).unwrap();
    let text = generate(&curve);
    let reparsed = parse(&text).unwrap();
    assert_eq!(reparsed.points.len(), curve.points.len());
    for (a, b) in curve.points.iter().zip(reparsed.points.iter()) {
        assert!((x(a) - x(b)).abs() < 1e-6);
        assert!((y(a) - y(b)).abs() < 1e-6);
    }
}

#[test]
fn parse_reads_every_field_of_a_point() {
    let curve = parse(SAMPLE).unwrap();
    let p3 = &curve.points[3];
    assert_eq!(p3.position, (0x3F19999A, 0x3F33C948));
    assert_eq!(p3.incoming, Some((0x3F164181, 0x3F800000)));
    assert_eq!(p3.outgoing, Some((0x3EBA0CFA, 0)));
    let last = &curve.points[6];
    assert_eq!(last.outgoing, None);
    assert_eq!(f32::from_bits(last.position.0), 1.0);
    assert_eq!(curve.curve_id, 1);
}

#[test]
fn parse_without_points_is_an_error() {
    assert_eq!(parse("").unwrap_err(), "No control points found");
    assert_eq!(
        parse("// u-he Bezier Curve\nCurve ID = 2 MorphType = 'X'\n").unwrap_err(),
        "No control points found"
    );
}

#[test]
fn parse_bad_position_names_the_trimmed_line() {
    let err = parse("PX XY = '0/3F80'\n   PX XY = 'zz/0' OV = '0/0'  \n").unwrap_err();
    assert_eq!(err, "Missing XY in: PX XY = 'zz/0' OV = '0/0'");
    let err = parse("PX XY no quotes").unwrap_err();
    assert_eq!(err, "Missing XY in: PX XY no quotes");
}

#[test]
fn parse_header_sets_id_and_morph_type() {
    let curve = parse("Curve ID = 42 MorphType = 'Smooth'\r\nPX XY = '0/3F800000'\r\n").unwrap();
    assert_eq!(curve.curve_id, 42);
    assert_eq!(curve.morph_type, "Smooth");
    assert_eq!(curve.points[0].position, (0, 0x3F800000));
}

#[test]
fn parse_defaults_without_header_and_on_bad_id() {
    let curve = parse("PX XY = '3F000000/0'").unwrap();
    assert_eq!(curve.curve_id, 1);
    assert_eq!(curve.morph_type, "Peaks And Valleys");
    let curve = parse("Curve ID = seven MorphType = 'M'\nPX XY = '0/0'").unwrap();
    assert_eq!(curve.curve_id, 1);
    assert_eq!(curve.morph_type, "M");
}

#[test]
fn parse_ignores_invalid_handles_and_other_lines() {
    let curve = parse("hello\nPX XY = '0/0' IV = 'q/1' OV = '+3F800000/ 0 '\n").unwrap();
    assert_eq!(curve.points.len(), 1);
    assert_eq!(curve.points[0].incoming, None);
    assert_eq!(curve.points[0].outgoing, Some((0x3F800000, 0)));
}

#[test]
fn generate_writes_the_clipboard_text() {
    let text = generate(&sawtooth_curve());
    assert_eq!(
        text,
        "// u-he Bezier Curve\n// Version 1.0\nCurve ID = 1 MorphType = 'Peaks And Valleys'\n\
         PX XY = '0/3F800000'\nPX XY = '3F800000/0'\n"
    );
}

#[test]
fn generate_writes_handles_and_negative_zero_as_zero() {
    let curve = BezierCurve {
        points: vec![ControlPoint {
            position: (0x8000_0000, 0x3E800000),
            incoming: Some((0x0000_0001, 0xBF800000)),
            outgoing: Some((0xAB, 0)),
        }],
        curve_id: 3,
        morph_type: String::from("Wavy"),
    };
    assert_eq!(
        generate(&curve),
        "// u-he Bezier Curve\n// Version 1.0\nCurve ID = 3 MorphType = 'Wavy'\n\
         PX XY = '0/3E800000' IV = '00000001/BF800000' OV = '000000AB/0'\n"
    );
}

#[test]
fn generated_text_reads_back_normalized() {
    let curve = BezierCurve {
        points: vec![ControlPoint { position: (0x8000_0000, 7), incoming: None, outgoing: Some((1, 2)) }],
        curve_id: 9,
        morph_type: String::from("A B"),
    };
    let back = parse(&generate(&curve)).unwrap();
    assert_eq!(back.curve_id, 9);
    assert_eq!(back.morph_type, "A B");
    assert_eq!(back.points, vec![ControlPoint { position: (0, 7), incoming: None, outgoing: Some((1, 2)) }]);
    let text = generate(&triangle_curve());
    assert_eq!(generate(&parse(&text).unwrap()), text);
}
