use zebra_curve_transform::capture::{armed_after, feed, keeps_samples};
use zebra_curve_transform::export::{file_name_of, preset_file_name};
use zebra_curve_transform::ring::RingBuffer;
use zebra_curve_transform::theme::{ChordPriority, TrackingMode};
use zebra_curve_transform::tracking::{choose_target, period_divisor, Interval};

#[test]
fn feed_without_capture_writes_everything() {
    let mut r = RingBuffer::new(4, 0i32);
    let block = vec![1, 2, 3];
    let rising = vec![false, true, false];
    assert_eq!(feed(&mut r, &block, &rising, 0, false), None);
    assert_eq!(r.snapshot(3), vec![1, 2, 3]);
    assert_eq!(r.write_index(), 3);
}

#[test]
fn feed_stops_after_the_first_rise_when_armed() {
    let mut r = RingBuffer::new(4, 0i32);
    r.push(9);
    r.push(9);
    r.push(9);
    let block = vec![-1, 5, -2, 6];
    let rising = vec![false, true, false, true];
    assert_eq!(feed(&mut r, &block, &rising, 0, true), Some((1, 0)));
    assert_eq!(r.write_index(), 1);
    assert_eq!(r.get(3), -1);
    assert_eq!(r.get(0), 5);
    assert_eq!(feed(&mut r, &block, &rising, 2, false), None);
    assert_eq!(r.snapshot(4), vec![-1, 5, -2, 6]);
}

#[test]
fn feed_from_the_end_writes_nothing() {
    let mut r = RingBuffer::new(2, 0u8);
    assert_eq!(feed(&mut r, &vec![1, 2], &vec![true, true], 2, true), None);
    assert_eq!(r.write_index(), 0);
}

#[test]
fn chord_targets() {
    let t = choose_target(TrackingMode::Auto, 0, ChordPriority::CommonPeriod, Interval::Fifth, true);
    assert_eq!(t.divisor, None);
    assert_eq!(t.reason, "Manual / Single note");
    let t = choose_target(TrackingMode::Auto, 1, ChordPriority::CommonPeriod, Interval::Fifth, true);
    assert_eq!((t.divisor, t.reason.as_str()), (Some(1), "MIDI input"));
    let t = choose_target(TrackingMode::Manual, 1, ChordPriority::LowestNote, Interval::Other, false);
    assert_eq!((t.divisor, t.reason.as_str()), (Some(1), "Manual frequency"));
    let t = choose_target(TrackingMode::Auto, 12, ChordPriority::LowestNote, Interval::Fifth, true);
    assert_eq!((t.divisor, t.reason.as_str()), (Some(1), "Lowest note of 12 active freqs"));
    let t = choose_target(TrackingMode::Auto, 2, ChordPriority::CommonPeriod, Interval::Fifth, true);
    assert_eq!((t.divisor, t.reason.as_str()), (Some(2), "Common period (LCM of 3:2 fifth)"));
    let t = choose_target(TrackingMode::Auto, 3, ChordPriority::CommonPeriod, Interval::MajorThird, true);
    assert_eq!((t.divisor, t.reason.as_str()), (Some(4), "Common period (LCM of 3-note chord)"));
    let t = choose_target(TrackingMode::Auto, 3, ChordPriority::CommonPeriod, Interval::MinorThird, false);
    assert_eq!((t.divisor, t.reason.as_str()), (Some(5), "Common period (LCM of 6:5 minor third)"));
    let t = choose_target(TrackingMode::Manual, 3, ChordPriority::CommonPeriod, Interval::Other, true);
    assert_eq!((t.divisor, t.reason.as_str()), (Some(1), "Lowest note (fallback, complex ratio)"));
    let t = choose_target(TrackingMode::Manual, 2, ChordPriority::CommonPeriod, Interval::Octave, true);
    assert_eq!((t.divisor, t.reason.as_str()), (Some(1), "Common period (Octave)"));
    let t = choose_target(TrackingMode::Manual, 2, ChordPriority::CommonPeriod, Interval::Fourth, false);
    assert_eq!((t.divisor, t.reason.as_str()), (Some(3), "Common period (LCM of 4:3 fourth)"));
    assert_eq!(period_divisor(Interval::Other), None);
}

#[test]
fn preset_file_names() {
    assert_eq!(preset_file_name("spec", "Fund."), "spec_fund.txt");
    assert_eq!(preset_file_name("geo", "Saw"), "geo_saw.txt");
    assert_eq!(preset_file_name("geo", "ÀB.C"), "geo_àbc.txt");
    assert_eq!(file_name_of("geo", "a.b.c"), "geo_abc.txt");
}

#[test]
fn sleep_gating_and_disarm() {
    assert!(!keeps_samples(false, false));
    assert!(keeps_samples(true, false));
    assert!(keeps_samples(false, true));
    assert!(!armed_after(true, Some((3, 7))));
    assert!(armed_after(true, None));
    assert!(!armed_after(false, None));
}
