use zebra_curve_transform::notes::{lowest_note, note_off, note_on};
use zebra_curve_transform::ring::RingBuffer;
use zebra_curve_transform::sampler_theme;
use zebra_curve_transform::theme::{apply, Shade, Theme};

#[test]
fn ring_push_wraps_and_returns_previous() {
    let mut r = RingBuffer::new(3, 0i32);
    assert_eq!(r.len(), 3);
    assert_eq!(r.push(1), 0);
    assert_eq!(r.push(2), 1);
    assert_eq!(r.push(3), 2);
    assert_eq!(r.write_index(), 0);
    assert_eq!(r.push(4), 3);
    assert_eq!(r.get(0), 4);
    assert_eq!(r.write_index(), 1);
}

#[test]
fn ring_snapshot_is_the_most_recent_oldest_first() {
    let mut r = RingBuffer::new(4, 0u8);
    for v in 1..=6u8 {
        r.push(v);
    }
    assert_eq!(r.snapshot(4), vec![3, 4, 5, 6]);
    assert_eq!(r.snapshot(2), vec![5, 6]);
    assert_eq!(r.snapshot(0), Vec::<u8>::new());
}

#[test]
fn ring_cubic_neighbours_wrap() {
    let r = RingBuffer::new(5, 0u8);
    assert_eq!(r.cubic_neighbours(0), (4, 0, 1, 2));
    assert_eq!(r.cubic_neighbours(4), (3, 4, 0, 1));
    assert_eq!(r.cubic_neighbours(3), (2, 3, 4, 0));
    let one = RingBuffer::new(1, 0u8);
    assert_eq!(one.cubic_neighbours(0), (0, 0, 0, 0));
}

#[test]
fn notes_stay_sorted_and_release_all_copies() {
    let mut held: Vec<u8> = Vec::new();
    assert_eq!(lowest_note(&held), None);
    note_on(&mut held, 64);
    note_on(&mut held, 60);
    note_on(&mut held, 67);
    note_on(&mut held, 60);
    assert_eq!(held, vec![60, 60, 64, 67]);
    assert_eq!(lowest_note(&held), Some(60));
    note_off(&mut held, 60);
    assert_eq!(held, vec![64, 67]);
    note_off(&mut held, 99);
    assert_eq!(held, vec![64, 67]);
}

#[test]
fn note_on_then_off_restores() {
    let mut held = vec![40u8, 50, 70];
    note_on(&mut held, 55);
    assert_eq!(held, vec![40, 50, 55, 70]);
    note_off(&mut held, 55);
    assert_eq!(held, vec![40, 50, 70]);
}

#[test]
fn themes() {
    assert_eq!(apply(Theme::Auto), None);
    assert_eq!(apply(Theme::Dark), Some(Shade::Dark));
    assert_eq!(apply(Theme::Light), Some(Shade::Light));
    assert_eq!(sampler_theme::apply(Theme::Auto, Some(Shade::Light), true), Shade::Light);
    assert_eq!(sampler_theme::apply(Theme::Auto, None, true), Shade::Dark);
    assert_eq!(sampler_theme::apply(Theme::Auto, None, false), Shade::Light);
    assert_eq!(sampler_theme::apply(Theme::Light, Some(Shade::Dark), true), Shade::Light);
    assert_eq!(sampler_theme::apply(Theme::Dark, None, false), Shade::Dark);
}
