//! Colour themes of the user interfaces, and what the web app shows for a
//! theme choice. Setting the visuals on the UI context is the program's part.
use vstd::prelude::*;

verus! {

/// The theme choice.
#[derive(Debug, PartialEq, Eq, Clone, Copy, Structural)]
pub enum Theme {
    Auto,
    Dark,
    Light,
}

/// Dark or light visuals.
#[derive(Debug, PartialEq, Eq, Clone, Copy, Structural)]
pub enum Shade {
    Dark,
    Light,
}

/// The web app's theme: the visuals to set for `theme`; `None` under `Auto`,
/// where the browser and eframe choose well by default.
pub fn apply(theme: Theme) -> (res: Option<Shade>)
    ensures
        theme == Theme::Auto ==> res is None,
        theme == Theme::Dark ==> res == Some(Shade::Dark),
        theme == Theme::Light ==> res == Some(Shade::Light),
{
    match theme {
        Theme::Auto => None,
        Theme::Dark => Some(Shade::Dark),
        Theme::Light => Some(Shade::Light),
    }
}

/// Which interpretation a captured or edited curve is meant for.
#[derive(Debug, PartialEq, Eq, Clone, Copy, Structural)]
pub enum CurveDomain {
    Geometry,
    Spectrum,
}

/// Where the sampler takes the capture length from: incoming MIDI notes or
/// the manual frequency boxes.
#[derive(Debug, PartialEq, Eq, Clone, Copy, Structural)]
pub enum TrackingMode {
    Auto,
    Manual,
}

/// How the sampler treats chords: follow the lowest note, or look for a
/// period that all notes share.
#[derive(Debug, PartialEq, Eq, Clone, Copy, Structural)]
pub enum ChordPriority {
    LowestNote,
    CommonPeriod,
}

} // verus!
