//! Zebra(lette) 3 curve tools: the clipboard curve format, preset curves and
//! the bookkeeping around capture and playback, with verified contracts.
use vstd::prelude::*;

pub mod text;
pub mod curve;
pub mod zebra_format;
pub mod format_laws;
pub mod waveforms;
pub mod ring;
pub mod capture;
pub mod tracking;
pub mod notes;
pub mod spectral;
pub mod theme;
pub mod sampler_theme;
pub mod audio;
pub mod midi;
pub mod session;
pub mod export;

verus! {
}

