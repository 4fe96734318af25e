//! Playback bookkeeping: which sound nodes are currently playing, so that
//! they can be stopped. The nodes themselves (Web Audio buffer sources and
//! oscillators) belong to the program; the library keeps them in their slots.
use vstd::prelude::*;

verus! {

/// The currently playing buffer source (waveform playback) and oscillator
/// (spectral playback), where there is one.
pub struct Voices<S, O> {
    pub source: Option<S>,
    pub osc: Option<O>,
}

impl<S, O> Voices<S, O> {
    /// Nothing playing.
    pub fn new() -> (res: Self)
        ensures
            res.source is None,
            res.osc is None,
    {
        Voices { source: None, osc: None }
    }

    /// Keeps `source` as the playing buffer source (after a successful start).
    pub fn start_source(&mut self, source: S)
        ensures
            final(self).source == Some(source),
            final(self).osc == old(self).osc,
    {
        self.source = Some(source);
    }

    /// Keeps `osc` as the playing oscillator (after a successful start).
    pub fn start_osc(&mut self, osc: O)
        ensures
            final(self).osc == Some(osc),
            final(self).source == old(self).source,
    {
        self.osc = Some(osc);
    }
}

/// Stop any currently playing sound: takes the playing source and oscillator
/// out of their slots and hands them back for the program to stop.
pub fn stop<S, O>(voices: &mut Voices<S, O>) -> (res: (Option<S>, Option<O>))
    ensures
        final(voices).source is None,
        final(voices).osc is None,
        res == (old(voices).source, old(voices).osc),
{
    let source = voices.source.take();
    let osc = voices.osc.take();
    (source, osc)
}

} // verus!
