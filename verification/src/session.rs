//! The state of the Curve Jumbler web app and the decisions its buttons make:
//! loading a pasted curve, taking a preset, handing the current curve to a
//! transform and taking the result back, and starting or stopping playback.
//! Drawing the UI, running the floating-point transforms and playing sound
//! are the program's part; it reports their outcomes back here.
use vstd::prelude::*;

use crate::curve::{BezierCurve, CurveView};
use crate::text::{chars_of, decimal, push_decimal, push_str, string_of};
use crate::zebra_format::{generate, parse, spec_generate, spec_parse};

verus! {

broadcast use vstd::string::group_string_axioms;

/// How the current curve is played: as one waveform cycle, or as the
/// harmonic amplitudes of a spectrum.
#[derive(Debug, PartialEq, Eq, Clone, Copy, Structural)]
pub enum PlayAs {
    Waveform,
    Spectrum,
}

/// Which way a domain transform goes.
#[derive(Debug, PartialEq, Eq, Clone, Copy, Structural)]
pub enum Direction {
    /// Geometry → Spectrum.
    Forward,
    /// Spectrum → Geometry.
    Inverse,
}

/// What the Play/Stop button asks of the audio side.
#[derive(Debug, PartialEq, Eq, Clone, Copy, Structural)]
pub enum PlayRequest {
    /// Stop what is playing.
    Stop,
    /// Play the current curve as a waveform.
    PlayWaveform,
    /// Play the current curve as a spectrum.
    PlaySpectrum,
    /// Nothing to do.
    Nothing,
}

/// The app's state (its UI-only values, such as the playback pitch and
/// volume, stay with the program).
pub struct Session {
    pub paste_input: String,
    pub copy_output: String,
    pub curve: Option<BezierCurve>,
    pub fft_size: usize,
    pub status: String,
    pub playing: bool,
    pub play_as: PlayAs,
}

/// The request that plays the current curve as chosen.
pub open spec fn play_request(play_as: PlayAs) -> PlayRequest {
    match play_as {
        PlayAs::Waveform => PlayRequest::PlayWaveform,
        PlayAs::Spectrum => PlayRequest::PlaySpectrum,
    }
}

/// The view of an optional curve.
pub open spec fn curve_view(c: Option<BezierCurve>) -> Option<CurveView> {
    match c {
        Some(k) => Some(k@),
        None => None,
    }
}

/// The status line after a curve of `n` points was loaded.
pub open spec fn loaded_status(n: nat) -> Seq<char> {
    "Loaded "@ + decimal(n) + " points."@
}

/// The status line at start.
pub open spec fn ready_status() -> Seq<char> {
    "Ready — paste a Zebra(lette) 3 curve or click a preset."@
}

/// The status line where an edit finds no curve.
pub open spec fn no_curve_status() -> Seq<char> {
    "No curve loaded."@
}

impl Session {
    /// The state at start: nothing pasted or loaded, FFT size 2048.
    pub fn new() -> (res: Session)
        ensures
            res.paste_input@ == Seq::<char>::empty(),
            res.copy_output@ == Seq::<char>::empty(),
            res.curve is None,
            res.fft_size == 2048,
            res.status@ == ready_status(),
            !res.playing,
            res.play_as == PlayAs::Waveform,
    {
        Session {
            paste_input: String::new(),
            copy_output: String::new(),
            curve: None,
            fft_size: 2048,
            status: string_of(&chars_of("Ready — paste a Zebra(lette) 3 curve or click a preset.")),
            playing: false,
            play_as: PlayAs::Waveform,
        }
    }

    /// "Load Curve": parses the pasted text. On success the curve replaces
    /// the current one and the status counts its points; otherwise the status
    /// shows the parse error and the current curve stays.
    pub fn load_curve(&mut self)
        ensures
            final(self).paste_input == old(self).paste_input,
            final(self).copy_output == old(self).copy_output,
            final(self).fft_size == old(self).fft_size,
            final(self).playing == old(self).playing,
            final(self).play_as == old(self).play_as,
            match spec_parse(old(self).paste_input@) {
                Ok(c) => curve_view(final(self).curve) == Some(c) && final(self).status@
                    == loaded_status(c.points.len()),
                Err(e) => final(self).curve == old(self).curve && final(self).status@
                    == "Parse error: "@ + e,
            },
    {
        match parse(self.paste_input.as_str()) {
            Ok(c) => {
                let mut status = String::new();
                push_str(&mut status, "Loaded ");
                push_decimal(&mut status, c.points.len() as u64);
                push_str(&mut status, " points.");
                assert(status@ =~= loaded_status(c@.points.len()));
                self.status = status;
                self.curve = Some(c);
            },
            Err(e) => {
                let mut status = String::new();
                push_str(&mut status, "Parse error: ");
                push_str(&mut status, e.as_str());
                assert(status@ =~= "Parse error: "@ + e@);
                self.status = status;
            },
        }
    }

    /// A preset button: its text goes into both the paste box and the export
    /// box (it is loaded with "Load Curve").
    pub fn take_preset(&mut self, text: String)
        ensures
            final(self).paste_input@ == text@,
            final(self).copy_output@ == text@,
            final(self).curve == old(self).curve,
            final(self).status == old(self).status,
            final(self).fft_size == old(self).fft_size,
            final(self).playing == old(self).playing,
            final(self).play_as == old(self).play_as,
    {
        self.paste_input = string_of(&chars_of(text.as_str()));
        self.copy_output = text;
    }

    /// The start of a transform (a curve operation or a domain transform):
    /// playback stops, and the transform gets a copy of the current curve;
    /// without one the status says so and there is nothing to transform.
    pub fn begin_edit(&mut self) -> (res: Option<BezierCurve>)
        ensures
            !final(self).playing,
            curve_view(res) == curve_view(old(self).curve),
            final(self).curve == old(self).curve,
            old(self).curve is None ==> final(self).status@ == no_curve_status(),
            old(self).curve is Some ==> final(self).status == old(self).status,
            final(self).paste_input == old(self).paste_input,
            final(self).copy_output == old(self).copy_output,
            final(self).fft_size == old(self).fft_size,
            final(self).play_as == old(self).play_as,
    {
        self.playing = false;
        match &self.curve {
            Some(c) => Some(c.duplicate()),
            None => {
                self.status = string_of(&chars_of("No curve loaded."));
                None
            },
        }
    }

    /// The end of a curve operation named `label`: its result becomes the
    /// current curve, and its clipboard text the export.
    pub fn finish_op(&mut self, new_curve: BezierCurve, label: &str)
        ensures
            curve_view(final(self).curve) == Some(new_curve@),
            final(self).copy_output@ == spec_generate(new_curve@),
            final(self).status@ == label@ + "."@,
            final(self).paste_input == old(self).paste_input,
            final(self).fft_size == old(self).fft_size,
            final(self).playing == old(self).playing,
            final(self).play_as == old(self).play_as,
    {
        self.copy_output = generate(&new_curve);
        let mut status = String::new();
        push_str(&mut status, label);
        push_str(&mut status, ".");
        self.status = status;
        self.curve = Some(new_curve);
    }

    /// The end of a domain transform: on success as `finish_op` with the
    /// status "Transformed.", otherwise the status shows the error and the
    /// current curve stays.
    pub fn finish_transform(&mut self, result: Result<BezierCurve, String>)
        ensures
            final(self).paste_input == old(self).paste_input,
            final(self).fft_size == old(self).fft_size,
            final(self).playing == old(self).playing,
            final(self).play_as == old(self).play_as,
            match result {
                Ok(c) => curve_view(final(self).curve) == Some(c@) && final(self).copy_output@
                    == spec_generate(c@) && final(self).status@ == "Transformed."@,
                Err(e) => final(self).curve == old(self).curve && final(self).copy_output
                    == old(self).copy_output && final(self).status@ == "Transform error: "@ + e@,
            },
    {
        match result {
            Ok(c) => {
                self.copy_output = generate(&c);
                self.status = string_of(&chars_of("Transformed."));
                self.curve = Some(c);
            },
            Err(e) => {
                let mut status = String::new();
                push_str(&mut status, "Transform error: ");
                push_str(&mut status, e.as_str());
                self.status = status;
            },
        }
    }

    /// The Play/Stop button. Playing: stop. Otherwise, with a curve, play it
    /// as chosen where audio is available (in the browser), or say that it
    /// is not; without a curve, nothing happens.
    pub fn toggle_play(&mut self, audio_available: bool) -> (res: PlayRequest)
        ensures
            final(self).curve == old(self).curve,
            final(self).paste_input == old(self).paste_input,
            final(self).copy_output == old(self).copy_output,
            final(self).fft_size == old(self).fft_size,
            final(self).play_as == old(self).play_as,
            old(self).playing ==> res == PlayRequest::Stop && !final(self).playing
                && final(self).status == old(self).status,
            !old(self).playing && old(self).curve is None ==> res == PlayRequest::Nothing
                && !final(self).playing && final(self).status == old(self).status,
            !old(self).playing && old(self).curve is Some && audio_available ==> final(self).playing
                && final(self).status == old(self).status && res == play_request(old(self).play_as),
            !old(self).playing && old(self).curve is Some && !audio_available ==> res
                == PlayRequest::Nothing && !final(self).playing && final(self).status@
                == "Audio only available in browser."@,
    {
        if self.playing {
            self.playing = false;
            PlayRequest::Stop
        } else if self.curve.is_some() {
            if audio_available {
                self.playing = true;
                match self.play_as {
                    PlayAs::Waveform => PlayRequest::PlayWaveform,
                    PlayAs::Spectrum => PlayRequest::PlaySpectrum,
                }
            } else {
                self.status = string_of(&chars_of("Audio only available in browser."));
                PlayRequest::Nothing
            }
        } else {
            PlayRequest::Nothing
        }
    }
}

/// Loading the export of a finished edit reads back the edited curve (zeros
/// normalized): what the export box shows is what "Load Curve" gives.
pub proof fn lemma_export_reloads(c: CurveView)
    requires
        crate::format_laws::morph_type_ok(c.morph_type),
        c.points.len() > 0,
    ensures
        spec_parse(spec_generate(c)) == Ok::<CurveView, Seq<char>>(
            crate::format_laws::normalized(c),
        ),
{
    crate::format_laws::lemma_generate_parse(c);
}

} // verus!
