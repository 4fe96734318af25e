//! How the sampler picks the frequency whose period it captures, and the
//! reason it shows for it. The frequencies come from the held MIDI notes
//! (auto tracking) or the three manual boxes, lowest first; the plugin
//! classifies the ratio of the two lowest (a floating-point comparison) and
//! tells whether a third note fits the shared period. From these the library
//! decides by how much the lowest frequency is divided and what is reported.
use vstd::prelude::*;

use crate::text::{decimal, push_decimal, push_str, string_of, chars_of};
use crate::theme::{ChordPriority, TrackingMode};

verus! {

broadcast use vstd::string::group_string_axioms;

/// The interval between the two lowest frequencies, as their ratio is
/// classified (each within 0.02 of 3:2, 2:1, 4:3, 5:4 or 6:5).
#[derive(Debug, PartialEq, Eq, Clone, Copy, Structural)]
pub enum Interval {
    Fifth,
    Octave,
    Fourth,
    MajorThird,
    MinorThird,
    Other,
}

/// The interval's shared period, as the divisor of the lowest frequency
/// (the fifth 3:2 repeats every 2 periods of the lower note, …); none for an
/// unrecognised ratio.
pub open spec fn spec_period_divisor(iv: Interval) -> Option<u32> {
    match iv {
        Interval::Fifth => Some(2),
        Interval::Octave => Some(1),
        Interval::Fourth => Some(3),
        Interval::MajorThird => Some(4),
        Interval::MinorThird => Some(5),
        Interval::Other => None,
    }
}

/// The reason shown for a recognised two-note interval.
pub open spec fn interval_reason(iv: Interval) -> Seq<char> {
    match iv {
        Interval::Fifth => "Common period (LCM of 3:2 fifth)"@,
        Interval::Octave => "Common period (Octave)"@,
        Interval::Fourth => "Common period (LCM of 4:3 fourth)"@,
        Interval::MajorThird => "Common period (LCM of 5:4 major third)"@,
        Interval::MinorThird => "Common period (LCM of 6:5 minor third)"@,
        Interval::Other => "Lowest note (fallback, complex ratio)"@,
    }
}

/// The divisor of the lowest of `count` frequencies that gives the capture
/// frequency; `None` where there is no frequency (the capture stays at 440 Hz).
pub open spec fn target_divisor(count: nat, priority: ChordPriority, iv: Interval) -> Option<u32> {
    if count == 0 {
        None
    } else if count >= 2 && priority == ChordPriority::CommonPeriod {
        match spec_period_divisor(iv) {
            Some(d) => Some(d),
            None => Some(1),
        }
    } else {
        Some(1)
    }
}

/// The reason shown for the capture frequency.
pub open spec fn target_reason(
    mode: TrackingMode,
    count: nat,
    priority: ChordPriority,
    iv: Interval,
    third_fits: bool,
) -> Seq<char> {
    if count == 0 {
        "Manual / Single note"@
    } else if count == 1 {
        match mode {
            TrackingMode::Auto => "MIDI input"@,
            TrackingMode::Manual => "Manual frequency"@,
        }
    } else if priority == ChordPriority::LowestNote {
        "Lowest note of "@ + decimal(count) + " active freqs"@
    } else if spec_period_divisor(iv) is Some && count >= 3 && third_fits {
        "Common period (LCM of 3-note chord)"@
    } else {
        interval_reason(iv)
    }
}

/// The shared period of a recognised interval, as the divisor of the lowest
/// frequency.
pub fn period_divisor(iv: Interval) -> (res: Option<u32>)
    ensures
        res == spec_period_divisor(iv),
{
    match iv {
        Interval::Fifth => Some(2),
        Interval::Octave => Some(1),
        Interval::Fourth => Some(3),
        Interval::MajorThird => Some(4),
        Interval::MinorThird => Some(5),
        Interval::Other => None,
    }
}

/// The capture frequency, as a divisor of the lowest frequency, and its reason.
pub struct Target {
    /// The lowest frequency is divided by this; `None`: no frequency.
    pub divisor: Option<u32>,
    pub reason: String,
}

/// Decides the capture frequency from `count` active frequencies (lowest
/// first). With one, it is the lowest; with a chord, the lowest too where the
/// lowest note has priority, and otherwise the shared period of the two
/// lowest where their interval is recognised (a third note that fits that
/// period is reported as a three-note chord). `interval` matters only for a
/// chord under common-period priority, `third_fits` only with three or more.
pub fn choose_target(
    mode: TrackingMode,
    count: usize,
    priority: ChordPriority,
    interval: Interval,
    third_fits: bool,
) -> (res: Target)
    ensures
        res.divisor == target_divisor(count as nat, priority, interval),
        res.reason@ == target_reason(mode, count as nat, priority, interval, third_fits),
        count >= 3 && priority == ChordPriority::CommonPeriod && interval != Interval::Other
            && third_fits ==> res.reason@ == "Common period (LCM of 3-note chord)"@,
{
    proof {
        if count >= 3 && interval != Interval::Other {
            lemma_chord_verdict_from_three_notes(mode, count as nat, interval, third_fits);
        }
    }
    if count == 0 {
        return Target {
            divisor: None,
            reason: string_of(&chars_of("Manual / Single note")),
        };
    }
    if count == 1 {
        let reason = match mode {
            TrackingMode::Auto => string_of(&chars_of("MIDI input")),
            TrackingMode::Manual => string_of(&chars_of("Manual frequency")),
        };
        return Target { divisor: Some(1), reason };
    }
    match priority {
        ChordPriority::LowestNote => {
            let mut reason = String::new();
            push_str(&mut reason, "Lowest note of ");
            push_decimal(&mut reason, count as u64);
            push_str(&mut reason, " active freqs");
            assert(reason@ =~= "Lowest note of "@ + decimal(count as nat) + " active freqs"@);
            Target { divisor: Some(1), reason }
        },
        ChordPriority::CommonPeriod => {
            let divisor = period_divisor(interval);
            let reason = match divisor {
                Some(_) => {
                    if count >= 3 && third_fits {
                        string_of(&chars_of("Common period (LCM of 3-note chord)"))
                    } else {
                        match interval {
                            Interval::Fifth => string_of(&chars_of("Common period (LCM of 3:2 fifth)")),
                            Interval::Octave => string_of(&chars_of("Common period (Octave)")),
                            Interval::Fourth => string_of(&chars_of("Common period (LCM of 4:3 fourth)")),
                            Interval::MajorThird => string_of(
                                &chars_of("Common period (LCM of 5:4 major third)"),
                            ),
                            Interval::MinorThird => string_of(
                                &chars_of("Common period (LCM of 6:5 minor third)"),
                            ),
                            Interval::Other => string_of(
                                &chars_of("Lowest note (fallback, complex ratio)"),
                            ),
                        }
                    }
                },
                None => string_of(&chars_of("Lowest note (fallback, complex ratio)")),
            };
            let d = match divisor {
                Some(d) => d,
                None => 1,
            };
            Target { divisor: Some(d), reason }
        },
    }
}

/// With three or more notes under common-period priority, the verdict does
/// not depend on how many notes there are beyond three: a recognised
/// interval whose third note fits is always reported as a three-note chord,
/// and the divisor is the interval's.
pub proof fn lemma_chord_verdict_from_three_notes(
    mode: TrackingMode,
    count: nat,
    iv: Interval,
    third_fits: bool,
)
    requires
        count >= 3,
        iv != Interval::Other,
    ensures
        target_reason(mode, count, ChordPriority::CommonPeriod, iv, third_fits) == target_reason(
            mode,
            3,
            ChordPriority::CommonPeriod,
            iv,
            third_fits,
        ),
        target_divisor(count, ChordPriority::CommonPeriod, iv) == target_divisor(
            3,
            ChordPriority::CommonPeriod,
            iv,
        ),
        third_fits ==> target_reason(mode, count, ChordPriority::CommonPeriod, iv, third_fits)
            == "Common period (LCM of 3-note chord)"@,
        !third_fits ==> target_reason(mode, count, ChordPriority::CommonPeriod, iv, third_fits)
            == target_reason(mode, 2, ChordPriority::CommonPeriod, iv, third_fits),
{
}

/// A chord whose two lowest notes form no recognised interval falls back to
/// the lowest note, and says so.
pub proof fn lemma_unrecognised_chord_follows_lowest(
    mode: TrackingMode,
    count: nat,
    third_fits: bool,
)
    requires
        count >= 2,
    ensures
        target_divisor(count, ChordPriority::CommonPeriod, Interval::Other) == Some(1u32),
        target_reason(mode, count, ChordPriority::CommonPeriod, Interval::Other, third_fits)
            == "Lowest note (fallback, complex ratio)"@,
{
}

} // verus!
