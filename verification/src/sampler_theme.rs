//! The sampler's colour theme: what it shows for a theme choice, where `Auto`
//! follows the system. Setting the visuals on the UI context is the plugin's part.
use vstd::prelude::*;

use crate::theme::{Shade, Theme};

verus! {

/// The sampler's theme: the visuals to set for `theme`. Under `Auto` they
/// follow the system theme where the UI knows it (`system`), and otherwise
/// whatever the UI currently shows (`currently_dark`).
pub fn apply(theme: Theme, system: Option<Shade>, currently_dark: bool) -> (res: Shade)
    ensures
        theme == Theme::Dark ==> res == Shade::Dark,
        theme == Theme::Light ==> res == Shade::Light,
        theme == Theme::Auto ==> res == (match system {
            Some(s) => s,
            None => if currently_dark {
                Shade::Dark
            } else {
                Shade::Light
            },
        }),
{
    match theme {
        Theme::Auto => match system {
            Some(s) => s,
            None => if currently_dark {
                Shade::Dark
            } else {
                Shade::Light
            },
        },
        Theme::Dark => Shade::Dark,
        Theme::Light => Shade::Light,
    }
}

} // verus!
