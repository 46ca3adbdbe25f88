//! What the terminal is asked to report.
//!
//! These choices change what the terminal sends. They change nothing in how
//! the bytes are split, rendered and decoded.

use vstd::prelude::*;

verus! {

/// The choices of a run.
#[derive(Clone, Copy, Debug, PartialEq, Eq, Default)]
pub struct Options {
    /// Keyboard enhancement: disambiguate escape codes.
    pub disambiguate: bool,
    /// Keyboard enhancement: report all keys as escape codes.
    pub all_escape: bool,
    /// Keyboard enhancement: report alternate keys.
    pub alternate_keys: bool,
    /// Keyboard enhancement: report event types.
    pub event_types: bool,
    /// All four keyboard enhancements at once.
    pub all_kitty: bool,
    /// Bracketed paste.
    pub bracketed_paste: bool,
    /// Mouse events.
    pub mouse: bool,
    /// Focus changes.
    pub focus: bool,
}

/// The keyboard enhancements to ask the terminal for.
#[derive(Clone, Copy, Debug, PartialEq, Eq, Structural)]
pub struct KeyboardEnhancement {
    pub disambiguate_escape_codes: bool,
    pub report_all_keys_as_escape_codes: bool,
    pub report_alternate_keys: bool,
    pub report_event_types: bool,
}

impl Options {
    /// The keyboard enhancements that these options ask for: each one that
    /// is chosen by itself, and all four where all are chosen at once.
    pub open spec fn enhancement(self) -> KeyboardEnhancement {
        KeyboardEnhancement {
            disambiguate_escape_codes: self.disambiguate || self.all_kitty,
            report_all_keys_as_escape_codes: self.all_escape || self.all_kitty,
            report_alternate_keys: self.alternate_keys || self.all_kitty,
            report_event_types: self.event_types || self.all_kitty,
        }
    }

    /// The keyboard enhancements to ask the terminal for.
    pub fn keyboard_enhancement(&self) -> (wanted: KeyboardEnhancement)
        ensures
            wanted == self.enhancement(),
    {
        KeyboardEnhancement {
            disambiguate_escape_codes: self.disambiguate || self.all_kitty,
            report_all_keys_as_escape_codes: self.all_escape || self.all_kitty,
            report_alternate_keys: self.alternate_keys || self.all_kitty,
            report_event_types: self.event_types || self.all_kitty,
        }
    }
}

} // verus!
