//! Input events, as far as this crate reads them.

use vstd::prelude::*;

verus! {

/// What happened to a key.
#[derive(Clone, Copy, Debug, PartialEq, Eq, Structural)]
pub enum KeyKind {
    /// The key went down.
    Press,
    /// The key is held and repeats.
    Repeat,
    /// The key came up.
    Release,
}

/// A key event: what happened, and the character of the key where it has one.
#[derive(Clone, Copy, Debug, PartialEq, Eq)]
pub struct KeyStroke {
    pub kind: KeyKind,
    /// `None` for a key without a character, such as an arrow key.
    pub character: Option<char>,
}

/// An input event that a sequence of bytes was decoded to.
#[derive(Clone, Debug, PartialEq, Eq)]
pub struct DecodedEvent {
    /// The key stroke, where the event is a key event; `None` for mouse,
    /// focus, paste and resize events.
    pub key: Option<KeyStroke>,
    /// The whole event, written out for display.
    pub text: String,
}

/// A decoded event as contracts speak of it.
pub struct EventView {
    pub key: Option<KeyStroke>,
    pub text: Seq<char>,
}

impl View for DecodedEvent {
    type V = EventView;

    open spec fn view(&self) -> EventView {
        EventView { key: self.key, text: self.text@ }
    }
}

/// The view of an event that may be missing.
pub open spec fn view_of(found: Option<DecodedEvent>) -> Option<EventView> {
    match found {
        Some(event) => Some(event@),
        None => None,
    }
}

} // verus!
