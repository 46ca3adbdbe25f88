//! The way out: the quit key, pressed twice in a row.

use vstd::prelude::*;
use crate::event::{DecodedEvent, EventView, KeyKind, KeyStroke, view_of};

verus! {

/// The key that ends the run when it is pressed twice in a row.
pub const QUIT_KEY: char = 'q';

/// How many presses in a row end the run.
pub const QUIT_PRESSES: u64 = 2;

/// Whether a key stroke is of the quit key, whatever happened to the key.
pub open spec fn is_quit_key(stroke: KeyStroke) -> bool {
    stroke.character == Some(QUIT_KEY)
}

/// The count after a key stroke: a press of the quit key adds one, a press
/// of any other key sets the count back to zero, and a repeat or a release
/// leaves it as it is. The count stops at the largest `u64`.
pub open spec fn count_after_stroke(count: u64, stroke: KeyStroke) -> u64 {
    if stroke.kind != KeyKind::Press {
        count
    } else if !is_quit_key(stroke) {
        0
    } else if count < u64::MAX {
        (count + 1) as u64
    } else {
        count
    }
}

/// The count after what a sequence decoded to: only a key event changes it.
pub open spec fn count_after(count: u64, event: Option<EventView>) -> u64 {
    match event {
        Some(EventView { key: Some(stroke), .. }) => count_after_stroke(count, stroke),
        _ => count,
    }
}

/// The count after a run of sequences, taken in order.
pub open spec fn count_after_all(count: u64, events: Seq<Option<EventView>>) -> u64 {
    events.fold_left(count, |count: u64, event: Option<EventView>| count_after(count, event))
}

/// Counts the presses of the quit key that came in a row.
#[derive(Clone, Copy, Debug, PartialEq, Eq)]
pub struct QuitTracker {
    count: u64,
}

impl View for QuitTracker {
    type V = u64;

    closed spec fn view(&self) -> u64 {
        self.count
    }
}

impl QuitTracker {
    /// A tracker that has seen no press.
    pub fn new() -> (tracker: Self)
        ensures
            tracker@ == 0,
    {
        QuitTracker { count: 0 }
    }

    /// The presses of the quit key in a row so far.
    pub fn count(&self) -> (count: u64)
        ensures
            count == self@,
    {
        self.count
    }

    /// Whether the quit key was pressed twice in a row, or more often.
    pub fn should_quit(&self) -> (quit: bool)
        ensures
            quit == (self@ >= QUIT_PRESSES),
    {
        self.count >= QUIT_PRESSES
    }

    /// Takes note of one key stroke.
    pub fn record(&mut self, stroke: KeyStroke)
        ensures
            final(self)@ == count_after_stroke(old(self)@, stroke),
    {
        match stroke.kind {
            KeyKind::Press => {
                let quit = match stroke.character {
                    Some(c) => c == QUIT_KEY,
                    None => false,
                };
                if !quit {
                    self.count = 0;
                } else if self.count < u64::MAX {
                    self.count = self.count + 1;
                }
            },
            KeyKind::Repeat => {},
            KeyKind::Release => {},
        }
    }

    /// Takes note of what one sequence decoded to.
    pub fn observe(&mut self, event: &Option<DecodedEvent>)
        ensures
            final(self)@ == count_after(old(self)@, view_of(*event)),
    {
        match event {
            Some(DecodedEvent { key: Some(stroke), .. }) => {
                self.record(*stroke);
            },
            _ => {},
        }
    }
}

/// A repeat or a release never changes the count, not even of the quit key.
pub proof fn lemma_only_presses_count(count: u64, stroke: KeyStroke)
    requires
        stroke.kind != KeyKind::Press,
    ensures
        count_after_stroke(count, stroke) == count,
{
}

/// A sequence that decodes to nothing, or to an event that is no key event,
/// leaves the count as it is.
pub proof fn lemma_no_key_no_change(count: u64, event: Option<EventView>)
    requires
        event is None || event.unwrap().key is None,
    ensures
        count_after(count, event) == count,
{
}

/// The count tells how many presses of the quit key came last: a press of
/// another key sets it to zero, and below the largest `u64` a press of the
/// quit key adds exactly one.
pub proof fn lemma_press(count: u64, stroke: KeyStroke)
    requires
        stroke.kind == KeyKind::Press,
    ensures
        !is_quit_key(stroke) ==> count_after_stroke(count, stroke) == 0,
        is_quit_key(stroke) && count < u64::MAX ==> count_after_stroke(count, stroke) == count + 1,
{
}

/// After a press of another key, one press of the quit key makes the
/// count one, whatever it was before: presses only count in a row.
pub proof fn lemma_other_key_starts_over(count: u64, other: KeyStroke, quit: KeyStroke)
    requires
        other.kind == KeyKind::Press,
        !is_quit_key(other),
        quit.kind == KeyKind::Press,
        is_quit_key(quit),
    ensures
        count_after_stroke(count_after_stroke(count, other), quit) == 1,
{
}

/// Two presses of the quit key in a row end the run, whatever the count
/// was before, and whatever was repeated or released between them.
pub proof fn lemma_two_presses_end(
    count: u64,
    first: KeyStroke,
    between: KeyStroke,
    second: KeyStroke,
)
    requires
        first.kind == KeyKind::Press,
        is_quit_key(first),
        between.kind != KeyKind::Press,
        second.kind == KeyKind::Press,
        is_quit_key(second),
    ensures
        count_after_stroke(count_after_stroke(count, first), second) >= QUIT_PRESSES,
        count_after_stroke(
            count_after_stroke(count_after_stroke(count, first), between),
            second,
        ) >= QUIT_PRESSES,
        count == 0 ==> count_after_stroke(count_after_stroke(count, first), second)
            == QUIT_PRESSES,
{
}

} // verus!
