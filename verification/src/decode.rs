//! Decoding one sequence into an input event.
//!
//! The decoding itself is the work of `terminput`. One kind of input is kept
//! from it: a mouse report whose column or row is not a number from one up.
//! A terminal counts columns and rows from one, and the decoder takes one off
//! without looking. Such a report decodes to no event here.

use vstd::prelude::*;
use vstd::slice::slice_subrange;
use crate::event::{DecodedEvent, EventView, KeyKind, KeyStroke, view_of};
use crate::segment::ESC;

verus! {

/// `[`, which follows the escape byte in a control sequence.
pub const BRACKET: u8 = 0x5B;

/// `;`, which separates the parameters of a report.
pub const SEPARATOR: u8 = 0x3B;

/// `<`, which opens a mouse report with decimal parameters.
pub const ANGLE: u8 = 0x3C;

/// `M`, which opens a mouse report of three bytes and closes one with
/// parameters.
pub const UPPER_M: u8 = 0x4D;

/// `m`, which closes the report of a button that came up.
pub const LOWER_M: u8 = 0x6D;

/// The byte that stands for zero in a mouse report of three bytes.
pub const BYTE_ZERO: u8 = 32;

/// The test that picks the separators out of a parameter list.
pub open spec fn is_separator() -> spec_fn(u8) -> bool {
    |b: u8| b == SEPARATOR
}

/// The number of the parameter that position `at` lies in, counted from
/// zero: as many as there are separators in front of it.
pub open spec fn field_of(params: Seq<u8>, at: int) -> nat {
    params.take(at).filter(is_separator()).len()
}

/// A decimal digit.
pub open spec fn is_digit(b: u8) -> bool {
    0x30 <= b <= 0x39
}

/// A decimal digit other than zero.
pub open spec fn is_nonzero_digit(b: u8) -> bool {
    0x31 <= b <= 0x39
}

/// Whether the parameter with the given number holds a digit other than
/// zero. A parameter that reads as a number from one up does.
pub open spec fn field_is_positive(params: Seq<u8>, field: nat) -> bool {
    exists|at: int|
        0 <= at < params.len() && is_nonzero_digit(params[at]) && #[trigger] field_of(params, at)
            == field
}

/// Whether a parameter list of the form `button ; column ; row` names a
/// column and a row.
pub open spec fn names_position(params: Seq<u8>) -> bool {
    field_is_positive(params, 1) && field_is_positive(params, 2)
}

/// A mouse report that names no position, in any of the three encodings:
/// `ESC [ M` and three bytes, of which the last two stand for column and row
/// and count from 33; `ESC [ <` and parameters up to a final `M` or `m`;
/// `ESC [` and parameters that begin with a digit, up to a final `M`.
pub open spec fn lacks_position(sequence: Seq<u8>) -> bool {
    &&& sequence.len() >= 3
    &&& sequence[0] == ESC
    &&& sequence[1] == BRACKET
    &&& {
        ||| sequence[2] == UPPER_M && sequence.len() >= 6 && (sequence[4] <= BYTE_ZERO
            || sequence[5] <= BYTE_ZERO)
        ||| sequence[2] == ANGLE && (sequence.last() == UPPER_M || sequence.last() == LOWER_M)
            && !names_position(sequence.subrange(3, sequence.len() - 1))
        ||| is_digit(sequence[2]) && sequence.last() == UPPER_M && !names_position(
            sequence.subrange(2, sequence.len() - 1),
        )
    }
}

/// Tells whether a parameter list names a column and a row.
fn has_position(params: &[u8]) -> (named: bool)
    ensures
        named == names_position(params@),
{
    let mut column = false;
    let mut row = false;
    let mut field: usize = 0;
    let mut i: usize = 0;
    proof {
        reveal(Seq::filter);
        assert(params@.take(0) =~= Seq::<u8>::empty());
    }
    while i < params.len()
        invariant
            i <= params.len(),
            field <= i,
            field == field_of(params@, i as int),
            column == (exists|at: int|
                0 <= at < i && is_nonzero_digit(params@[at]) && #[trigger] field_of(params@, at)
                    == 1),
            row == (exists|at: int|
                0 <= at < i && is_nonzero_digit(params@[at]) && #[trigger] field_of(params@, at)
                    == 2),
        decreases params.len() - i,
    {
        let b = params[i];
        proof {
            assert(params@.take(i + 1) =~= params@.take(i as int).push(b));
            params@.take(i as int).lemma_filter_len_push(is_separator(), b);
        }
        if 0x31 <= b && b <= 0x39 {
            if field == 1 {
                column = true;
            } else if field == 2 {
                row = true;
            }
        }
        if b == SEPARATOR {
            field += 1;
        }
        i += 1;
    }
    column && row
}

/// Tells whether a sequence is a mouse report that names no position.
pub fn is_without_position(sequence: &[u8]) -> (lacking: bool)
    ensures
        lacking == lacks_position(sequence@),
{
    let len = sequence.len();
    if len < 3 || sequence[0] != ESC || sequence[1] != BRACKET {
        return false;
    }
    let lead = sequence[2];
    let last = sequence[len - 1];
    if lead == UPPER_M {
        len >= 6 && (sequence[4] <= BYTE_ZERO || sequence[5] <= BYTE_ZERO)
    } else if lead == ANGLE {
        (last == UPPER_M || last == LOWER_M) && !has_position(
            slice_subrange(sequence, 3, len - 1),
        )
    } else if 0x30 <= lead && lead <= 0x39 {
        last == UPPER_M && !has_position(slice_subrange(sequence, 2, len - 1))
    } else {
        false
    }
}

/// What `terminput::parse_event` makes of a sequence: `None` where it
/// returns an error or finds the sequence incomplete, else the event it
/// returns, reduced to its key stroke and its `Debug` text.
pub uninterp spec fn parsed_event(sequence: Seq<u8>) -> Option<EventView>;

/// What a sequence decodes to: nothing where it is a mouse report without
/// a position, else what the decoder makes of it.
pub open spec fn decoded(sequence: Seq<u8>) -> Option<EventView> {
    if lacks_position(sequence) {
        None
    } else {
        parsed_event(sequence)
    }
}

/// Calls `terminput::parse_event` and reduces what it returns to a
/// `DecodedEvent`: `None` for an error and for an incomplete sequence, else
/// the key stroke of a key event and the `Debug` text of the event. The
/// result depends on the bytes alone, so it is `parsed_event` of them.
/// Mouse reports without a position are kept out: the decoder takes one off
/// their column and row, which are unsigned, and so fails on zero.
#[verifier::external_body]
fn parse(sequence: &[u8]) -> (found: Option<DecodedEvent>)
    requires
        !lacks_position(sequence@),
    ensures
        view_of(found) == parsed_event(sequence@),
{
    let event = terminput::parse_event(sequence).ok().flatten()?;
    let key = match &event {
        terminput::Event::Key(key) => Some(KeyStroke {
            kind: match key.kind {
                terminput::KeyEventKind::Press => KeyKind::Press,
                terminput::KeyEventKind::Repeat => KeyKind::Repeat,
                terminput::KeyEventKind::Release => KeyKind::Release,
            },
            character: match key.code { terminput::KeyCode::Char(c) => Some(c), _ => None },
        }),
        _ => None,
    };
    Some(DecodedEvent { key, text: format!("{event:?}") })
}

/// Decodes one sequence into an input event, if it is one. That a sequence
/// is not recognised is no error: it decodes to `None`.
pub fn decode(sequence: &[u8]) -> (found: Option<DecodedEvent>)
    ensures
        view_of(found) == decoded(sequence@),
{
    if is_without_position(sequence) {
        None
    } else {
        parse(sequence)
    }
}

} // verus!
