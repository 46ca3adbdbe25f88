//! One turn of the read loop: what to show for a chunk that was read, and
//! what to do next.
//!
//! The loop itself reads, writes and waits, and so lies with the caller.
//! After every read it hands the bytes to [`after_read`], writes what comes
//! back, and does as [`Next`] says.

use vstd::prelude::*;
use crate::decode::{decode, decoded};
use crate::event::{DecodedEvent, EventView, view_of};
use crate::quit::{QuitTracker, count_after_all, QUIT_PRESSES};
use crate::render::{lemma_rendered_pieces, render, rendered};
use crate::segment::{
    contents, escape_count, lemma_sequences_rejoin, sequences, split_sequences,
};

verus! {

/// The size of the buffer that one read fills at most.
pub const READ_BUFFER_LEN: usize = 4096;

/// How long to wait, in milliseconds, after a read that brought nothing.
pub const IDLE_MILLIS: u64 = 10;

/// What there is to show for one sequence.
#[derive(Clone, Debug, PartialEq, Eq)]
pub struct Report {
    /// The bytes of the sequence, rendered.
    pub line: String,
    /// The event that the sequence decoded to, if any.
    pub event: Option<DecodedEvent>,
}

/// A report as contracts speak of it.
pub struct ReportView {
    pub line: Seq<char>,
    pub event: Option<EventView>,
}

impl View for Report {
    type V = ReportView;

    open spec fn view(&self) -> ReportView {
        ReportView { line: self.line@, event: view_of(self.event) }
    }
}

/// What the loop does after a turn.
#[derive(Clone, Copy, Debug, PartialEq, Eq, Structural)]
pub enum Next {
    /// Nothing was read: wait for `IDLE_MILLIS`, then read again.
    Wait,
    /// Read again at once.
    Read,
    /// The quit key was pressed twice in a row: leave the loop.
    Stop,
}

/// The outcome of one turn.
#[derive(Debug)]
pub struct Turn {
    /// What to show, in order: one report for each sequence.
    pub reports: Vec<Report>,
    pub next: Next,
}

/// The report for one sequence.
pub open spec fn report_of(sequence: Seq<u8>) -> ReportView {
    ReportView { line: rendered(sequence), event: decoded(sequence) }
}

/// The reports for a chunk: one for each of its sequences, in order.
pub open spec fn reports_of(chunk: Seq<u8>) -> Seq<ReportView> {
    sequences(chunk).map_values(|sequence: Seq<u8>| report_of(sequence))
}

/// What the sequences of a chunk decode to, in order.
pub open spec fn events_of(chunk: Seq<u8>) -> Seq<Option<EventView>> {
    sequences(chunk).map_values(|sequence: Seq<u8>| decoded(sequence))
}

/// The views of a list of reports.
pub open spec fn views(reports: Seq<Report>) -> Seq<ReportView> {
    reports.map_values(|report: Report| report@)
}

/// What the loop does after a chunk, by the count it left behind.
pub open spec fn next_after(chunk: Seq<u8>, count: u64) -> Next {
    if chunk.len() == 0 {
        Next::Wait
    } else if count >= QUIT_PRESSES {
        Next::Stop
    } else {
        Next::Read
    }
}

/// Renders and decodes one sequence.
pub fn report(sequence: &[u8]) -> (report: Report)
    ensures
        report@ == report_of(sequence@),
{
    Report { line: render(sequence), event: decode(sequence) }
}

/// Splits a chunk into its sequences, renders and decodes each, and lets the
/// tracker take note of each event in turn.
pub fn process_chunk(tracker: &mut QuitTracker, chunk: &[u8]) -> (reports: Vec<Report>)
    ensures
        views(reports@) == reports_of(chunk@),
        reports@.len() == if escape_count(chunk@) == 0 {
            1
        } else {
            escape_count(chunk@)
        },
        final(tracker)@ == count_after_all(old(tracker)@, events_of(chunk@)),
{
    let pieces = split_sequences(chunk);
    let mut reports: Vec<Report> = Vec::new();
    let mut i: usize = 0;
    proof {
        assert(views(reports@) =~= reports_of(chunk@).take(0));
        assert(events_of(chunk@).take(0) =~= Seq::<Option<EventView>>::empty());
    }
    while i < pieces.len()
        invariant
            i <= pieces.len(),
            contents(pieces@) == sequences(chunk@),
            views(reports@) == reports_of(chunk@).take(i as int),
            tracker@ == count_after_all(old(tracker)@, events_of(chunk@).take(i as int)),
        decreases pieces.len() - i,
    {
        let one = report(pieces[i]);
        tracker.observe(&one.event);
        proof {
            let events = events_of(chunk@);
            assert(contents(pieces@)[i as int] == pieces[i as int]@);
            assert(events.take(i + 1).drop_last() =~= events.take(i as int));
            assert(events.take(i + 1).last() == view_of(one.event));
            assert(views(reports@.push(one)) =~= views(reports@).push(one@));
            assert(reports_of(chunk@)[i as int] == one@);
            assert(reports_of(chunk@).take(i + 1) =~= reports_of(chunk@).take(i as int).push(
                one@,
            ));
        }
        reports.push(one);
        i += 1;
    }
    proof {
        assert(reports_of(chunk@).take(i as int) =~= reports_of(chunk@));
        assert(events_of(chunk@).take(i as int) =~= events_of(chunk@));
        assert(views(reports@).len() == reports@.len());
    }
    reports
}

/// One turn of the loop, after a read that brought `chunk`. Nothing read
/// means nothing to show, and a wait. Else the chunk is processed, and the
/// loop goes on unless the quit key was pressed twice in a row by then.
pub fn after_read(tracker: &mut QuitTracker, chunk: &[u8]) -> (turn: Turn)
    ensures
        chunk@.len() == 0 ==> turn.reports@.len() == 0 && final(tracker)@ == old(tracker)@,
        chunk@.len() > 0 ==> views(turn.reports@) == reports_of(chunk@) && final(tracker)@
            == count_after_all(old(tracker)@, events_of(chunk@)),
        turn.next == next_after(chunk@, final(tracker)@),
{
    if chunk.len() == 0 {
        return Turn { reports: Vec::new(), next: Next::Wait };
    }
    let reports = process_chunk(tracker, chunk);
    let next = if tracker.should_quit() {
        Next::Stop
    } else {
        Next::Read
    };
    Turn { reports, next }
}

/// The lines of the reports for a chunk, joined in order, are the
/// rendering of the whole chunk: every byte that was read is shown, once
/// and in its place.
pub proof fn lemma_lines_rejoin(chunk: Seq<u8>)
    ensures
        reports_of(chunk).map_values(|report: ReportView| report.line).flatten() == rendered(
            chunk,
        ),
{
    let lines = reports_of(chunk).map_values(|report: ReportView| report.line);
    assert(lines =~= sequences(chunk).map_values(|piece: Seq<u8>| rendered(piece)));
    lemma_rendered_pieces(sequences(chunk));
    lemma_sequences_rejoin(chunk);
}

} // verus!
