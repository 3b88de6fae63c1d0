//! End of a capture session: from the buffer to the report.

use crate::calibration::{Calibration, Rate};
use crate::reconstruct::{
    is_ordering_of, labelled, reconstruct, reconstruction, records, timestamps_ordered,
    valid_events, EventRecord, KeyAction, ReconstructedEvent,
};
use crate::ring::{retained, CaptureRingBuffer, RawCaptureEvent};
use crate::analysis::{analyze, is_analysis_of, KeyReport};
use vstd::prelude::*;

verus! {

/// Totals of one session.
#[derive(Clone, Copy, Debug, PartialEq, Eq, Structural)]
pub struct SessionSummary {
    pub total_events: u64,
    pub press_events: u64,
    pub release_events: u64,
    /// Time from the first event to the last, in whole milliseconds.
    pub total_duration_ms: u64,
}

/// The number of events that are presses.
pub open spec fn count_presses(events: Seq<EventRecord>) -> int
    decreases events.len(),
{
    if events.len() == 0 {
        0
    } else if events.last().action == KeyAction::Down {
        count_presses(events.drop_last()) + 1
    } else {
        count_presses(events.drop_last())
    }
}

/// The totals of a sequence of events: every event is a press or a release,
/// and the session lasts until the timestamp of the last event.
pub open spec fn summary_of(events: Seq<EventRecord>) -> SessionSummary {
    SessionSummary {
        total_events: events.len() as u64,
        press_events: count_presses(events) as u64,
        release_events: (events.len() - count_presses(events)) as u64,
        total_duration_ms: if events.len() == 0 {
            0
        } else {
            events.last().timestamp_us / 1000
        },
    }
}

/// Events per second over the session, in hundredths; zero for a session
/// shorter than a millisecond.
pub open spec fn rate_centi_of(summary: SessionSummary) -> int {
    if summary.total_duration_ms == 0 {
        0
    } else {
        (summary.total_events * 100_000) / (summary.total_duration_ms as int)
    }
}

/// There are no more presses than events.
pub proof fn lemma_count_presses_bounds(events: Seq<EventRecord>)
    ensures
        0 <= count_presses(events) <= events.len(),
    decreases events.len(),
{
    if events.len() > 0 {
        lemma_count_presses_bounds(events.drop_last());
    }
}

impl SessionSummary {
    /// Events per second over the session, in hundredths.
    pub fn average_rate_centi(&self) -> (rate: u128)
        ensures
            rate == rate_centi_of(*self),
    {
        if self.total_duration_ms == 0 {
            0
        } else {
            ((self.total_events as u128) * 100_000) / (self.total_duration_ms as u128)
        }
    }
}

/// Counts the events and the presses among them, and takes the duration
/// from the last timestamp.
pub fn summarize(events: &Vec<ReconstructedEvent>) -> (summary: SessionSummary)
    ensures
        summary == summary_of(records(events@)),
{
    let ghost all = records(events@);
    let mut press_events: u64 = 0;
    let mut index: usize = 0;
    assert(all.take(0) =~= Seq::<EventRecord>::empty());
    while index < events.len()
        invariant
            all == records(events@),
            index <= events.len(),
            press_events == count_presses(all.take(index as int)),
            press_events <= index,
        decreases events.len() - index,
    {
        proof {
            assert(all.take(index + 1).drop_last() =~= all.take(index as int));
            assert(all.take(index + 1).last() == events@[index as int]@);
        }
        match events[index].action {
            KeyAction::Down => {
                press_events = press_events + 1;
            },
            KeyAction::Up => {},
        }
        index = index + 1;
    }
    assert(all.take(index as int) =~= all);
    let total_events: u64 = events.len() as u64;
    let total_duration_ms: u64 = if events.len() == 0 {
        0
    } else {
        assert(all.last() == events@[events@.len() - 1]@);
        events[events.len() - 1].timestamp_us / 1000
    };
    SessionSummary {
        total_events,
        press_events,
        release_events: total_events - press_events,
        total_duration_ms,
    }
}

/// What the capture loop does next.
#[derive(Clone, Copy, Debug, PartialEq, Eq, Structural)]
pub enum LoopStep {
    /// Keep recording.
    Continue,
    /// Stop: the stop key is down.
    StopOnEscape,
    /// Stop: as many events as the limit allows were written.
    StopAtLimit,
}

/// The next step of the capture loop: the stop key ends it, then the limit
/// on the number of events, where there is one.
pub open spec fn step_of(escape_down: bool, total_written: u64, max_events: Option<u64>) -> LoopStep {
    if escape_down {
        LoopStep::StopOnEscape
    } else if max_events is Some && total_written >= max_events->0 {
        LoopStep::StopAtLimit
    } else {
        LoopStep::Continue
    }
}

/// Decides whether the capture loop goes on.
pub fn next_step(escape_down: bool, total_written: u64, max_events: Option<u64>) -> (step: LoopStep)
    ensures
        step == step_of(escape_down, total_written, max_events),
{
    if escape_down {
        return LoopStep::StopOnEscape;
    }
    match max_events {
        Some(max) => if total_written >= max {
            LoopStep::StopAtLimit
        } else {
            LoopStep::Continue
        },
        None => LoopStep::Continue,
    }
}

/// What a session with valid events yields.
#[derive(Clone, Debug)]
pub struct SessionReport {
    /// The reconstructed sequence.
    pub events: Vec<ReconstructedEvent>,
    pub summary: SessionSummary,
    /// The per-key analysis: one report for each key with enough samples.
    pub analysis: Vec<KeyReport>,
}

/// How a capture session ended.
#[derive(Clone, Debug)]
pub enum CaptureOutcome {
    /// Nothing was written to the buffer.
    NoEvents,
    /// Events were written, but none is left after sentinel filtering.
    NoValidEvents,
    /// The session has data.
    Report(SessionReport),
}

/// Whether `report` is the report of a session that captured `raw`: the
/// reconstructed sequence of some chronological arrangement of the valid
/// events, its totals and its analysis.
pub open spec fn is_report_of_session(
    report: SessionReport,
    raw: Seq<RawCaptureEvent>,
    rate: Rate,
) -> bool {
    &&& exists|ordered: Seq<RawCaptureEvent>|
        #[trigger] is_ordering_of(ordered, raw) && records(report.events@) == reconstruction(
            ordered,
            rate,
        )
    &&& report.events@.len() == valid_events(raw).len()
    &&& timestamps_ordered(records(report.events@))
    &&& labelled(records(report.events@))
    &&& report.summary == summary_of(records(report.events@))
    &&& is_analysis_of(report.analysis@, records(report.events@))
}

/// Reconstructs, summarises and analyses captured events. There is no
/// report where no event is valid.
pub fn report_session(raw_events: &Vec<RawCaptureEvent>, calibration: &Calibration) -> (report:
    Option<SessionReport>)
    ensures
        report is Some <==> valid_events(raw_events@).len() > 0,
        report is Some ==> is_report_of_session(report->0, raw_events@, calibration@),
{
    let events = reconstruct(raw_events, calibration);
    if events.len() == 0 {
        return None;
    }
    let summary = summarize(&events);
    let analysis = analyze(&events);
    Some(SessionReport { events, summary, analysis })
}

/// Ends a capture session: takes the snapshot of the buffer and reports on
/// what it holds. To be called once the producer has stopped.
pub fn process_capture(buffer: &CaptureRingBuffer, calibration: &Calibration) -> (outcome:
    CaptureOutcome)
    requires
        buffer.wf(),
    ensures
        outcome is NoEvents <==> buffer@.len() == 0,
        outcome is NoValidEvents <==> buffer@.len() > 0 && valid_events(retained(buffer@)).len()
            == 0,
        outcome matches CaptureOutcome::Report(report) ==> is_report_of_session(
            report,
            retained(buffer@),
            calibration@,
        ),
{
    let (raw_events, total_written) = buffer.snapshot();
    if total_written == 0 {
        proof {
            reveal(Seq::filter);
        }
        return CaptureOutcome::NoEvents;
    }
    match report_session(&raw_events, calibration) {
        Some(report) => CaptureOutcome::Report(report),
        None => CaptureOutcome::NoValidEvents,
    }
}

} // verus!
