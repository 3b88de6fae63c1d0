//! Event reconstructor: turns what the ring buffer held into a
//! chronologically ordered sequence of events with calibrated times.

use crate::calibration::{
    lemma_micros_monotonic, lemma_micros_of_zero, micros_of, Calibration, Rate,
};
use crate::keys::{get_key_name, key_label};
use crate::ring::{retained, ActionKind, RawCaptureEvent, RING_BUFFER_SIZE};
use vstd::prelude::*;
use vstd::seq_lib::*;

verus! {

/// Direction of a key event in the reconstructed sequence.
#[derive(Clone, Copy, Debug, PartialEq, Eq, Structural)]
pub enum KeyAction {
    Down,
    Up,
}

/// The word that stands for an action in reports.
pub open spec fn action_label(action: KeyAction) -> Seq<char> {
    match action {
        KeyAction::Down => "down"@,
        KeyAction::Up => "up"@,
    }
}

/// The direction that a captured action is tagged with: a press is down,
/// anything else is up.
pub open spec fn tagged_action(kind: ActionKind) -> KeyAction {
    match kind {
        ActionKind::Press => KeyAction::Down,
        _ => KeyAction::Up,
    }
}

impl KeyAction {
    /// The direction that a captured action is tagged with.
    pub fn of_kind(kind: ActionKind) -> (action: KeyAction)
        ensures
            action == tagged_action(kind),
    {
        match kind {
            ActionKind::Press => KeyAction::Down,
            _ => KeyAction::Up,
        }
    }

    /// `"down"` or `"up"`.
    pub fn label(&self) -> (label: &'static str)
        ensures
            label@ == action_label(*self),
    {
        match self {
            KeyAction::Down => "down",
            KeyAction::Up => "up",
        }
    }
}

/// One event of the final sequence.
#[derive(Clone, Debug)]
pub struct ReconstructedEvent {
    /// Position in chronological order, from zero.
    pub sequence_id: u64,
    /// Microseconds since the first valid event.
    pub timestamp_us: u64,
    pub key_id: u32,
    pub key_name: String,
    pub action: KeyAction,
    /// Microseconds since the previous event; zero for the first.
    pub interval_us: u64,
}

/// The mathematical content of a [`ReconstructedEvent`].
pub struct EventRecord {
    pub sequence_id: u64,
    pub timestamp_us: u64,
    pub key_id: u32,
    pub key_name: Seq<char>,
    pub action: KeyAction,
    pub interval_us: u64,
}

impl View for ReconstructedEvent {
    type V = EventRecord;

    open spec fn view(&self) -> EventRecord {
        EventRecord {
            sequence_id: self.sequence_id,
            timestamp_us: self.timestamp_us,
            key_id: self.key_id,
            key_name: self.key_name@,
            action: self.action,
            interval_us: self.interval_us,
        }
    }
}

/// The records of a sequence of events.
pub open spec fn records(events: Seq<ReconstructedEvent>) -> Seq<EventRecord> {
    events.map_values(|event: ReconstructedEvent| event@)
}

/// Whether the slot behind the event was written: its tick value is not the
/// zero sentinel.
pub open spec fn is_valid(event: RawCaptureEvent) -> bool {
    event.raw_ticks != 0
}

/// The events that remain after sentinel filtering, in the order they had.
pub open spec fn valid_events(raw: Seq<RawCaptureEvent>) -> Seq<RawCaptureEvent> {
    raw.filter(|event: RawCaptureEvent| is_valid(event))
}

/// The events that carry the zero sentinel as their tick value.
pub open spec fn zero_tick_events(raw: Seq<RawCaptureEvent>) -> Seq<RawCaptureEvent> {
    raw.filter(|event: RawCaptureEvent| !is_valid(event))
}

/// Whether the tick values never decrease along the sequence.
pub open spec fn sorted_by_ticks(events: Seq<RawCaptureEvent>) -> bool {
    forall|i: int, j: int|
        0 <= i <= j < events.len() ==> events[i].raw_ticks <= events[j].raw_ticks
}

/// Whether `ordered` is a chronological arrangement of the valid events of
/// `raw`: the same events, each as often, with tick values that never
/// decrease. Events with equal tick values may stand in any order.
pub open spec fn is_ordering_of(ordered: Seq<RawCaptureEvent>, raw: Seq<RawCaptureEvent>) -> bool {
    &&& sorted_by_ticks(ordered)
    &&& ordered.to_multiset() == valid_events(raw).to_multiset()
}

/// The record of the event at position `i` of a chronological arrangement.
pub open spec fn record_at(ordered: Seq<RawCaptureEvent>, rate: Rate, i: int) -> EventRecord
    recommends
        0 <= i < ordered.len(),
        rate.is_positive(),
{
    EventRecord {
        sequence_id: i as u64,
        timestamp_us: micros_of(ordered[i].raw_ticks - ordered[0].raw_ticks, rate) as u64,
        key_id: ordered[i].key_id,
        key_name: key_label(ordered[i].key_id),
        action: tagged_action(ordered[i].action),
        interval_us: if i == 0 {
            0
        } else {
            micros_of(ordered[i].raw_ticks - ordered[i - 1].raw_ticks, rate) as u64
        },
    }
}

/// The records of the final sequence, from a chronological arrangement of
/// the valid events.
pub open spec fn reconstruction(ordered: Seq<RawCaptureEvent>, rate: Rate) -> Seq<EventRecord> {
    Seq::new(ordered.len(), |i: int| record_at(ordered, rate, i))
}

/// Whether every event carries the label of its key.
pub open spec fn labelled(sequence: Seq<EventRecord>) -> bool {
    forall|i: int|
        0 <= i < sequence.len() ==> (#[trigger] sequence[i]).key_name == key_label(
            sequence[i].key_id,
        )
}

/// Whether the timestamps never decrease along the sequence.
pub open spec fn timestamps_ordered(sequence: Seq<EventRecord>) -> bool {
    forall|i: int, j: int|
        0 <= i <= j < sequence.len() ==> sequence[i].timestamp_us <= sequence[j].timestamp_us
}

/// `slice::sort_unstable_by_key`, with the tick value as the key: rearranges
/// the events so that their tick values never decrease. It may reorder events
/// with equal tick values, and it neither adds nor drops an event.
#[verifier::external_body]
fn sort_by_ticks(events: &mut Vec<RawCaptureEvent>)
    ensures
        sorted_by_ticks(final(events)@),
        final(events)@.to_multiset() == old(events)@.to_multiset(),
{
    events.sort_unstable_by_key(|event| event.raw_ticks);
}

/// Drops the events whose tick value is the zero sentinel.
pub fn retain_valid(raw_events: &Vec<RawCaptureEvent>) -> (kept: Vec<RawCaptureEvent>)
    ensures
        kept@ == valid_events(raw_events@),
{
    let mut kept: Vec<RawCaptureEvent> = Vec::new();
    let mut index: usize = 0;
    assert(raw_events@.subrange(0, 0) =~= Seq::<RawCaptureEvent>::empty());
    proof {
        reveal(Seq::filter);
    }
    while index < raw_events.len()
        invariant
            index <= raw_events.len(),
            kept@ == valid_events(raw_events@.subrange(0, index as int)),
        decreases raw_events.len() - index,
    {
        let event = raw_events[index];
        proof {
            let seen = raw_events@.subrange(0, index as int);
            assert(raw_events@.subrange(0, index + 1) =~= seen.push(event));
            seen.lemma_filter_push(event, |event: RawCaptureEvent| is_valid(event));
        }
        if event.raw_ticks != 0 {
            kept.push(event);
        }
        index = index + 1;
    }
    assert(raw_events@.subrange(0, index as int) =~= raw_events@);
    kept
}

/// The valid events in chronological order.
pub fn order_events(raw_events: &Vec<RawCaptureEvent>) -> (ordered: Vec<RawCaptureEvent>)
    ensures
        is_ordering_of(ordered@, raw_events@),
        ordered@.len() == valid_events(raw_events@).len(),
{
    let mut ordered = retain_valid(raw_events);
    sort_by_ticks(&mut ordered);
    proof {
        to_multiset_len(ordered@);
        to_multiset_len(valid_events(raw_events@));
    }
    ordered
}

/// Builds the final sequence from the valid events in chronological order:
/// times relative to the first event, the interval since the previous event,
/// the key's name, the direction and the position.
pub fn assemble_events(ordered: &Vec<RawCaptureEvent>, calibration: &Calibration) -> (events: Vec<
    ReconstructedEvent,
>)
    requires
        sorted_by_ticks(ordered@),
    ensures
        records(events@) == reconstruction(ordered@, calibration@),
{
    let mut events: Vec<ReconstructedEvent> = Vec::with_capacity(ordered.len());
    if ordered.len() == 0 {
        assert(records(events@) =~= reconstruction(ordered@, calibration@));
        return events;
    }
    let _ = calibration.rate_numerator();
    let ghost rate = calibration@;
    let start_ticks: u64 = ordered[0].raw_ticks;
    let mut last_ticks: u64 = start_ticks;
    let mut index: usize = 0;
    while index < ordered.len()
        invariant
            sorted_by_ticks(ordered@),
            ordered.len() > 0,
            rate == calibration@,
            rate.is_positive(),
            start_ticks == ordered@[0].raw_ticks,
            index <= ordered.len(),
            last_ticks == (if index == 0 {
                start_ticks
            } else {
                ordered@[index - 1].raw_ticks
            }),
            events@.len() == index,
            forall|j: int|
                0 <= j < index ==> (#[trigger] events@[j])@ == record_at(ordered@, rate, j),
        decreases ordered.len() - index,
    {
        let raw: RawCaptureEvent = ordered[index];
        let timestamp_us: u64 = calibration.ticks_to_micros(raw.raw_ticks - start_ticks);
        let interval_us: u64 = calibration.ticks_to_micros(raw.raw_ticks - last_ticks);
        proof {
            if index == 0 {
                lemma_micros_of_zero(rate);
            }
        }
        let event = ReconstructedEvent {
            sequence_id: index as u64,
            timestamp_us,
            key_id: raw.key_id,
            key_name: get_key_name(raw.key_id),
            action: KeyAction::of_kind(raw.action),
            interval_us,
        };
        events.push(event);
        last_ticks = raw.raw_ticks;
        index = index + 1;
    }
    assert(records(events@) =~= reconstruction(ordered@, rate));
    events
}

/// Reconstructs the final sequence from raw events in any order: drops the
/// never-written slots, orders the rest by tick value and derives times,
/// intervals, names, directions and positions. An empty result means that
/// there were no valid events.
pub fn reconstruct(raw_events: &Vec<RawCaptureEvent>, calibration: &Calibration) -> (events: Vec<
    ReconstructedEvent,
>)
    ensures
        exists|ordered: Seq<RawCaptureEvent>|
            #[trigger] is_ordering_of(ordered, raw_events@) && records(events@) == reconstruction(
                ordered,
                calibration@,
            ),
        events@.len() == valid_events(raw_events@).len(),
        timestamps_ordered(records(events@)),
        labelled(records(events@)),
{
    let _ = calibration.rate_numerator();
    let ordered = order_events(raw_events);
    let events = assemble_events(&ordered, calibration);
    proof {
        lemma_timestamps_ordered(ordered@, calibration@);
        assert(is_ordering_of(ordered@, raw_events@));
        assert(records(events@).len() == events@.len());
    }
    events
}

/// Total order: along every reconstructed sequence the timestamps never
/// decrease.
pub proof fn lemma_timestamps_ordered(ordered: Seq<RawCaptureEvent>, rate: Rate)
    requires
        sorted_by_ticks(ordered),
        rate.is_positive(),
    ensures
        timestamps_ordered(reconstruction(ordered, rate)),
{
    let sequence = reconstruction(ordered, rate);
    assert forall|i: int, j: int| 0 <= i <= j < sequence.len() implies sequence[i].timestamp_us
        <= sequence[j].timestamp_us by {
        let first = ordered[0].raw_ticks;
        assert(first <= ordered[i].raw_ticks <= ordered[j].raw_ticks);
        lemma_micros_monotonic(
            ordered[i].raw_ticks - first,
            ordered[j].raw_ticks - first,
            rate,
        );
    }
}

/// Whether no two events share a tick value.
pub open spec fn ticks_distinct(events: Seq<RawCaptureEvent>) -> bool {
    forall|i: int, j: int|
        0 <= i < j < events.len() ==> events[i].raw_ticks != events[j].raw_ticks
}

/// Two sequences of the same events, each in chronological order, are the
/// same sequence where no two events share a tick value.
proof fn lemma_same_events_same_order(first: Seq<RawCaptureEvent>, second: Seq<RawCaptureEvent>)
    requires
        sorted_by_ticks(first),
        sorted_by_ticks(second),
        ticks_distinct(first),
        first.to_multiset() == second.to_multiset(),
    ensures
        first == second,
    decreases first.len(),
{
    to_multiset_len(first);
    to_multiset_len(second);
    if first.len() == 0 {
        assert(first =~= second);
    } else {
        let end = first.len() - 1;
        let last_first = first[end];
        let last_second = second[end];
        assert(first.contains(last_first));
        assert(second.contains(last_second));
        to_multiset_contains(first, last_first);
        to_multiset_contains(second, last_first);
        to_multiset_contains(first, last_second);
        to_multiset_contains(second, last_second);
        let j = choose|j: int| 0 <= j < second.len() && second[j] == last_first;
        let i = choose|i: int| 0 <= i < first.len() && first[i] == last_second;
        assert(second[j].raw_ticks <= second[end].raw_ticks);
        assert(first[i].raw_ticks <= first[end].raw_ticks);
        assert(i == end);
        to_multiset_remove(first, end);
        to_multiset_remove(second, end);
        assert(first.remove(end) =~= first.drop_last());
        assert(second.remove(end) =~= second.drop_last());
        lemma_same_events_same_order(first.drop_last(), second.drop_last());
        assert(first =~= first.drop_last().push(last_first));
        assert(second =~= second.drop_last().push(last_second));
    }
}

/// Where no two valid events share a tick value there is one chronological
/// arrangement and one reconstructed sequence.
pub proof fn lemma_ordering_unique(
    first: Seq<RawCaptureEvent>,
    second: Seq<RawCaptureEvent>,
    raw: Seq<RawCaptureEvent>,
    rate: Rate,
)
    requires
        is_ordering_of(first, raw),
        is_ordering_of(second, raw),
        ticks_distinct(first),
    ensures
        first == second,
        reconstruction(first, rate) == reconstruction(second, rate),
{
    lemma_same_events_same_order(first, second);
}

/// Every event is either valid or carries the zero sentinel.
pub proof fn lemma_valid_and_zero_partition(raw: Seq<RawCaptureEvent>)
    ensures
        valid_events(raw).len() + zero_tick_events(raw).len() == raw.len(),
    decreases raw.len(),
{
    reveal(Seq::filter);
    if raw.len() > 0 {
        lemma_valid_and_zero_partition(raw.drop_last());
    }
}

/// Conservation: while the buffer has not wrapped, the number of events
/// that remain after sentinel filtering is the number of writes less the
/// writes that carried a tick value of zero.
pub proof fn lemma_conservation(history: Seq<RawCaptureEvent>)
    requires
        history.len() <= RING_BUFFER_SIZE,
    ensures
        valid_events(retained(history)).len() == history.len() - zero_tick_events(history).len(),
{
    lemma_valid_and_zero_partition(history);
}

/// A chronological arrangement, and the sequence reconstructed from it,
/// hold as many events as remain after sentinel filtering.
pub proof fn lemma_ordering_keeps_count(
    ordered: Seq<RawCaptureEvent>,
    raw: Seq<RawCaptureEvent>,
    rate: Rate,
)
    requires
        is_ordering_of(ordered, raw),
    ensures
        ordered.len() == valid_events(raw).len(),
        reconstruction(ordered, rate).len() == valid_events(raw).len(),
{
    to_multiset_len(ordered);
    to_multiset_len(valid_events(raw));
}

} // verus!
