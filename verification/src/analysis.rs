//! Per-key analysis: the press-to-press intervals of each key and the
//! statistics of every key that has enough of them.

use crate::keys::{get_key_name, key_label, lemma_key_label_injective};
use crate::reconstruct::{labelled, records, EventRecord, KeyAction, ReconstructedEvent};
use crate::stats::{describes, interval_stats, KeyIntervalStats, MIN_SAMPLES};
use vstd::prelude::*;

verus! {

/// Whether the event is a press of the key.
pub open spec fn is_press_of(event: EventRecord, key_id: u32) -> bool {
    event.action == KeyAction::Down && event.key_id == key_id
}

/// The timestamps of the presses of one key, in the order of the events.
pub open spec fn press_times(events: Seq<EventRecord>, key_id: u32) -> Seq<u64>
    decreases events.len(),
{
    if events.len() == 0 {
        Seq::empty()
    } else if is_press_of(events.last(), key_id) {
        press_times(events.drop_last(), key_id).push(events.last().timestamp_us)
    } else {
        press_times(events.drop_last(), key_id)
    }
}

/// The time from one press to the next; zero where the later timestamp is
/// the smaller one.
pub open spec fn gap(earlier: u64, later: u64) -> u64 {
    if later >= earlier {
        (later - earlier) as u64
    } else {
        0
    }
}

/// The gaps between successive timestamps: one fewer than there are
/// timestamps.
pub open spec fn press_intervals(times: Seq<u64>) -> Seq<u64> {
    if times.len() == 0 {
        Seq::empty()
    } else {
        Seq::new((times.len() - 1) as nat, |i: int| gap(times[i], times[i + 1]))
    }
}

/// The sample population of a key: its press-to-press intervals.
pub open spec fn key_samples(events: Seq<EventRecord>, key_id: u32) -> Seq<u64> {
    press_intervals(press_times(events, key_id))
}

/// The press-to-press intervals of one key.
pub fn key_intervals(events: &Vec<ReconstructedEvent>, key_id: u32) -> (samples: Vec<u64>)
    ensures
        samples@ == key_samples(records(events@), key_id),
{
    let ghost all = records(events@);
    let mut samples: Vec<u64> = Vec::new();
    let mut last_down: Option<u64> = None;
    let mut index: usize = 0;
    assert(all.take(0) =~= Seq::<EventRecord>::empty());
    assert(samples@ =~= key_samples(all.take(0), key_id));
    while index < events.len()
        invariant
            all == records(events@),
            index <= events.len(),
            samples@ == key_samples(all.take(index as int), key_id),
            last_down == (if press_times(all.take(index as int), key_id).len() == 0 {
                None::<u64>
            } else {
                Some(press_times(all.take(index as int), key_id).last())
            }),
        decreases events.len() - index,
    {
        let ghost seen = all.take(index as int);
        let ghost times = press_times(seen, key_id);
        proof {
            assert(all.take(index + 1).drop_last() =~= seen);
            assert(all.take(index + 1).last() == events@[index as int]@);
        }
        let event = &events[index];
        let is_press = match event.action {
            KeyAction::Down => event.key_id == key_id,
            KeyAction::Up => false,
        };
        if is_press {
            let now: u64 = event.timestamp_us;
            match last_down {
                Some(previous) => {
                    samples.push(now.saturating_sub(previous));
                },
                None => {},
            }
            last_down = Some(now);
            assert(press_intervals(times.push(now)) =~= (if times.len() == 0 {
                Seq::<u64>::empty()
            } else {
                press_intervals(times).push(gap(times.last(), now))
            }));
        }
        index = index + 1;
    }
    assert(all.take(index as int) =~= all);
    samples
}

/// The statistics of one key, with the key's code and name.
#[derive(Clone, Debug)]
pub struct KeyReport {
    pub key_id: u32,
    pub key_name: String,
    pub stats: KeyIntervalStats,
}

/// Whether the key is pressed at least once in the sequence.
pub open spec fn is_pressed(events: Seq<EventRecord>, key_id: u32) -> bool {
    exists|i: int| 0 <= i < events.len() && is_press_of(#[trigger] events[i], key_id)
}

/// Whether the key codes grow strictly along the sequence.
pub open spec fn strictly_ascending(keys: Seq<u32>) -> bool {
    forall|i: int, j: int| 0 <= i < j < keys.len() ==> keys[i] < keys[j]
}

/// Whether the key has enough press-to-press samples to be reported.
pub open spec fn qualifies(events: Seq<EventRecord>, key_id: u32) -> bool {
    key_samples(events, key_id).len() >= MIN_SAMPLES
}

/// Whether `report` is the report of its key for the sequence: the key
/// qualifies, and the report holds its name, which is the name that the
/// key's events carry, and the statistics of its samples.
pub open spec fn is_report_of(report: KeyReport, events: Seq<EventRecord>) -> bool {
    &&& report.key_name@ == key_label(report.key_id)
    &&& qualifies(events, report.key_id)
    &&& describes(report.stats, key_samples(events, report.key_id))
}

/// Whether `reports` is the analysis of the sequence: one report for each
/// key that qualifies and for no other, by ascending key code.
pub open spec fn is_analysis_of(reports: Seq<KeyReport>, events: Seq<EventRecord>) -> bool {
    &&& forall|i: int| 0 <= i < reports.len() ==> is_report_of(#[trigger] reports[i], events)
    &&& forall|i: int, j: int|
        0 <= i < j < reports.len() ==> reports[i].key_id < reports[j].key_id
    &&& forall|key_id: u32| #[trigger]
        qualifies(events, key_id) ==> exists|i: int|
            0 <= i < reports.len() && (#[trigger] reports[i]).key_id == key_id
}

/// A key with a press time is pressed somewhere in the sequence.
proof fn lemma_press_times_nonempty(events: Seq<EventRecord>, key_id: u32)
    requires
        press_times(events, key_id).len() > 0,
    ensures
        is_pressed(events, key_id),
    decreases events.len(),
{
    if is_press_of(events.last(), key_id) {
        assert(is_press_of(events[events.len() - 1], key_id));
    } else {
        let rest = events.drop_last();
        lemma_press_times_nonempty(rest, key_id);
        let i = choose|i: int| 0 <= i < rest.len() && is_press_of(#[trigger] rest[i], key_id);
        assert(is_press_of(events[i], key_id));
    }
}

/// Puts `key_id` in its place among ascending key codes, unless it is there.
fn insert_key(keys: &mut Vec<u32>, key_id: u32)
    requires
        strictly_ascending(old(keys)@),
    ensures
        strictly_ascending(final(keys)@),
        forall|key: u32|
            final(keys)@.contains(key) <==> (old(keys)@.contains(key) || key == key_id),
{
    let mut place: usize = 0;
    while place < keys.len() && keys[place] < key_id
        invariant
            keys@ == old(keys)@,
            strictly_ascending(keys@),
            place <= keys.len(),
            forall|i: int| 0 <= i < place ==> keys@[i] < key_id,
        decreases keys.len() - place,
    {
        place = place + 1;
    }
    if place < keys.len() && keys[place] == key_id {
        assert(keys@.contains(key_id));
        return ;
    }
    let ghost before = keys@;
    keys.insert(place, key_id);
    proof {
        let after = keys@;
        assert(after[place as int] == key_id);
        assert forall|i: int, j: int| 0 <= i < j < after.len() implies after[i] < after[j] by {
            if i < place {
                assert(after[i] == before[i]);
            } else if i > place {
                assert(after[i] == before[i - 1]);
            }
            if j < place {
                assert(after[j] == before[j]);
            } else if j > place {
                assert(after[j] == before[j - 1]);
            }
        }
        assert forall|key: u32| after.contains(key) <==> (before.contains(key) || key
            == key_id) by {
            if after.contains(key) {
                let i = choose|i: int| 0 <= i < after.len() && after[i] == key;
                if i < place {
                    assert(before[i] == key);
                } else if i > place {
                    assert(before[i - 1] == key);
                }
            }
            if before.contains(key) {
                let i = choose|i: int| 0 <= i < before.len() && before[i] == key;
                if i < place {
                    assert(after[i] == key);
                } else {
                    assert(after[i + 1] == key);
                }
            }
        }
    }
}

/// The codes of the keys that are pressed at least once, ascending.
pub fn pressed_keys(events: &Vec<ReconstructedEvent>) -> (keys: Vec<u32>)
    ensures
        strictly_ascending(keys@),
        forall|key_id: u32| keys@.contains(key_id) <==> is_pressed(records(events@), key_id),
{
    let ghost all = records(events@);
    let mut keys: Vec<u32> = Vec::new();
    let mut index: usize = 0;
    while index < events.len()
        invariant
            all == records(events@),
            index <= events.len(),
            strictly_ascending(keys@),
            forall|key_id: u32|
                keys@.contains(key_id) <==> is_pressed(all.take(index as int), key_id),
        decreases events.len() - index,
    {
        let ghost seen = all.take(index as int);
        let ghost next = all.take(index + 1);
        let event = &events[index];
        proof {
            assert(next[index as int] == event@);
            assert forall|key_id: u32|
                is_pressed(next, key_id) <==> (is_pressed(seen, key_id) || is_press_of(
                    event@,
                    key_id,
                )) by {
                if is_pressed(next, key_id) {
                    let i = choose|i: int|
                        0 <= i < next.len() && is_press_of(#[trigger] next[i], key_id);
                    if i < index {
                        assert(is_press_of(seen[i], key_id));
                    }
                }
                if is_pressed(seen, key_id) {
                    let i = choose|i: int|
                        0 <= i < seen.len() && is_press_of(#[trigger] seen[i], key_id);
                    assert(is_press_of(next[i], key_id));
                }
                if is_press_of(event@, key_id) {
                    assert(is_press_of(next[index as int], key_id));
                }
            }
        }
        match event.action {
            KeyAction::Down => {
                insert_key(&mut keys, event.key_id);
            },
            KeyAction::Up => {},
        }
        index = index + 1;
    }
    assert(all.take(index as int) =~= all);
    keys
}

/// Repeat-interval statistics of every key with at least `MIN_SAMPLES`
/// press-to-press samples, by ascending key code. Keys with fewer samples
/// are left out. Every event carries the label of its key, as the events
/// of a reconstructed sequence do, so that the presses of a key are the
/// presses under its name.
pub fn analyze(events: &Vec<ReconstructedEvent>) -> (reports: Vec<KeyReport>)
    requires
        labelled(records(events@)),
    ensures
        is_analysis_of(reports@, records(events@)),
{
    let ghost all = records(events@);
    let keys = pressed_keys(events);
    let mut reports: Vec<KeyReport> = Vec::new();
    let mut index: usize = 0;
    while index < keys.len()
        invariant
            all == records(events@),
            strictly_ascending(keys@),
            index <= keys.len(),
            forall|i: int| 0 <= i < reports@.len() ==> is_report_of(#[trigger] reports@[i], all),
            forall|i: int, j: int|
                0 <= i < j < reports@.len() ==> reports@[i].key_id < reports@[j].key_id,
            forall|i: int, m: int|
                0 <= i < reports@.len() && index <= m < keys@.len() ==> (#[trigger] reports@[i]).key_id
                    < #[trigger] keys@[m],
            forall|m: int|
                0 <= m < index && qualifies(all, #[trigger] keys@[m]) ==> exists|i: int|
                    0 <= i < reports@.len() && (#[trigger] reports@[i]).key_id == keys@[m],
        decreases keys.len() - index,
    {
        let key_id: u32 = keys[index];
        let samples = key_intervals(events, key_id);
        let ghost earlier = reports@;
        match interval_stats(&samples) {
            Some(stats) => {
                let report = KeyReport { key_id, key_name: get_key_name(key_id), stats };
                reports.push(report);
                proof {
                    let last = earlier.len() as int;
                    assert(reports@[last].key_id == key_id);
                    assert forall|i: int| 0 <= i < reports@.len() implies is_report_of(
                        #[trigger] reports@[i],
                        all,
                    ) by {
                        if i < last {
                            assert(reports@[i] == earlier[i]);
                        }
                    }
                    assert forall|i: int, j: int| 0 <= i < j < reports@.len() implies reports@[i].key_id
                        < reports@[j].key_id by {
                        assert(reports@[i] == earlier[i]);
                        if j < last {
                            assert(reports@[j] == earlier[j]);
                        } else {
                            assert(earlier[i].key_id < keys@[index as int]);
                        }
                    }
                    assert forall|i: int, m: int|
                        0 <= i < reports@.len() && index + 1 <= m < keys@.len() implies (
                    #[trigger] reports@[i]).key_id < #[trigger] keys@[m] by {
                        if i < last {
                            assert(reports@[i] == earlier[i]);
                        }
                    }
                    assert forall|m: int|
                        0 <= m < index + 1 && qualifies(all, #[trigger] keys@[m]) implies exists|
                        i: int,
                    |
                        0 <= i < reports@.len() && (#[trigger] reports@[i]).key_id == keys@[m] by {
                        if m < index {
                            let i = choose|i: int|
                                0 <= i < earlier.len() && (#[trigger] earlier[i]).key_id
                                    == keys@[m];
                            assert(reports@[i] == earlier[i]);
                        } else {
                            assert(reports@[last].key_id == keys@[m]);
                        }
                    }
                }
            },
            None => {},
        }
        index = index + 1;
    }
    proof {
        assert forall|key_id: u32| #[trigger] qualifies(all, key_id) implies exists|i: int|
            0 <= i < reports@.len() && (#[trigger] reports@[i]).key_id == key_id by {
            lemma_press_times_nonempty(all, key_id);
            assert(keys@.contains(key_id));
            let m = choose|m: int| 0 <= m < keys@.len() && keys@[m] == key_id;
            assert(qualifies(all, keys@[m]));
        }
    }
    reports
}

/// Where every event carries the label of its key, as in a reconstructed
/// sequence, the presses of a key are the presses under its name: grouping
/// by key code is grouping by key name.
pub proof fn lemma_presses_by_name(events: Seq<EventRecord>, key_id: u32)
    requires
        labelled(events),
    ensures
        forall|i: int|
            0 <= i < events.len() ==> (is_press_of(#[trigger] events[i], key_id) <==> (
            events[i].action == KeyAction::Down && events[i].key_name == key_label(key_id))),
{
    assert forall|i: int| 0 <= i < events.len() implies (is_press_of(
        #[trigger] events[i],
        key_id,
    ) <==> (events[i].action == KeyAction::Down && events[i].key_name == key_label(key_id))) by {
        if events[i].key_name == key_label(key_id) {
            lemma_key_label_injective(events[i].key_id, key_id);
        }
    }
}

} // verus!
