//! Capture ring buffer: a fixed-capacity circular store of raw key events.
//!
//! One producer writes, and after it has stopped one consumer takes a
//! snapshot. The buffer is described by the sequence of all events ever
//! written to it; the slots hold the most recent `RING_BUFFER_SIZE` of them.

use vstd::prelude::*;

verus! {

/// Number of slots; a power of two, so that a slot index is a bit mask away.
pub const RING_BUFFER_SIZE: usize = 65536;

/// Message identifier of a key going down.
pub const WM_KEYDOWN: u32 = 0x0100;

/// Message identifier of a key going up.
pub const WM_KEYUP: u32 = 0x0101;

/// Message identifier of a system key going down.
pub const WM_SYSKEYDOWN: u32 = 0x0104;

/// Message identifier of a system key going up.
pub const WM_SYSKEYUP: u32 = 0x0105;

/// What happened to the key.
#[derive(Clone, Copy, Debug, PartialEq, Eq, Structural)]
pub enum ActionKind {
    Press,
    Release,
    Other,
}

/// One captured event, as the producer stores it.
#[derive(Clone, Copy, Debug, PartialEq, Eq, Structural)]
pub struct RawCaptureEvent {
    /// Cycle-counter reading at capture; zero marks a slot never written.
    pub raw_ticks: u64,
    pub key_id: u32,
    pub action: ActionKind,
}

/// The content of a slot that was never written.
pub open spec fn blank_event() -> RawCaptureEvent {
    RawCaptureEvent { raw_ticks: 0, key_id: 0, action: ActionKind::Press }
}

/// The kind of action that a keyboard message identifier stands for.
pub open spec fn action_of_message(message: u32) -> ActionKind {
    if message == WM_KEYDOWN || message == WM_SYSKEYDOWN {
        ActionKind::Press
    } else if message == WM_KEYUP || message == WM_SYSKEYUP {
        ActionKind::Release
    } else {
        ActionKind::Other
    }
}

/// Whether the capture callback stores an event for this notification: the
/// hook code is not negative and the message is a press or a release.
pub open spec fn is_recorded(hook_code: i32, message: u32) -> bool {
    hook_code >= 0 && action_of_message(message) != ActionKind::Other
}

/// What is still in the buffer of all that was written: everything while
/// the buffer has not wrapped, else the last `RING_BUFFER_SIZE` events,
/// oldest first.
pub open spec fn retained(history: Seq<RawCaptureEvent>) -> Seq<RawCaptureEvent> {
    if history.len() <= RING_BUFFER_SIZE {
        history
    } else {
        history.subrange(history.len() - RING_BUFFER_SIZE, history.len() as int)
    }
}

/// Whether the tick values grow strictly along the sequence.
pub open spec fn ticks_increasing(events: Seq<RawCaptureEvent>) -> bool {
    forall|i: int, j: int|
        0 <= i < j < events.len() ==> events[i].raw_ticks < events[j].raw_ticks
}

/// Classifies a keyboard message identifier.
pub fn classify_message(message: u32) -> (kind: ActionKind)
    ensures
        kind == action_of_message(message),
{
    if message == WM_KEYDOWN || message == WM_SYSKEYDOWN {
        ActionKind::Press
    } else if message == WM_KEYUP || message == WM_SYSKEYUP {
        ActionKind::Release
    } else {
        ActionKind::Other
    }
}

/// The circular store and its write counter.
pub struct CaptureRingBuffer {
    slots: Vec<RawCaptureEvent>,
    write_count: u64,
    written: Ghost<Seq<RawCaptureEvent>>,
}

impl View for CaptureRingBuffer {
    type V = Seq<RawCaptureEvent>;

    /// Every event written so far, in the order of writing.
    closed spec fn view(&self) -> Seq<RawCaptureEvent> {
        self.written@
    }
}

impl CaptureRingBuffer {
    /// The event that physical slot `index` holds.
    pub closed spec fn slot(&self, index: int) -> RawCaptureEvent {
        self.slots@[index]
    }

    /// The buffer has all its slots, the counter counts the writes, each of
    /// the most recent `RING_BUFFER_SIZE` events sits in the slot of its
    /// index modulo the capacity, and the other slots are blank.
    pub closed spec fn wf(&self) -> bool {
        &&& self.slots@.len() == RING_BUFFER_SIZE
        &&& self.write_count as nat == self.written@.len()
        &&& forall|i: int|
            0 <= i < self.written@.len() && self.written@.len() - i <= RING_BUFFER_SIZE
                ==> self.slots@[i % (RING_BUFFER_SIZE as int)] == #[trigger] self.written@[i]
        &&& forall|j: int|
            self.written@.len() <= j < RING_BUFFER_SIZE ==> #[trigger] self.slots@[j]
                == blank_event()
    }

    /// An empty buffer: nothing written, every slot blank.
    pub fn new() -> (buffer: CaptureRingBuffer)
        ensures
            buffer.wf(),
            buffer@ == Seq::<RawCaptureEvent>::empty(),
    {
        let mut slots: Vec<RawCaptureEvent> = Vec::with_capacity(RING_BUFFER_SIZE);
        let mut filled: usize = 0;
        while filled < RING_BUFFER_SIZE
            invariant
                filled <= RING_BUFFER_SIZE,
                slots@.len() == filled,
                forall|j: int| 0 <= j < filled ==> #[trigger] slots@[j] == blank_event(),
            decreases RING_BUFFER_SIZE - filled,
        {
            slots.push(RawCaptureEvent { raw_ticks: 0, key_id: 0, action: ActionKind::Press });
            filled = filled + 1;
        }
        CaptureRingBuffer { slots, write_count: 0, written: Ghost(Seq::empty()) }
    }

    /// How many events were written since the buffer was made.
    pub fn total_written(&self) -> (total: u64)
        requires
            self.wf(),
        ensures
            total == self@.len(),
    {
        self.write_count
    }

    /// Stores one event in the slot after the last one written, overwriting
    /// the oldest event once the buffer is full. Neither allocates nor blocks.
    pub fn write(&mut self, raw_ticks: u64, key_id: u32, action: ActionKind)
        requires
            old(self).wf(),
            old(self)@.len() < u64::MAX,
        ensures
            final(self).wf(),
            final(self)@ == old(self)@.push(RawCaptureEvent { raw_ticks, key_id, action }),
    {
        let event = RawCaptureEvent { raw_ticks, key_id, action };
        let count: u64 = self.write_count;
        assert(count & 0xFFFF == count % 0x10000) by (bit_vector);
        let index: usize = (count & (RING_BUFFER_SIZE as u64 - 1)) as usize;
        self.slots.set(index, event);
        self.write_count = count + 1;
        self.written = Ghost(self.written@.push(event));
        proof {
            let before = old(self).written@;
            let after = self.written@;
            assert forall|i: int|
                0 <= i < after.len() && after.len() - i <= RING_BUFFER_SIZE implies self.slots@[i
                % 65536] == #[trigger] after[i] by {
                if i < before.len() {
                    assert(before[i] == after[i]);
                    assert(i % 65536 != index);
                }
            }
        }
    }

    /// The capture callback's decision for one notification: stores a press
    /// or a release that comes with a hook code that is not negative, and
    /// nothing else. Tells whether it stored the event.
    pub fn record(&mut self, hook_code: i32, message: u32, key_id: u32, raw_ticks: u64) -> (recorded:
        bool)
        requires
            old(self).wf(),
            old(self)@.len() < u64::MAX,
        ensures
            final(self).wf(),
            recorded == is_recorded(hook_code, message),
            recorded ==> final(self)@ == old(self)@.push(
                RawCaptureEvent { raw_ticks, key_id, action: action_of_message(message) },
            ),
            !recorded ==> final(self)@ == old(self)@,
    {
        if hook_code < 0 {
            return false;
        }
        match classify_message(message) {
            ActionKind::Other => false,
            kind => {
                self.write(raw_ticks, key_id, kind);
                true
            },
        }
    }

    /// What the buffer still holds, oldest first, and the number of events
    /// ever written. To be called once the producer has stopped.
    pub fn snapshot(&self) -> (out: (Vec<RawCaptureEvent>, u64))
        requires
            self.wf(),
        ensures
            out.0@ == retained(self@),
            out.1 == self@.len(),
    {
        let total: u64 = self.write_count;
        let ghost history = self.written@;
        let mut events: Vec<RawCaptureEvent> = Vec::new();
        if total <= RING_BUFFER_SIZE as u64 {
            let count: usize = total as usize;
            let mut next: usize = 0;
            while next < count
                invariant
                    self.wf(),
                    history == self.written@,
                    count == history.len(),
                    count <= RING_BUFFER_SIZE,
                    next <= count,
                    events@ == history.subrange(0, next as int),
                decreases count - next,
            {
                assert(self.slots@[(next as int) % 65536] == history[next as int]);
                events.push(self.slots[next]);
                assert(events@ =~= history.subrange(0, next + 1));
                next = next + 1;
            }
            assert(events@ =~= history);
        } else {
            assert(total & 0xFFFF == total % 0x10000) by (bit_vector);
            let start: usize = (total & (RING_BUFFER_SIZE as u64 - 1)) as usize;
            let ghost oldest: int = history.len() - RING_BUFFER_SIZE;
            let mut next: usize = start;
            while next < RING_BUFFER_SIZE
                invariant
                    self.wf(),
                    history == self.written@,
                    total == history.len(),
                    total > RING_BUFFER_SIZE,
                    start == total % 65536,
                    oldest == history.len() - RING_BUFFER_SIZE,
                    start <= next <= RING_BUFFER_SIZE,
                    events@ == history.subrange(oldest, oldest + (next - start)),
                decreases RING_BUFFER_SIZE - next,
            {
                let ghost logical: int = oldest + (next - start);
                assert(logical % 65536 == next);
                assert(self.slots@[logical % 65536] == history[logical]);
                events.push(self.slots[next]);
                assert(events@ =~= history.subrange(oldest, logical + 1));
                next = next + 1;
            }
            next = 0;
            while next < start
                invariant
                    self.wf(),
                    history == self.written@,
                    total == history.len(),
                    total > RING_BUFFER_SIZE,
                    start == total % 65536,
                    oldest == history.len() - RING_BUFFER_SIZE,
                    next <= start < RING_BUFFER_SIZE,
                    events@ == history.subrange(oldest, history.len() - start + next),
                decreases start - next,
            {
                let ghost logical: int = history.len() - start + next;
                assert(logical % 65536 == next);
                assert(self.slots@[logical % 65536] == history[logical]);
                events.push(self.slots[next]);
                assert(events@ =~= history.subrange(oldest, logical + 1));
                next = next + 1;
            }
        }
        (events, total)
    }

    /// The slot of a retained event is its index modulo the capacity.
    pub proof fn lemma_slot_of_index(&self, index: int)
        requires
            self.wf(),
            0 <= index < self@.len(),
            self@.len() - index <= RING_BUFFER_SIZE,
        ensures
            self.slot(index % (RING_BUFFER_SIZE as int)) == self@[index],
    {
    }

    /// A slot that no write has reached is blank.
    pub proof fn lemma_unwritten_slot_blank(&self, index: int)
        requires
            self.wf(),
            self@.len() <= index < RING_BUFFER_SIZE,
        ensures
            self.slot(index) == blank_event(),
    {
    }
}

/// After the buffer has wrapped, a snapshot holds exactly as many events as
/// there are slots, and they are the last ones written, in the order of
/// writing.
pub proof fn lemma_retained_after_wrap(history: Seq<RawCaptureEvent>)
    requires
        history.len() > RING_BUFFER_SIZE,
    ensures
        retained(history).len() == RING_BUFFER_SIZE,
        forall|j: int|
            0 <= j < RING_BUFFER_SIZE ==> #[trigger] retained(history)[j] == history[history.len()
                - RING_BUFFER_SIZE + j],
{
}

/// Where the producer stamped its events with growing tick values, what a
/// snapshot holds is in growing order too, wrapped or not: the entry with
/// the smallest tick value comes first.
pub proof fn lemma_retained_increasing(history: Seq<RawCaptureEvent>)
    requires
        ticks_increasing(history),
    ensures
        ticks_increasing(retained(history)),
        forall|j: int|
            0 <= j < retained(history).len() ==> retained(history)[0].raw_ticks <= #[trigger] retained(
                history,
            )[j].raw_ticks,
{
    let kept = retained(history);
    let offset: int = history.len() - kept.len();
    assert forall|i: int, j: int| 0 <= i < j < kept.len() implies kept[i].raw_ticks
        < kept[j].raw_ticks by {
        assert(kept[i] == history[offset + i]);
        assert(kept[j] == history[offset + j]);
    }
}

/// At exactly `RING_BUFFER_SIZE` writes the buffer is full and has not
/// wrapped: a snapshot holds every event written, in the order of writing,
/// which is also what the rule for a wrapped buffer would give.
pub proof fn lemma_retained_at_capacity(history: Seq<RawCaptureEvent>)
    requires
        history.len() == RING_BUFFER_SIZE,
    ensures
        retained(history) == history,
        retained(history) == history.subrange(
            history.len() - RING_BUFFER_SIZE,
            history.len() as int,
        ),
{
    assert(history.subrange(0, history.len() as int) =~= history);
}

} // verus!
