use key_timing::ring::{
    classify_message, ActionKind, CaptureRingBuffer, RawCaptureEvent, RING_BUFFER_SIZE,
    WM_KEYDOWN, WM_KEYUP, WM_SYSKEYDOWN, WM_SYSKEYUP,
};

fn event(raw_ticks: u64, key_id: u32, action: ActionKind) -> RawCaptureEvent {
    RawCaptureEvent { raw_ticks, key_id, action }
}

#[test]
fn capacity_is_a_power_of_two() {
    assert_eq!(RING_BUFFER_SIZE, 65536);
    assert!(RING_BUFFER_SIZE.is_power_of_two());
}

#[test]
fn a_new_buffer_is_empty() {
    let buffer = CaptureRingBuffer::new();
    assert_eq!(buffer.total_written(), 0);
    let (events, total) = buffer.snapshot();
    assert!(events.is_empty());
    assert_eq!(total, 0);
}

#[test]
fn snapshot_before_wrapping_returns_the_writes_in_order() {
    let mut buffer = CaptureRingBuffer::new();
    buffer.write(100, 0x41, ActionKind::Press);
    buffer.write(150, 0x41, ActionKind::Release);
    buffer.write(225, 0x42, ActionKind::Other);
    assert_eq!(buffer.total_written(), 3);
    let (events, total) = buffer.snapshot();
    assert_eq!(total, 3);
    assert_eq!(
        events,
        vec![
            event(100, 0x41, ActionKind::Press),
            event(150, 0x41, ActionKind::Release),
            event(225, 0x42, ActionKind::Other),
        ]
    );
}

#[test]
fn snapshot_does_not_clear_the_buffer() {
    let mut buffer = CaptureRingBuffer::new();
    buffer.write(7, 1, ActionKind::Press);
    let first = buffer.snapshot();
    let second = buffer.snapshot();
    assert_eq!(first, second);
    buffer.write(9, 2, ActionKind::Release);
    assert_eq!(buffer.snapshot().0.len(), 2);
}

#[test]
fn snapshot_at_exactly_capacity_returns_every_write_in_order() {
    let mut buffer = CaptureRingBuffer::new();
    for i in 0..RING_BUFFER_SIZE as u64 {
        buffer.write(1000 + i, (i % 7) as u32, ActionKind::Press);
    }
    let (events, total) = buffer.snapshot();
    assert_eq!(total, RING_BUFFER_SIZE as u64);
    assert_eq!(events.len(), RING_BUFFER_SIZE);
    for (i, event) in events.iter().enumerate() {
        assert_eq!(event.raw_ticks, 1000 + i as u64);
        assert_eq!(event.key_id, (i % 7) as u32);
    }
}

#[test]
fn snapshot_one_short_of_capacity_and_one_past_it() {
    let mut buffer = CaptureRingBuffer::new();
    for i in 0..(RING_BUFFER_SIZE as u64 - 1) {
        buffer.write(1 + i, 0, ActionKind::Press);
    }
    let (events, total) = buffer.snapshot();
    assert_eq!(total, RING_BUFFER_SIZE as u64 - 1);
    assert_eq!(events.len(), RING_BUFFER_SIZE - 1);
    assert_eq!(events[0].raw_ticks, 1);
    assert_eq!(events[RING_BUFFER_SIZE - 2].raw_ticks, RING_BUFFER_SIZE as u64 - 1);
    buffer.write(RING_BUFFER_SIZE as u64, 0, ActionKind::Press);
    buffer.write(RING_BUFFER_SIZE as u64 + 1, 0, ActionKind::Press);
    let (events, total) = buffer.snapshot();
    assert_eq!(total, RING_BUFFER_SIZE as u64 + 1);
    assert_eq!(events.len(), RING_BUFFER_SIZE);
    assert_eq!(events[0].raw_ticks, 2);
    assert_eq!(events[RING_BUFFER_SIZE - 1].raw_ticks, RING_BUFFER_SIZE as u64 + 1);
}

#[test]
fn snapshot_after_wrapping_returns_the_last_writes_oldest_first() {
    let extra: u64 = 100;
    let mut buffer = CaptureRingBuffer::new();
    for i in 0..(RING_BUFFER_SIZE as u64 + extra) {
        buffer.write(5000 + 3 * i, i as u32, ActionKind::Release);
    }
    let (events, total) = buffer.snapshot();
    assert_eq!(total, RING_BUFFER_SIZE as u64 + extra);
    assert_eq!(events.len(), RING_BUFFER_SIZE);
    let smallest = events.iter().map(|event| event.raw_ticks).min().unwrap();
    assert_eq!(events[0].raw_ticks, smallest);
    for (j, event) in events.iter().enumerate() {
        let i = extra + j as u64;
        assert_eq!(*event, RawCaptureEvent {
            raw_ticks: 5000 + 3 * i,
            key_id: i as u32,
            action: ActionKind::Release,
        });
    }
}

#[test]
fn snapshot_after_wrapping_several_times() {
    let writes: u64 = 3 * RING_BUFFER_SIZE as u64 + 17;
    let mut buffer = CaptureRingBuffer::new();
    for i in 0..writes {
        buffer.write(1 + i, 0, ActionKind::Press);
    }
    let (events, total) = buffer.snapshot();
    assert_eq!(total, writes);
    assert_eq!(events.len(), RING_BUFFER_SIZE);
    assert_eq!(events[0].raw_ticks, writes - RING_BUFFER_SIZE as u64 + 1);
    assert!(events.windows(2).all(|pair| pair[0].raw_ticks + 1 == pair[1].raw_ticks));
}

#[test]
fn snapshot_at_a_multiple_of_capacity() {
    let writes: u64 = 2 * RING_BUFFER_SIZE as u64;
    let mut buffer = CaptureRingBuffer::new();
    for i in 0..writes {
        buffer.write(1 + i, 0, ActionKind::Press);
    }
    let (events, total) = buffer.snapshot();
    assert_eq!(total, writes);
    assert_eq!(events.len(), RING_BUFFER_SIZE);
    assert_eq!(events[0].raw_ticks, RING_BUFFER_SIZE as u64 + 1);
    assert_eq!(events[RING_BUFFER_SIZE - 1].raw_ticks, writes);
}

#[test]
fn messages_are_classified() {
    assert_eq!(classify_message(WM_KEYDOWN), ActionKind::Press);
    assert_eq!(classify_message(WM_SYSKEYDOWN), ActionKind::Press);
    assert_eq!(classify_message(WM_KEYUP), ActionKind::Release);
    assert_eq!(classify_message(WM_SYSKEYUP), ActionKind::Release);
    assert_eq!(classify_message(0x0100), ActionKind::Press);
    assert_eq!(classify_message(0x0101), ActionKind::Release);
    assert_eq!(classify_message(0x0104), ActionKind::Press);
    assert_eq!(classify_message(0x0105), ActionKind::Release);
    assert_eq!(classify_message(0x0102), ActionKind::Other);
    assert_eq!(classify_message(0), ActionKind::Other);
    assert_eq!(classify_message(u32::MAX), ActionKind::Other);
}

#[test]
fn record_stores_presses_and_releases_only() {
    let mut buffer = CaptureRingBuffer::new();
    assert!(buffer.record(0, WM_KEYDOWN, 0x41, 10));
    assert!(buffer.record(3, WM_SYSKEYUP, 0x12, 20));
    assert!(!buffer.record(-1, WM_KEYDOWN, 0x41, 30));
    assert!(!buffer.record(0, 0x0102, 0x41, 40));
    assert!(!buffer.record(i32::MIN, 0x0102, 0x41, 50));
    assert!(buffer.record(i32::MAX, WM_KEYUP, 0x41, 60));
    let (events, total) = buffer.snapshot();
    assert_eq!(total, 3);
    assert_eq!(
        events,
        vec![
            event(10, 0x41, ActionKind::Press),
            event(20, 0x12, ActionKind::Release),
            event(60, 0x41, ActionKind::Release),
        ]
    );
}
