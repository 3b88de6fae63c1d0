use key_timing::calibration::Calibration;
use key_timing::reconstruct::{
    assemble_events, order_events, reconstruct, retain_valid, KeyAction, ReconstructedEvent,
};
use key_timing::ring::{ActionKind, CaptureRingBuffer, RawCaptureEvent};

fn raw(raw_ticks: u64, key_id: u32, action: ActionKind) -> RawCaptureEvent {
    RawCaptureEvent { raw_ticks, key_id, action }
}

fn one_tick_per_microsecond() -> Calibration {
    Calibration::from_ticks_per_second(1_000_000).unwrap()
}

fn timestamps(events: &[ReconstructedEvent]) -> Vec<u64> {
    events.iter().map(|event| event.timestamp_us).collect()
}

fn intervals(events: &[ReconstructedEvent]) -> Vec<u64> {
    events.iter().map(|event| event.interval_us).collect()
}

#[test]
fn intervals_are_derived_from_raw_ticks() {
    let raw_events = vec![
        raw(100, 0x41, ActionKind::Press),
        raw(150, 0x41, ActionKind::Release),
        raw(225, 0x42, ActionKind::Press),
    ];
    let events = reconstruct(&raw_events, &one_tick_per_microsecond());
    assert_eq!(timestamps(&events), vec![0, 50, 125]);
    assert_eq!(intervals(&events), vec![0, 50, 75]);
}

#[test]
fn events_carry_position_name_and_direction() {
    let raw_events = vec![
        raw(100, 0x41, ActionKind::Press),
        raw(150, 0x70, ActionKind::Release),
        raw(225, 0xBF, ActionKind::Other),
    ];
    let events = reconstruct(&raw_events, &one_tick_per_microsecond());
    assert_eq!(events.len(), 3);
    assert_eq!(events[0].sequence_id, 0);
    assert_eq!(events[1].sequence_id, 1);
    assert_eq!(events[2].sequence_id, 2);
    assert_eq!(events[0].key_id, 0x41);
    assert_eq!(events[0].key_name, "A");
    assert_eq!(events[1].key_name, "F1");
    assert_eq!(events[2].key_name, "VK_BF");
    assert_eq!(events[0].action, KeyAction::Down);
    assert_eq!(events[1].action, KeyAction::Up);
    assert_eq!(events[2].action, KeyAction::Up);
    assert_eq!(events[0].action.label(), "down");
    assert_eq!(events[1].action.label(), "up");
}

#[test]
fn events_out_of_order_are_sorted_by_ticks() {
    let raw_events = vec![
        raw(225, 3, ActionKind::Press),
        raw(100, 1, ActionKind::Press),
        raw(150, 2, ActionKind::Release),
    ];
    let ordered = order_events(&raw_events);
    assert_eq!(
        ordered,
        vec![
            raw(100, 1, ActionKind::Press),
            raw(150, 2, ActionKind::Release),
            raw(225, 3, ActionKind::Press),
        ]
    );
    let events = reconstruct(&raw_events, &one_tick_per_microsecond());
    assert_eq!(events.iter().map(|event| event.key_id).collect::<Vec<u32>>(), vec![1, 2, 3]);
    assert_eq!(timestamps(&events), vec![0, 50, 125]);
    assert_eq!(intervals(&events), vec![0, 50, 75]);
}

#[test]
fn never_written_slots_are_filtered_out() {
    let raw_events = vec![
        raw(0, 0, ActionKind::Press),
        raw(300, 0x41, ActionKind::Press),
        raw(0, 0x42, ActionKind::Release),
        raw(200, 0x43, ActionKind::Press),
        raw(0, 0, ActionKind::Press),
    ];
    assert_eq!(
        retain_valid(&raw_events),
        vec![raw(300, 0x41, ActionKind::Press), raw(200, 0x43, ActionKind::Press)]
    );
    let events = reconstruct(&raw_events, &one_tick_per_microsecond());
    assert_eq!(events.len(), 2);
    assert_eq!(events[0].key_id, 0x43);
    assert_eq!(events[1].key_id, 0x41);
    assert_eq!(timestamps(&events), vec![0, 100]);
}

#[test]
fn no_valid_events_give_an_empty_sequence() {
    let calibration = one_tick_per_microsecond();
    assert!(reconstruct(&Vec::new(), &calibration).is_empty());
    let blanks = vec![raw(0, 0, ActionKind::Press), raw(0, 5, ActionKind::Release)];
    assert!(reconstruct(&blanks, &calibration).is_empty());
    assert!(assemble_events(&Vec::new(), &calibration).is_empty());
}

#[test]
fn a_single_event_starts_at_zero() {
    let events = reconstruct(&vec![raw(987_654, 0x20, ActionKind::Press)], &one_tick_per_microsecond());
    assert_eq!(events.len(), 1);
    assert_eq!(events[0].sequence_id, 0);
    assert_eq!(events[0].timestamp_us, 0);
    assert_eq!(events[0].interval_us, 0);
    assert_eq!(events[0].key_name, "SPACE");
}

#[test]
fn times_are_scaled_by_the_calibrated_rate() {
    let three_ghz = Calibration::from_ticks_per_second(3_000_000_000).unwrap();
    let raw_events = vec![
        raw(1_000_000, 1, ActionKind::Press),
        raw(1_003_000, 1, ActionKind::Release),
        raw(1_010_000, 1, ActionKind::Press),
        raw(4_000_000, 1, ActionKind::Release),
    ];
    let events = reconstruct(&raw_events, &three_ghz);
    // 3000 ticks are one microsecond; 7000 ticks are 2.33, 10_000 are 3.33.
    assert_eq!(timestamps(&events), vec![0, 1, 3, 1000]);
    assert_eq!(intervals(&events), vec![0, 1, 2, 996]);
}

#[test]
fn equal_ticks_are_kept_and_share_a_timestamp() {
    let raw_events = vec![
        raw(500, 1, ActionKind::Press),
        raw(400, 2, ActionKind::Press),
        raw(500, 3, ActionKind::Release),
        raw(400, 4, ActionKind::Release),
    ];
    let events = reconstruct(&raw_events, &one_tick_per_microsecond());
    assert_eq!(timestamps(&events), vec![0, 0, 100, 100]);
    assert_eq!(intervals(&events), vec![0, 0, 100, 0]);
    let mut first_pair: Vec<u32> = events[..2].iter().map(|event| event.key_id).collect();
    let mut second_pair: Vec<u32> = events[2..].iter().map(|event| event.key_id).collect();
    first_pair.sort();
    second_pair.sort();
    assert_eq!(first_pair, vec![2, 4]);
    assert_eq!(second_pair, vec![1, 3]);
}

#[test]
fn timestamps_never_decrease() {
    let mut raw_events = Vec::new();
    let mut ticks: u64 = 12_345;
    for i in 0..2000u64 {
        ticks = ticks.wrapping_mul(6_364_136_223_846_793_005).wrapping_add(1_442_695_040_888_963_407);
        raw_events.push(raw(ticks >> 20, (i % 50) as u32, ActionKind::Press));
    }
    let calibration = Calibration::from_ticks_per_second(2_893_117_331).unwrap();
    let events = reconstruct(&raw_events, &calibration);
    assert!(events.windows(2).all(|pair| pair[0].timestamp_us <= pair[1].timestamp_us));
    for (position, event) in events.iter().enumerate() {
        assert_eq!(event.sequence_id, position as u64);
    }
}

#[test]
fn count_after_filtering_is_writes_less_zero_tick_writes() {
    let mut buffer = CaptureRingBuffer::new();
    let mut zero_tick_writes = 0;
    for i in 0..1000u64 {
        let ticks = if i % 10 == 3 { 0 } else { 50 + i };
        if ticks == 0 {
            zero_tick_writes += 1;
        }
        buffer.write(ticks, 0x41, ActionKind::Press);
    }
    let (raw_events, total_written) = buffer.snapshot();
    let events = reconstruct(&raw_events, &one_tick_per_microsecond());
    assert_eq!(total_written, 1000);
    assert_eq!(zero_tick_writes, 100);
    assert_eq!(events.len() as u64, total_written - zero_tick_writes);
    assert_eq!(retain_valid(&raw_events).len() as u64, total_written - zero_tick_writes);
}

#[test]
fn count_is_conserved_in_normal_operation() {
    let mut buffer = CaptureRingBuffer::new();
    for i in 0..321u64 {
        buffer.write(1 + i, 0x41, ActionKind::Press);
    }
    let (raw_events, total_written) = buffer.snapshot();
    let events = reconstruct(&raw_events, &one_tick_per_microsecond());
    assert_eq!(events.len() as u64, total_written);
}

#[test]
fn times_follow_a_rate_that_is_not_whole() {
    // Three halves of a tick per second: a tick lasts two thirds of a second.
    let calibration = Calibration::from_readings(0, 1, 0, 2, 3).unwrap();
    let raw_events = vec![
        raw(10, 1, ActionKind::Press),
        raw(13, 1, ActionKind::Release),
        raw(14, 1, ActionKind::Press),
        raw(16, 1, ActionKind::Release),
    ];
    let events = reconstruct(&raw_events, &calibration);
    assert_eq!(timestamps(&events), vec![0, 2_000_000, 2_666_666, 4_000_000]);
    assert_eq!(intervals(&events), vec![0, 2_000_000, 666_666, 1_333_333]);
}

#[test]
fn every_event_carries_the_label_of_its_key() {
    let raw_events = vec![
        raw(3, 0x41, ActionKind::Press),
        raw(2, 0x70, ActionKind::Press),
        raw(1, 0x1234, ActionKind::Release),
    ];
    for event in reconstruct(&raw_events, &one_tick_per_microsecond()) {
        assert_eq!(event.key_name, key_timing::keys::get_key_name(event.key_id));
    }
}
