use key_timing::calibration::Calibration;
use key_timing::export::{concat_lines, event_fields, render_csv, rows_of};
use key_timing::reconstruct::{reconstruct, KeyAction, ReconstructedEvent};
use key_timing::ring::{ActionKind, RawCaptureEvent};
use key_timing::text::decimal_string;

fn event(
    sequence_id: u64,
    timestamp_us: u64,
    key_id: u32,
    key_name: &str,
    action: KeyAction,
    interval_us: u64,
) -> ReconstructedEvent {
    ReconstructedEvent {
        sequence_id,
        timestamp_us,
        key_id,
        key_name: key_name.to_string(),
        action,
        interval_us,
    }
}

#[test]
fn numbers_are_written_in_decimal() {
    assert_eq!(decimal_string(0), "0");
    assert_eq!(decimal_string(7), "7");
    assert_eq!(decimal_string(10), "10");
    assert_eq!(decimal_string(65), "65");
    assert_eq!(decimal_string(1_000_000), "1000000");
    assert_eq!(decimal_string(u64::MAX), "18446744073709551615");
    for n in (0u64..200_000).step_by(37) {
        assert_eq!(decimal_string(n), n.to_string());
    }
}

#[test]
fn fields_come_in_their_fixed_order() {
    let fields = event_fields(&event(3, 125, 0x41, "A", KeyAction::Down, 75));
    assert_eq!(fields, vec!["3", "125", "65", "A", "down", "75"]);
    let fields = event_fields(&event(u64::MAX, 0, u32::MAX, "VK_FFFFFFFF", KeyAction::Up, 1));
    assert_eq!(
        fields,
        vec!["18446744073709551615", "0", "4294967295", "VK_FFFFFFFF", "up", "1"]
    );
}

#[test]
fn rows_start_with_titles_and_field_names() {
    let rows = rows_of(&vec![event(0, 0, 0x41, "A", KeyAction::Down, 0)]);
    assert_eq!(
        rows,
        vec![
            vec!["EventID", "Timestamp(us)", "KeyCode", "KeyName", "Action", "Interval(us)"],
            vec!["event_id", "timestamp_us", "key_code", "key_name", "action", "interval_us"],
            vec!["0", "0", "65", "A", "down", "0"],
        ]
    );
    let rows = rows_of(&Vec::new());
    assert_eq!(
        rows,
        vec![vec!["EventID", "Timestamp(us)", "KeyCode", "KeyName", "Action", "Interval(us)"]]
    );
}

#[test]
fn lines_are_joined_in_order() {
    assert_eq!(concat_lines(&Vec::new()), Vec::<u8>::new());
    assert_eq!(concat_lines(&vec![vec![], vec![]]), Vec::<u8>::new());
    assert_eq!(
        concat_lines(&vec![b"ab\n".to_vec(), vec![], b"c".to_vec(), b"de\n".to_vec()]),
        b"ab\ncde\n".to_vec()
    );
}

#[test]
fn document_of_a_reconstructed_sequence() {
    let raw_events = vec![
        RawCaptureEvent { raw_ticks: 100, key_id: 0x41, action: ActionKind::Press },
        RawCaptureEvent { raw_ticks: 150, key_id: 0x41, action: ActionKind::Release },
        RawCaptureEvent { raw_ticks: 225, key_id: 0x70, action: ActionKind::Press },
    ];
    let calibration = Calibration::from_ticks_per_second(1_000_000).unwrap();
    let events = reconstruct(&raw_events, &calibration);
    let document = String::from_utf8(render_csv(&events)).unwrap();
    assert_eq!(
        document,
        "EventID,Timestamp(us),KeyCode,KeyName,Action,Interval(us)\n\
         event_id,timestamp_us,key_code,key_name,action,interval_us\n\
         0,0,65,A,down,0\n\
         1,50,65,A,up,50\n\
         2,125,112,F1,down,75\n"
    );
}

#[test]
fn document_without_events_is_the_title_line() {
    let document = String::from_utf8(render_csv(&Vec::new())).unwrap();
    assert_eq!(document, "EventID,Timestamp(us),KeyCode,KeyName,Action,Interval(us)\n");
}

#[test]
fn fields_with_separators_or_quotes_are_quoted() {
    let events = vec![
        event(0, 0, 1, "a,b", KeyAction::Down, 0),
        event(1, 5, 2, "say \"hi\"", KeyAction::Up, 5),
        event(2, 9, 3, "two\nlines", KeyAction::Up, 4),
        event(3, 9, 4, "", KeyAction::Up, 0),
    ];
    let document = String::from_utf8(render_csv(&events)).unwrap();
    assert_eq!(
        document,
        "EventID,Timestamp(us),KeyCode,KeyName,Action,Interval(us)\n\
         event_id,timestamp_us,key_code,key_name,action,interval_us\n\
         0,0,1,\"a,b\",down,0\n\
         1,5,2,\"say \"\"hi\"\"\",up,5\n\
         2,9,3,\"two\nlines\",up,4\n\
         3,9,4,,up,0\n"
    );
}
