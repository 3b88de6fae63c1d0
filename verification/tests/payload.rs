use key_timing::payload::{decode_payload, KeyboardPayload, PAYLOAD_LEN};

#[test]
fn payload_fields_are_read_least_significant_byte_first() {
    let block: [u8; 24] = [
        0x41, 0x00, 0x00, 0x00, // key code
        0x1E, 0x00, 0x00, 0x00, // scan code
        0x80, 0x00, 0x00, 0x00, // flags
        0x78, 0x56, 0x34, 0x12, // time
        0xAA, 0xBB, 0xCC, 0xDD, 0xEE, 0xFF, 0x11, 0x22, // extra information
    ];
    assert_eq!(
        decode_payload(&block),
        Some(KeyboardPayload { key_id: 0x41, scan_code: 0x1E, flags: 0x80, time_ms: 0x1234_5678 })
    );
}

#[test]
fn payload_of_exactly_the_fields_is_accepted() {
    assert_eq!(PAYLOAD_LEN, 16);
    let block = [0xFFu8; 16];
    assert_eq!(
        decode_payload(&block),
        Some(KeyboardPayload {
            key_id: u32::MAX,
            scan_code: u32::MAX,
            flags: u32::MAX,
            time_ms: u32::MAX,
        })
    );
    let mut block = [0u8; 16];
    block[1] = 0x01;
    block[6] = 0x02;
    block[11] = 0x03;
    assert_eq!(
        decode_payload(&block),
        Some(KeyboardPayload { key_id: 0x100, scan_code: 0x2_0000, flags: 0x300_0000, time_ms: 0 })
    );
}

#[test]
fn a_short_payload_is_malformed() {
    assert_eq!(decode_payload(&[]), None);
    assert_eq!(decode_payload(&[0x41, 0, 0, 0]), None);
    assert_eq!(decode_payload(&[0u8; 15]), None);
}

#[test]
fn payload_agrees_with_the_standard_library() {
    let block: Vec<u8> = (0..16u8).map(|i| i.wrapping_mul(37).wrapping_add(11)).collect();
    let payload = decode_payload(&block).unwrap();
    assert_eq!(payload.key_id, u32::from_le_bytes([block[0], block[1], block[2], block[3]]));
    assert_eq!(payload.scan_code, u32::from_le_bytes([block[4], block[5], block[6], block[7]]));
    assert_eq!(payload.flags, u32::from_le_bytes([block[8], block[9], block[10], block[11]]));
    assert_eq!(payload.time_ms, u32::from_le_bytes([block[12], block[13], block[14], block[15]]));
}
