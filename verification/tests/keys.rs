use key_timing::keys::get_key_name;

#[test]
fn letters_and_digits_are_their_own_character() {
    assert_eq!(get_key_name(0x41), "A");
    assert_eq!(get_key_name(0x5A), "Z");
    assert_eq!(get_key_name(0x4D), "M");
    assert_eq!(get_key_name(0x30), "0");
    assert_eq!(get_key_name(0x39), "9");
}

#[test]
fn keypad_digits_are_numbered() {
    assert_eq!(get_key_name(0x60), "NUM0");
    assert_eq!(get_key_name(0x65), "NUM5");
    assert_eq!(get_key_name(0x69), "NUM9");
}

#[test]
fn function_keys_count_from_one() {
    assert_eq!(get_key_name(0x70), "F1");
    assert_eq!(get_key_name(0x78), "F9");
    assert_eq!(get_key_name(0x79), "F10");
    assert_eq!(get_key_name(0x7B), "F12");
    assert_eq!(get_key_name(0x87), "F24");
}

#[test]
fn modifier_and_editing_keys_have_fixed_names() {
    assert_eq!(get_key_name(0x10), "SHIFT");
    assert_eq!(get_key_name(0x11), "CTRL");
    assert_eq!(get_key_name(0x12), "ALT");
    assert_eq!(get_key_name(0xA0), "LSHIFT");
    assert_eq!(get_key_name(0xA1), "RSHIFT");
    assert_eq!(get_key_name(0xA2), "LCTRL");
    assert_eq!(get_key_name(0xA3), "RCTRL");
    assert_eq!(get_key_name(0xA4), "LALT");
    assert_eq!(get_key_name(0xA5), "RALT");
    assert_eq!(get_key_name(0x20), "SPACE");
    assert_eq!(get_key_name(0x0D), "ENTER");
    assert_eq!(get_key_name(0x08), "BACKSPACE");
    assert_eq!(get_key_name(0x09), "TAB");
    assert_eq!(get_key_name(0x1B), "ESC");
    assert_eq!(get_key_name(0x01), "LBUTTON");
    assert_eq!(get_key_name(0x02), "RBUTTON");
    assert_eq!(get_key_name(0x04), "MBUTTON");
}

#[test]
fn other_codes_are_rendered_in_hexadecimal() {
    assert_eq!(get_key_name(0x00), "VK_00");
    assert_eq!(get_key_name(0x03), "VK_03");
    assert_eq!(get_key_name(0x0F), "VK_0F");
    assert_eq!(get_key_name(0x2F), "VK_2F");
    assert_eq!(get_key_name(0x3A), "VK_3A");
    assert_eq!(get_key_name(0x40), "VK_40");
    assert_eq!(get_key_name(0x5B), "VK_5B");
    assert_eq!(get_key_name(0x6A), "VK_6A");
    assert_eq!(get_key_name(0x88), "VK_88");
    assert_eq!(get_key_name(0xBF), "VK_BF");
    assert_eq!(get_key_name(0xFF), "VK_FF");
    assert_eq!(get_key_name(0x100), "VK_100");
    assert_eq!(get_key_name(0xABCDE), "VK_ABCDE");
    assert_eq!(get_key_name(u32::MAX), "VK_FFFFFFFF");
}

#[test]
fn every_code_below_512_matches_the_formatting_rules() {
    for code in 0u32..512 {
        let expected = match code {
            0x41..=0x5A | 0x30..=0x39 => format!("{}", (code as u8) as char),
            0x60..=0x69 => format!("NUM{}", code - 0x60),
            0x70..=0x87 => format!("F{}", code - 0x6F),
            0x10 => "SHIFT".to_string(),
            0x11 => "CTRL".to_string(),
            0x12 => "ALT".to_string(),
            0xA0 => "LSHIFT".to_string(),
            0xA1 => "RSHIFT".to_string(),
            0xA2 => "LCTRL".to_string(),
            0xA3 => "RCTRL".to_string(),
            0xA4 => "LALT".to_string(),
            0xA5 => "RALT".to_string(),
            0x20 => "SPACE".to_string(),
            0x0D => "ENTER".to_string(),
            0x08 => "BACKSPACE".to_string(),
            0x09 => "TAB".to_string(),
            0x1B => "ESC".to_string(),
            0x01 => "LBUTTON".to_string(),
            0x02 => "RBUTTON".to_string(),
            0x04 => "MBUTTON".to_string(),
            _ => format!("VK_{:02X}", code),
        };
        assert_eq!(get_key_name(code), expected, "code {:#x}", code);
    }
}

#[test]
fn resolving_twice_gives_the_same_name() {
    for code in [0u32, 0x41, 0x65, 0x7B, 0x10, 0xBF, 0x1234, u32::MAX] {
        assert_eq!(get_key_name(code), get_key_name(code));
    }
}

#[test]
fn different_codes_have_different_names() {
    let mut seen = std::collections::HashMap::new();
    let codes = (0u32..70_000).chain([0xFFFF_FFF0, u32::MAX - 1, u32::MAX]);
    for code in codes {
        let name = get_key_name(code);
        assert_eq!(seen.insert(name, code), None, "code {:#x}", code);
    }
}
