//! Key symbol resolver: a total mapping from virtual key codes to labels.

use crate::text::{
    decimal, decimal_digit, hex_upper_two, lemma_hex_upper_len, lemma_hex_upper_two_injective,
    push_decimal, push_hex_upper,
};
use vstd::prelude::*;
use vstd::string::*;

verus! {

/// The fixed name of a modifier, editing or mouse-button key, if `vk_code` is one.
pub open spec fn fixed_key_label(vk_code: u32) -> Option<Seq<char>> {
    if vk_code == 0x10 {
        Some("SHIFT"@)
    } else if vk_code == 0x11 {
        Some("CTRL"@)
    } else if vk_code == 0x12 {
        Some("ALT"@)
    } else if vk_code == 0xA0 {
        Some("LSHIFT"@)
    } else if vk_code == 0xA1 {
        Some("RSHIFT"@)
    } else if vk_code == 0xA2 {
        Some("LCTRL"@)
    } else if vk_code == 0xA3 {
        Some("RCTRL"@)
    } else if vk_code == 0xA4 {
        Some("LALT"@)
    } else if vk_code == 0xA5 {
        Some("RALT"@)
    } else if vk_code == 0x20 {
        Some("SPACE"@)
    } else if vk_code == 0x0D {
        Some("ENTER"@)
    } else if vk_code == 0x08 {
        Some("BACKSPACE"@)
    } else if vk_code == 0x09 {
        Some("TAB"@)
    } else if vk_code == 0x1B {
        Some("ESC"@)
    } else if vk_code == 0x01 {
        Some("LBUTTON"@)
    } else if vk_code == 0x02 {
        Some("RBUTTON"@)
    } else if vk_code == 0x04 {
        Some("MBUTTON"@)
    } else {
        None
    }
}

/// The label of a key: letters and digits are their own character, keypad
/// digits are `NUM0` to `NUM9`, function keys `F1` to `F24`, a handful of keys
/// have fixed names, and every other code is `VK_` followed by the code in
/// hexadecimal, at least two digits wide.
pub open spec fn key_label(vk_code: u32) -> Seq<char> {
    if (0x41 <= vk_code <= 0x5A) || (0x30 <= vk_code <= 0x39) {
        seq![vk_code as u8 as char]
    } else if 0x60 <= vk_code <= 0x69 {
        "NUM"@.add(decimal((vk_code - 0x60) as nat))
    } else if 0x70 <= vk_code <= 0x87 {
        "F"@.add(decimal((vk_code - 0x6F) as nat))
    } else if fixed_key_label(vk_code) is Some {
        fixed_key_label(vk_code)->0
    } else {
        "VK_"@.add(hex_upper_two(vk_code as nat))
    }
}

fn fixed_key_name(vk_code: u32) -> (name: Option<&'static str>)
    ensures
        name is Some <==> fixed_key_label(vk_code) is Some,
        name is Some ==> name->0@ == fixed_key_label(vk_code)->0,
{
    if vk_code == 0x10 {
        Some("SHIFT")
    } else if vk_code == 0x11 {
        Some("CTRL")
    } else if vk_code == 0x12 {
        Some("ALT")
    } else if vk_code == 0xA0 {
        Some("LSHIFT")
    } else if vk_code == 0xA1 {
        Some("RSHIFT")
    } else if vk_code == 0xA2 {
        Some("LCTRL")
    } else if vk_code == 0xA3 {
        Some("RCTRL")
    } else if vk_code == 0xA4 {
        Some("LALT")
    } else if vk_code == 0xA5 {
        Some("RALT")
    } else if vk_code == 0x20 {
        Some("SPACE")
    } else if vk_code == 0x0D {
        Some("ENTER")
    } else if vk_code == 0x08 {
        Some("BACKSPACE")
    } else if vk_code == 0x09 {
        Some("TAB")
    } else if vk_code == 0x1B {
        Some("ESC")
    } else if vk_code == 0x01 {
        Some("LBUTTON")
    } else if vk_code == 0x02 {
        Some("RBUTTON")
    } else if vk_code == 0x04 {
        Some("MBUTTON")
    } else {
        None
    }
}

/// Maps a virtual key code to its human-readable label.
///
/// The mapping is total and depends on the code alone.
pub fn get_key_name(vk_code: u32) -> (name: String)
    ensures
        name@ == key_label(vk_code),
{
    if (0x41 <= vk_code && vk_code <= 0x5A) || (0x30 <= vk_code && vk_code <= 0x39) {
        let mut name = String::new();
        name.push((vk_code as u8) as char);
        assert(name@ =~= key_label(vk_code));
        name
    } else if 0x60 <= vk_code && vk_code <= 0x69 {
        let mut name = String::from_str("NUM");
        push_decimal(&mut name, (vk_code - 0x60) as u64);
        name
    } else if 0x70 <= vk_code && vk_code <= 0x87 {
        let mut name = String::from_str("F");
        push_decimal(&mut name, (vk_code - 0x6F) as u64);
        name
    } else {
        match fixed_key_name(vk_code) {
            Some(fixed) => String::from_str(fixed),
            None => {
                let mut name = String::from_str("VK_");
                if vk_code < 16 {
                    name.push('0');
                }
                push_hex_upper(&mut name, vk_code as u64);
                assert(name@ =~= key_label(vk_code));
                name
            },
        }
    }
}

/// The code of the key that a fixed name belongs to, read off the name's
/// length and first letters.
spec fn code_of_fixed_label(label: Seq<char>) -> u32 {
    if label.len() == 9 {
        0x08
    } else if label.len() == 7 {
        if label[0] == 'L' {
            0x01
        } else if label[0] == 'R' {
            0x02
        } else {
            0x04
        }
    } else if label.len() == 6 {
        if label[0] == 'L' {
            0xA0
        } else {
            0xA1
        }
    } else if label.len() == 5 {
        if label[0] == 'S' {
            if label[1] == 'H' {
                0x10
            } else {
                0x20
            }
        } else if label[0] == 'L' {
            0xA2
        } else if label[0] == 'R' {
            0xA3
        } else {
            0x0D
        }
    } else if label.len() == 4 {
        if label[0] == 'C' {
            0x11
        } else if label[0] == 'L' {
            0xA4
        } else {
            0xA5
        }
    } else {
        if label[0] == 'A' {
            0x12
        } else if label[0] == 'T' {
            0x09
        } else {
            0x1B
        }
    }
}

/// A fixed name has at least three letters, starts unlike a keypad digit,
/// a function key or a raw code, and gives its key's code back.
proof fn lemma_fixed_label(vk_code: u32)
    requires
        fixed_key_label(vk_code) is Some,
    ensures
        fixed_key_label(vk_code)->0.len() >= 3,
        fixed_key_label(vk_code)->0[0] != 'N',
        fixed_key_label(vk_code)->0[0] != 'F',
        fixed_key_label(vk_code)->0[0] != 'V',
        code_of_fixed_label(fixed_key_label(vk_code)->0) == vk_code,
{
    reveal_strlit("SHIFT");
    reveal_strlit("CTRL");
    reveal_strlit("ALT");
    reveal_strlit("LSHIFT");
    reveal_strlit("RSHIFT");
    reveal_strlit("LCTRL");
    reveal_strlit("RCTRL");
    reveal_strlit("LALT");
    reveal_strlit("RALT");
    reveal_strlit("SPACE");
    reveal_strlit("ENTER");
    reveal_strlit("BACKSPACE");
    reveal_strlit("TAB");
    reveal_strlit("ESC");
    reveal_strlit("LBUTTON");
    reveal_strlit("RBUTTON");
    reveal_strlit("MBUTTON");
}

/// The shape of a label, by the range that the code lies in.
proof fn lemma_label_shape(vk_code: u32)
    ensures
        ((0x41 <= vk_code <= 0x5A) || (0x30 <= vk_code <= 0x39)) ==> key_label(vk_code).len() == 1
            && key_label(vk_code)[0] == vk_code as u8 as char,
        0x60 <= vk_code <= 0x69 ==> key_label(vk_code).len() == 4 && key_label(vk_code)[0] == 'N'
            && key_label(vk_code)[3] == decimal_digit((vk_code - 0x60) as nat),
        0x70 <= vk_code <= 0x78 ==> key_label(vk_code).len() == 2 && key_label(vk_code)[0] == 'F'
            && key_label(vk_code)[1] == decimal_digit((vk_code - 0x6F) as nat),
        0x79 <= vk_code <= 0x87 ==> key_label(vk_code).len() == 3 && key_label(vk_code)[0] == 'F'
            && key_label(vk_code)[1] == decimal_digit(((vk_code - 0x6F) / 10) as nat)
            && key_label(vk_code)[2] == decimal_digit(((vk_code - 0x6F) % 10) as nat),
        key_label(vk_code) == "VK_"@.add(hex_upper_two(vk_code as nat)) ==> key_label(
            vk_code,
        ).len() >= 5 && key_label(vk_code)[0] == 'V' && key_label(vk_code).subrange(
            3,
            key_label(vk_code).len() as int,
        ) == hex_upper_two(vk_code as nat),
{
    reveal_strlit("NUM");
    reveal_strlit("F");
    reveal_strlit("VK_");
    lemma_hex_upper_len(vk_code as nat);
    if 0x79 <= vk_code <= 0x87 {
        let n = (vk_code - 0x6F) as nat;
        assert(decimal(n) == decimal(n / 10).push(decimal_digit(n % 10)));
        assert(decimal(n / 10) == seq![decimal_digit(n / 10)]);
    }
    let raw = "VK_"@.add(hex_upper_two(vk_code as nat));
    assert(raw.subrange(3, raw.len() as int) =~= hex_upper_two(vk_code as nat));
}

/// Different key codes have different labels: the events of one key are
/// the events under one name.
pub proof fn lemma_key_label_injective(first: u32, second: u32)
    requires
        key_label(first) == key_label(second),
    ensures
        first == second,
{
    lemma_label_shape(first);
    lemma_label_shape(second);
    if fixed_key_label(first) is Some {
        lemma_fixed_label(first);
    }
    if fixed_key_label(second) is Some {
        lemma_fixed_label(second);
    }
    let is_raw = |vk_code: u32|
        key_label(vk_code) == "VK_"@.add(hex_upper_two(vk_code as nat));
    if is_raw(first) && is_raw(second) {
        lemma_hex_upper_two_injective(first as nat, second as nat);
    }
}

} // verus!
