//! Keyboard mapping from USB HID usages to Windows scan codes.
use vstd::prelude::*;

mod state;

pub use state::{
    button_changes, button_changes_spec, classify, classify_spec, held_buttons, held_buttons_spec,
    keyboard_plan_spec, modifier_actions, points_of, sorted, touch_phase, with_phase, InputError,
    InputKind, KeyAction, KeyboardState, TouchPhase, TouchPoint, TouchState, MAX_CONTACTS,
    apply_buttons, avoids, is_modifier_code, lemma_button_changes_reach, lemma_plan_keeps_modifiers,
    modifier_synced,
};

verus! {

/// Scan codes of the letters A..Z (HID usages 4..=29).
pub open spec fn letter_codes() -> Seq<u16> {
    seq![
        0x1eu16, 0x30, 0x2e, 0x20, 0x12, 0x21, 0x22, 0x23, 0x17, 0x24, 0x25, 0x26, 0x32, 0x31,
        0x18, 0x19, 0x10, 0x13, 0x1f, 0x14, 0x16, 0x2f, 0x11, 0x2d, 0x15, 0x2c,
    ]
}

/// Scan codes of keypad 1..9 (HID usages 89..=97).
pub open spec fn keypad_codes() -> Seq<u16> {
    seq![0x4fu16, 0x50, 0x51, 0x4b, 0x4c, 0x4d, 0x47, 0x48, 0x49]
}

/// USB HID keyboard page 0x07 usage to Windows scan code set 1; bit 0x100 marks an
/// E0-prefixed (extended) key. Usages without a key on the host map to nothing.
pub open spec fn scan_code_spec(hid: u16) -> Option<u16> {
    if 4 <= hid <= 29 {
        Some(letter_codes()[hid - 4])
    } else if 30 <= hid <= 38 {
        Some((hid - 28) as u16)
    } else if 58 <= hid <= 67 {
        Some((hid + 1) as u16)
    } else if 89 <= hid <= 97 {
        Some(keypad_codes()[hid - 89])
    } else {
        match hid {
            39 => Some(0x0bu16),
            40 => Some(0x1c),
            41 => Some(0x01),
            42 => Some(0x0e),
            43 => Some(0x0f),
            44 => Some(0x39),
            45 => Some(0x0c),
            46 => Some(0x0d),
            47 => Some(0x1a),
            48 => Some(0x1b),
            49 => Some(0x2b),
            51 => Some(0x27),
            52 => Some(0x28),
            53 => Some(0x29),
            54 => Some(0x33),
            55 => Some(0x34),
            56 => Some(0x35),
            57 => Some(0x3a),
            68 => Some(0x57),
            69 => Some(0x58),
            73 => Some(0x152),
            74 => Some(0x147),
            75 => Some(0x149),
            76 => Some(0x153),
            77 => Some(0x14f),
            78 => Some(0x151),
            79 => Some(0x14d),
            80 => Some(0x14b),
            81 => Some(0x150),
            82 => Some(0x148),
            83 => Some(0x45),
            84 => Some(0x135),
            85 => Some(0x37),
            86 => Some(0x4a),
            87 => Some(0x4e),
            88 => Some(0x11c),
            98 => Some(0x52),
            99 => Some(0x53),
            224 => Some(0x1d),
            225 => Some(0x2a),
            226 => Some(0x38),
            227 => Some(0x15b),
            228 => Some(0x11d),
            229 => Some(0x36),
            230 => Some(0x138),
            231 => Some(0x15c),
            _ => None,
        }
    }
}

/// Maps a USB HID keyboard usage to a Windows scan code (0x100 marks an extended key).
pub fn scan_code(hid: u16) -> (r: Option<u16>)
    ensures
        r == scan_code_spec(hid),
{
    let letters: [u16; 26] = [
        0x1e, 0x30, 0x2e, 0x20, 0x12, 0x21, 0x22, 0x23, 0x17, 0x24, 0x25, 0x26, 0x32, 0x31, 0x18,
        0x19, 0x10, 0x13, 0x1f, 0x14, 0x16, 0x2f, 0x11, 0x2d, 0x15, 0x2c,
    ];
    let keypad: [u16; 9] = [0x4f, 0x50, 0x51, 0x4b, 0x4c, 0x4d, 0x47, 0x48, 0x49];
    assert(letters@ =~= letter_codes());
    assert(keypad@ =~= keypad_codes());
    if 4 <= hid && hid <= 29 {
        return Some(letters[(hid - 4) as usize]);
    }
    if 30 <= hid && hid <= 38 {
        return Some(hid - 28);
    }
    if 58 <= hid && hid <= 67 {
        return Some(hid + 1);
    }
    if 89 <= hid && hid <= 97 {
        return Some(keypad[(hid - 89) as usize]);
    }
    match hid {
        39 => Some(0x0b),
        40 => Some(0x1c),
        41 => Some(0x01),
        42 => Some(0x0e),
        43 => Some(0x0f),
        44 => Some(0x39),
        45 => Some(0x0c),
        46 => Some(0x0d),
        47 => Some(0x1a),
        48 => Some(0x1b),
        49 => Some(0x2b),
        51 => Some(0x27),
        52 => Some(0x28),
        53 => Some(0x29),
        54 => Some(0x33),
        55 => Some(0x34),
        56 => Some(0x35),
        57 => Some(0x3a),
        68 => Some(0x57),
        69 => Some(0x58),
        73 => Some(0x152),
        74 => Some(0x147),
        75 => Some(0x149),
        76 => Some(0x153),
        77 => Some(0x14f),
        78 => Some(0x151),
        79 => Some(0x14d),
        80 => Some(0x14b),
        81 => Some(0x150),
        82 => Some(0x148),
        83 => Some(0x45),
        84 => Some(0x135),
        85 => Some(0x37),
        86 => Some(0x4a),
        87 => Some(0x4e),
        88 => Some(0x11c),
        98 => Some(0x52),
        99 => Some(0x53),
        224 => Some(0x1d),
        225 => Some(0x2a),
        226 => Some(0x38),
        227 => Some(0x15b),
        228 => Some(0x11d),
        229 => Some(0x36),
        230 => Some(0x138),
        231 => Some(0x15c),
        _ => None,
    }
}

/// Scan code set 1, key by key in scan-code order, with the USB HID keyboard-page
/// usage of the same key; 0x100 marks an E0-prefixed key.
pub open spec fn usage_of_scan_code(code: u16) -> Option<u16> {
    match code {
        0x001 => Some(41u16), // Escape
        0x002 => Some(30u16), // 1
        0x003 => Some(31u16), // 2
        0x004 => Some(32u16), // 3
        0x005 => Some(33u16), // 4
        0x006 => Some(34u16), // 5
        0x007 => Some(35u16), // 6
        0x008 => Some(36u16), // 7
        0x009 => Some(37u16), // 8
        0x00a => Some(38u16), // 9
        0x00b => Some(39u16), // 0
        0x00c => Some(45u16), // - _
        0x00d => Some(46u16), // = +
        0x00e => Some(42u16), // Backspace
        0x00f => Some(43u16), // Tab
        0x010 => Some(20u16), // Q
        0x011 => Some(26u16), // W
        0x012 => Some(8u16), // E
        0x013 => Some(21u16), // R
        0x014 => Some(23u16), // T
        0x015 => Some(28u16), // Y
        0x016 => Some(24u16), // U
        0x017 => Some(12u16), // I
        0x018 => Some(18u16), // O
        0x019 => Some(19u16), // P
        0x01a => Some(47u16), // [ {
        0x01b => Some(48u16), // ] }
        0x01c => Some(40u16), // Enter
        0x01d => Some(224u16), // left Ctrl
        0x01e => Some(4u16), // A
        0x01f => Some(22u16), // S
        0x020 => Some(7u16), // D
        0x021 => Some(9u16), // F
        0x022 => Some(10u16), // G
        0x023 => Some(11u16), // H
        0x024 => Some(13u16), // J
        0x025 => Some(14u16), // K
        0x026 => Some(15u16), // L
        0x027 => Some(51u16), // ; :
        0x028 => Some(52u16), // ' "
        0x029 => Some(53u16), // ` ~
        0x02a => Some(225u16), // left Shift
        0x02b => Some(49u16), // \ |
        0x02c => Some(29u16), // Z
        0x02d => Some(27u16), // X
        0x02e => Some(6u16), // C
        0x02f => Some(25u16), // V
        0x030 => Some(5u16), // B
        0x031 => Some(17u16), // N
        0x032 => Some(16u16), // M
        0x033 => Some(54u16), // , <
        0x034 => Some(55u16), // . >
        0x035 => Some(56u16), // / ?
        0x036 => Some(229u16), // right Shift
        0x037 => Some(85u16), // keypad *
        0x038 => Some(226u16), // left Alt
        0x039 => Some(44u16), // Space
        0x03a => Some(57u16), // Caps Lock
        0x03b => Some(58u16), // F1
        0x03c => Some(59u16), // F2
        0x03d => Some(60u16), // F3
        0x03e => Some(61u16), // F4
        0x03f => Some(62u16), // F5
        0x040 => Some(63u16), // F6
        0x041 => Some(64u16), // F7
        0x042 => Some(65u16), // F8
        0x043 => Some(66u16), // F9
        0x044 => Some(67u16), // F10
        0x045 => Some(83u16), // Num Lock
        0x047 => Some(95u16), // keypad 7
        0x048 => Some(96u16), // keypad 8
        0x049 => Some(97u16), // keypad 9
        0x04a => Some(86u16), // keypad -
        0x04b => Some(92u16), // keypad 4
        0x04c => Some(93u16), // keypad 5
        0x04d => Some(94u16), // keypad 6
        0x04e => Some(87u16), // keypad +
        0x04f => Some(89u16), // keypad 1
        0x050 => Some(90u16), // keypad 2
        0x051 => Some(91u16), // keypad 3
        0x052 => Some(98u16), // keypad 0
        0x053 => Some(99u16), // keypad .
        0x057 => Some(68u16), // F11
        0x058 => Some(69u16), // F12
        0x11c => Some(88u16), // keypad Enter
        0x11d => Some(228u16), // right Ctrl
        0x135 => Some(84u16), // keypad /
        0x138 => Some(230u16), // right Alt
        0x147 => Some(74u16), // Home
        0x148 => Some(82u16), // Up
        0x149 => Some(75u16), // Page Up
        0x14b => Some(80u16), // Left
        0x14d => Some(79u16), // Right
        0x14f => Some(77u16), // End
        0x150 => Some(81u16), // Down
        0x151 => Some(78u16), // Page Down
        0x152 => Some(73u16), // Insert
        0x153 => Some(76u16), // Delete
        0x15b => Some(227u16), // left GUI (Win)
        0x15c => Some(231u16), // right GUI (Win)
        _ => None,
    }
}

/// `scan_code` agrees with scan code set 1 for every usage: a usage maps to a scan
/// code exactly when that scan code belongs to the key the usage names, and every
/// key of the set is reached from its usage.
#[verifier::rlimit(60)]
pub proof fn lemma_scan_code_matches_set_1(hid: u16, code: u16)
    ensures
        scan_code_spec(hid) == Some(code) <==> usage_of_scan_code(code) == Some(hid),
{
    assert(letter_codes().len() == 26);
    assert(keypad_codes().len() == 9);
}

} // verus!
