//! Key events as the Windows console reports them.

use pkgr::ui::windows::{
    decode_key, record_key, BACK, DOWN, END, ESCAPE, HOME, NEXT, PRIOR, RETURN, UP,
};
use pkgr::ui::Key;

/// A key going down, as one input record.
fn press(code: u16, unicode_char: u16) -> Key {
    record_key(true, true, code, unicode_char).expect("a press means something")
}

/// decode_key is a pure function of what the kernel reports, so the whole
/// mapping can be checked without a console.
#[test]
fn windows_key_codes_decode_to_actions() {
    for (code, want) in [
        (UP, Key::Up),
        (DOWN, Key::Down),
        (HOME, Key::Home),
        (PRIOR, Key::Home),
        (END, Key::End),
        (NEXT, Key::End),
        (RETURN, Key::Enter),
        (ESCAPE, Key::Cancel),
        (BACK, Key::Backspace),
    ] {
        assert_eq!(decode_key(code, 0), want, "virtual key {code:#x}");
    }
}

#[test]
fn windows_printable_characters_become_filter_input() {
    // An unrecognised virtual key falls through to the character.
    assert_eq!(decode_key(0x41, b'a' as u16), Key::Char('a'));
    assert_eq!(decode_key(0x20, b' ' as u16), Key::Char(' '));
    assert_eq!(decode_key(0xBE, b'.' as u16), Key::Char('.'));
    assert_eq!(decode_key(0, 'é' as u16), Key::Char('é'));
}

#[test]
fn windows_ctrl_c_cancels() {
    // ENABLE_PROCESSED_INPUT is off, so Ctrl+C arrives as a character
    // rather than terminating the process.
    assert_eq!(decode_key(0x43, 3), Key::Cancel);
}

#[test]
fn windows_other_control_characters_are_ignored() {
    for ch in [0u16, 1, 2, 4, 9, 27] {
        assert_eq!(decode_key(0, ch), Key::Ignored, "char {ch}");
    }
    // A modifier press on its own reports no character at all.
    assert_eq!(decode_key(0x10, 0), Key::Ignored); // shift
}

#[test]
fn ui_key_codes_decode_to_actions() {
    for (code, want) in [
        (UP, Key::Up),
        (DOWN, Key::Down),
        (HOME, Key::Home),
        (PRIOR, Key::Home),
        (END, Key::End),
        (NEXT, Key::End),
        (RETURN, Key::Enter),
        (ESCAPE, Key::Cancel),
        (BACK, Key::Backspace),
    ] {
        assert_eq!(press(code, 0), want, "virtual key {code:#x}");
    }
}

#[test]
fn ui_printable_characters_become_filter_input() {
    // An unrecognised virtual key falls through to the character.
    assert_eq!(press(0x41, b'a' as u16), Key::Char('a'));
    assert_eq!(press(0x20, b' ' as u16), Key::Char(' '));
    assert_eq!(press(0xBE, b'.' as u16), Key::Char('.'));
    assert_eq!(press(0, 'é' as u16), Key::Char('é'));
}

#[test]
fn ui_ctrl_c_cancels() {
    // ENABLE_PROCESSED_INPUT is off, so Ctrl+C arrives as a character
    // rather than terminating the process.
    assert_eq!(press(0x43, 3), Key::Cancel);
}

#[test]
fn ui_other_control_characters_are_ignored() {
    for ch in [0u16, 1, 2, 4, 9, 27] {
        assert_eq!(press(0, ch), Key::Ignored, "char {ch}");
    }
    // A modifier press on its own reports no character at all.
    assert_eq!(press(0x10, 0), Key::Ignored); // shift
}
