//! Key presses as a unix terminal sends them.

use pkgr::ui::unix::{decode_key, Feed};
use pkgr::ui::{Error, Key};

fn key(bytes: &[u8]) -> Key {
    decode_key(&mut Feed::new(bytes)).expect("should decode")
}

// -- single bytes -------------------------------------------------------

#[test]
fn enter_and_backspace_decode() {
    assert_eq!(key(b"\r"), Key::Enter);
    assert_eq!(key(b"\n"), Key::Enter);
    assert_eq!(key(b"\x7f"), Key::Backspace); // most terminals
    assert_eq!(key(b"\x08"), Key::Backspace); // ... and the rest
}

/// ISIG is off, so Ctrl+C is a byte to be decoded rather than a signal.
#[test]
fn unix_ctrl_c_cancels() {
    assert_eq!(key(b"\x03"), Key::Cancel);
}

#[test]
fn other_control_bytes_are_ignored() {
    for byte in [0x01u8, 0x02, 0x04, 0x09, 0x0b, 0x1f] {
        assert_eq!(key(&[byte]), Key::Ignored, "byte {byte:#x}");
    }
}

#[test]
fn a_closed_stdin_cancels() {
    assert!(matches!(
        decode_key(&mut Feed::new(b"")),
        Err(Error::Cancelled)
    ));
}

// -- escape sequences ---------------------------------------------------

/// The ambiguity the timeout exists to resolve: ESC with nothing behind it
/// is the Esc key, not a sequence that never arrived.
#[test]
fn a_bare_escape_cancels() {
    assert_eq!(key(b"\x1b"), Key::Cancel);
}

#[test]
fn csi_arrows_decode() {
    assert_eq!(key(b"\x1b[A"), Key::Up);
    assert_eq!(key(b"\x1b[B"), Key::Down);
}

/// A terminal in application-cursor mode sends SS3 instead of CSI.
#[test]
fn ss3_arrows_decode() {
    assert_eq!(key(b"\x1bOA"), Key::Up);
    assert_eq!(key(b"\x1bOB"), Key::Down);
    assert_eq!(key(b"\x1bOH"), Key::Home);
    assert_eq!(key(b"\x1bOF"), Key::End);
}

/// Home and End have more spellings than any other key, and which one
/// arrives depends on the terminal.
#[test]
fn every_home_and_end_spelling_decodes() {
    for seq in [&b"\x1b[H"[..], b"\x1b[1~", b"\x1b[7~"] {
        assert_eq!(key(seq), Key::Home, "{:?}", seq);
    }
    for seq in [&b"\x1b[F"[..], b"\x1b[4~", b"\x1b[8~"] {
        assert_eq!(key(seq), Key::End, "{:?}", seq);
    }
}

/// Page up and down jump to the ends, matching VK_PRIOR and VK_NEXT on
/// Windows.
#[test]
fn page_keys_jump_to_the_ends() {
    assert_eq!(key(b"\x1b[5~"), Key::Home);
    assert_eq!(key(b"\x1b[6~"), Key::End);
}

#[test]
fn unused_keys_are_ignored() {
    assert_eq!(key(b"\x1b[C"), Key::Ignored); // right
    assert_eq!(key(b"\x1b[D"), Key::Ignored); // left
    assert_eq!(key(b"\x1b[3~"), Key::Ignored); // delete
    assert_eq!(key(b"\x1b[2~"), Key::Ignored); // insert
    assert_eq!(key(b"\x1bOP"), Key::Ignored); // F1
}

/// A modified arrow still moves: the modifier parameter is dropped and the
/// final byte decides.
#[test]
fn modified_arrows_still_move() {
    assert_eq!(key(b"\x1b[1;5A"), Key::Up); // Ctrl+Up
    assert_eq!(key(b"\x1b[1;2B"), Key::Down); // Shift+Down
}

/// The point of running to the final byte. If an unrecognised sequence
/// were abandoned partway, its remaining bytes would be decoded as
/// keystrokes and land in the filter.
#[test]
fn an_unrecognised_sequence_is_consumed_whole() {
    let mut feed = Feed::new(b"\x1b[<0;12;34Ma");
    assert_eq!(decode_key(&mut feed).unwrap(), Key::Ignored, "mouse report");
    assert_eq!(
        decode_key(&mut feed).unwrap(),
        Key::Char('a'),
        "the next key must be the 'a', not a fragment of the report"
    );
}

#[test]
fn a_truncated_sequence_is_ignored() {
    assert_eq!(key(b"\x1b["), Key::Ignored);
    assert_eq!(key(b"\x1b[1"), Key::Ignored);
    assert_eq!(key(b"\x1bO"), Key::Ignored);
}

/// Alt+key must not leak the key itself into the filter.
#[test]
fn alt_combinations_are_ignored() {
    assert_eq!(key(b"\x1ba"), Key::Ignored);
}

// -- characters ---------------------------------------------------------

#[test]
fn printable_bytes_become_filter_input() {
    assert_eq!(key(b"a"), Key::Char('a'));
    assert_eq!(key(b" "), Key::Char(' '));
    assert_eq!(key(b":"), Key::Char(':'));
}

/// A multi-byte character has to be reassembled, or typing it would push
/// several replacement characters into the filter.
#[test]
fn utf8_characters_are_reassembled() {
    assert_eq!(key("é".as_bytes()), Key::Char('é')); // two bytes
    assert_eq!(key("€".as_bytes()), Key::Char('€')); // three
    assert_eq!(key("😀".as_bytes()), Key::Char('😀')); // four
}

#[test]
fn invalid_utf8_is_ignored() {
    assert_eq!(key(&[0x80]), Key::Ignored); // a stray continuation byte
    assert_eq!(key(&[0xff]), Key::Ignored); // never valid UTF-8
    assert_eq!(key(&[0xc3, 0x28]), Key::Ignored); // bad continuation
    assert_eq!(key(&[0xe2, 0x82]), Key::Ignored); // cut short
}

/// The whole character is taken from the wire, so the byte after it
/// decodes as the next key.
#[test]
fn a_character_does_not_consume_the_next_key() {
    let mut feed = Feed::new("é\r".as_bytes());
    assert_eq!(decode_key(&mut feed).unwrap(), Key::Char('é'));
    assert_eq!(decode_key(&mut feed).unwrap(), Key::Enter);
}
