//! Sequences and characters at the edges of the key grammar.

use std::collections::VecDeque;
use std::io;

use pkgr::ui::unix::{decode_key, final_key, Bytes, Feed};
use pkgr::ui::windows::{next_key, record_key};
use pkgr::ui::{Error, Key};

/// Everything the bytes decode to, until they run out.
fn keys(bytes: &[u8]) -> Vec<Key> {
    let mut feed = Feed::new(bytes);
    let mut out = Vec::new();
    while let Ok(key) = decode_key(&mut feed) {
        out.push(key);
    }
    out
}

/// The key a modified one is sent as is told by its leading number alone.
#[test]
fn modifiers_do_not_matter() {
    assert_eq!(keys(b"\x1b[5;5~"), vec![Key::Home]); // Ctrl+PageUp
    assert_eq!(keys(b"\x1b[6;2~"), vec![Key::End]); // Shift+PageDown
    assert_eq!(keys(b"\x1b[3;5~"), vec![Key::Ignored]); // Ctrl+Delete
    assert_eq!(keys(b"\x1b[2;4~"), vec![Key::Ignored]); // modified Insert
    assert_eq!(keys(b"\x1b[1;6H"), vec![Key::Home]);
    assert_eq!(keys(b"\x1b[1;6;8F"), vec![Key::End]);
}

#[test]
fn sequences_are_taken_whole() {
    assert_eq!(
        keys(b"\x1b[200~x\x1b[201~"),
        vec![Key::Ignored, Key::Char('x'), Key::Ignored]
    );
    assert_eq!(keys(b"\x1b[?25;1 q\r"), vec![Key::Ignored, Key::Enter]);
    // A number too long to hold is no key, and does not wrap around to one.
    assert_eq!(keys(b"\x1b[65541~"), vec![Key::Ignored]);
    assert_eq!(keys(b"\x1b[99999999999999999999~a").len(), 2);
    // A byte that cannot be part of a sequence ends it.
    assert_eq!(keys(b"\x1b[1\x03a"), vec![Key::Ignored, Key::Char('a')]);
    assert_eq!(keys(b"\x1b\x1b"), vec![Key::Ignored]);
}

#[test]
fn final_bytes_and_numbers() {
    assert_eq!(final_key(0x7e, 8), Key::End);
    assert_eq!(final_key(0x7e, 0), Key::Ignored);
    assert_eq!(final_key(0x48, 3), Key::Home);
}

#[test]
fn typed_text_arrives_as_typed() {
    let text = "déploy → 世界 😀~";
    let want: Vec<Key> = text.chars().map(Key::Char).collect();
    assert_eq!(keys(text.as_bytes()), want);
    // The edges of each encoded length.
    for c in [' ', '~', '\u{80}', '\u{7ff}', '\u{800}', '\u{ffff}', '\u{10000}', '\u{10ffff}'] {
        assert_eq!(keys(c.to_string().as_bytes()), vec![Key::Char(c)]);
    }
}

#[test]
fn no_key_types_a_control_character() {
    for byte in 0u8..=0xff {
        for key in keys(&[byte]) {
            if let Key::Char(c) = key {
                assert!(c >= ' ' && c != '\x7f', "byte {byte:#x}");
            }
        }
    }
}

/// A source that fails after its bytes are used up.
struct Broken(VecDeque<u8>);

impl Bytes for Broken {
    fn next(&mut self) -> io::Result<Option<u8>> {
        match self.0.pop_front() {
            Some(byte) => Ok(Some(byte)),
            None => Err(io::Error::from(io::ErrorKind::BrokenPipe)),
        }
    }
    fn next_soon(&mut self) -> io::Result<Option<u8>> {
        self.next()
    }
}

#[test]
fn failures_are_passed_on() {
    for bytes in [&b""[..], b"\x1b", b"\x1b[", b"\x1b[1;", b"\x1bO", b"\xe2\x82"] {
        let mut source = Broken(bytes.iter().copied().collect());
        assert!(
            matches!(decode_key(&mut source), Err(Error::Io(_))),
            "{bytes:?}"
        );
    }
}

#[test]
fn only_a_press_is_a_key() {
    assert_eq!(record_key(true, true, 0x0d, 13), Some(Key::Enter));
    assert_eq!(record_key(true, false, 0x0d, 13), None); // coming up again
    assert_eq!(record_key(false, true, 0x0d, 13), None); // a resize, say
    assert_eq!(record_key(true, true, 0, 0xd83d), Some(Key::Ignored)); // half a character
    assert_eq!(record_key(true, true, 0, 0x85), Some(Key::Ignored)); // a C1 control
    assert_eq!(record_key(true, true, 0, 0xa0), Some(Key::Char('\u{a0}')));
}

#[test]
fn a_read_that_gives_nothing_cancels() {
    assert!(matches!(next_key(None), Some(Err(Error::Cancelled))));
    assert!(matches!(
        next_key(Some((true, true, 0x26, 0))),
        Some(Ok(Key::Up))
    ));
    assert!(next_key(Some((true, false, 0x26, 0))).is_none());
    assert!(next_key(Some((false, true, 0x26, 0))).is_none());
}
