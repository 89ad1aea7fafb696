//! Key events as the Windows console reports them.
//!
//! The console hands over virtual key codes, so arrow keys arrive as events
//! rather than as ANSI escape sequences that would have to be parsed back out
//! of stdin.

use vstd::prelude::*;
use vstd::utf8::*;

use crate::ui::{Error, Key};

verus! {

// Virtual key codes.
pub const BACK: u16 = 0x08;

pub const RETURN: u16 = 0x0D;

pub const ESCAPE: u16 = 0x1B;

/// Page up.
pub const PRIOR: u16 = 0x21;

/// Page down.
pub const NEXT: u16 = 0x22;

pub const END: u16 = 0x23;

pub const HOME: u16 = 0x24;

pub const UP: u16 = 0x26;

pub const DOWN: u16 = 0x28;

/// Whether a character is a control character: C0, delete, or C1.
pub open spec fn is_control(c: char) -> bool {
    c <= '\u{1f}' || '\u{7f}' <= c <= '\u{9f}'
}

/// What the character of a key event means.
pub open spec fn char_key(unicode_char: u16) -> Key {
    if !is_scalar(unicode_char as u32) {
        Key::Ignored
    } else {
        let c = unicode_char as char;
        // Ctrl+C.
        if c == '\u{3}' {
            Key::Cancel
        } else if is_control(c) {
            Key::Ignored
        } else {
            Key::Char(c)
        }
    }
}

/// What a key event means. The key decides; a key that means nothing by itself
/// leaves it to the character.
pub open spec fn event_key(virtual_key: u16, unicode_char: u16) -> Key {
    if virtual_key == UP {
        Key::Up
    } else if virtual_key == DOWN {
        Key::Down
    } else if virtual_key == HOME || virtual_key == PRIOR {
        Key::Home
    } else if virtual_key == END || virtual_key == NEXT {
        Key::End
    } else if virtual_key == RETURN {
        Key::Enter
    } else if virtual_key == ESCAPE {
        Key::Cancel
    } else if virtual_key == BACK {
        Key::Backspace
    } else {
        char_key(unicode_char)
    }
}

/// No key types a control character: line breaks and the like never reach the
/// filter.
pub proof fn no_key_types_a_control_character(virtual_key: u16, unicode_char: u16)
    ensures
        event_key(virtual_key, unicode_char) matches Key::Char(c) ==> !is_control(c),
{
}

/// The keys that mean something by themselves do so whatever character they
/// come with: the arrows, Home and End with the page keys, Enter, Esc and
/// Backspace. Any other key means its character, and nothing if that is none
/// or a control character, except that Ctrl+C cancels.
pub proof fn events_stand_for_keys(virtual_key: u16, unicode_char: u16)
    ensures
        event_key(virtual_key, unicode_char) == match virtual_key {
            0x26u16 => Key::Up,
            0x28u16 => Key::Down,
            0x24u16 => Key::Home,
            0x21u16 => Key::Home,
            0x23u16 => Key::End,
            0x22u16 => Key::End,
            0x0du16 => Key::Enter,
            0x1bu16 => Key::Cancel,
            0x08u16 => Key::Backspace,
            _ => if unicode_char == 3 {
                Key::Cancel
            } else if unicode_char < 0x20 || 0x7f <= unicode_char < 0xa0 || 0xd800 <= unicode_char
                < 0xe000 {
                Key::Ignored
            } else {
                Key::Char(unicode_char as char)
            },
        },
{
}

/// Maps one key event to what it means to the picker.
///
/// Kept separate from the console read: everything here is a pure function of
/// the two values the console reports.
pub fn decode_key(virtual_key: u16, unicode_char: u16) -> (r: Key)
    ensures
        r == event_key(virtual_key, unicode_char),
{
    match virtual_key {
        UP => Key::Up,
        DOWN => Key::Down,
        HOME | PRIOR => Key::Home,
        END | NEXT => Key::End,
        RETURN => Key::Enter,
        ESCAPE => Key::Cancel,
        BACK => Key::Backspace,
        _ => match char::from_u32(unicode_char as u32) {
            Some(c) => {
                // Ctrl+C arrives as an ordinary control character now that
                // the console no longer handles it.
                if c == '\u{3}' {
                    Key::Cancel
                } else if c <= '\u{1f}' || ('\u{7f}' <= c && c <= '\u{9f}') {
                    Key::Ignored
                } else {
                    Key::Char(c)
                }
            },
            None => Key::Ignored,
        },
    }
}

/// What an input record means, if it means anything: only the press of a key
/// does. Key-up events would double every press.
pub fn record_key(is_key: bool, is_down: bool, virtual_key: u16, unicode_char: u16) -> (r: Option<
    Key,
>)
    ensures
        r == (if is_key && is_down {
            Some(event_key(virtual_key, unicode_char))
        } else {
            None
        }),
{
    if is_key && is_down {
        Some(decode_key(virtual_key, unicode_char))
    } else {
        None
    }
}

/// What reading an input record comes to. A read that failed or gave nothing
/// cancels; a record that means nothing has the next one read. `read` holds
/// whether the record is one of a key, whether the key went down, its virtual
/// key code and its character.
pub fn next_key(read: Option<(bool, bool, u16, u16)>) -> (r: Option<Result<Key, Error>>)
    ensures
        match read {
            None => r matches Some(Err(Error::Cancelled)),
            Some((is_key, is_down, virtual_key, unicode_char)) => if is_key && is_down {
                r == Some(Ok::<_, Error>(event_key(virtual_key, unicode_char)))
            } else {
                r is None
            },
        },
{
    match read {
        None => Some(Err(Error::Cancelled)),
        Some((is_key, is_down, virtual_key, unicode_char)) => match record_key(
            is_key,
            is_down,
            virtual_key,
            unicode_char,
        ) {
            Some(key) => Some(Ok(key)),
            None => None,
        },
    }
}

} // verus!
