//! The bytes that JSON is made of.

use vstd::prelude::*;

use crate::json::grammar;
use crate::json::grammar::{
    BACKSLASH, CARRIAGE_RETURN, CLOSE_BRACE, CLOSE_BRACKET, COLON, COMMA, LINE_FEED, LOWER_U,
    OPEN_BRACE, OPEN_BRACKET, QUOTE, SLASH, SPACE, STAR, TAB,
};

verus! {

/// The bytes go by the characters they encode.
pub proof fn bytes_are_their_characters()
    ensures
        TAB as char == '\t' && LINE_FEED as char == '\n' && CARRIAGE_RETURN as char == '\r',
        SPACE as char == ' ' && QUOTE as char == '"' && BACKSLASH as char == '\\',
        STAR as char == '*' && SLASH as char == '/' && LOWER_U as char == 'u',
        COMMA as char == ',' && COLON as char == ':',
        OPEN_BRACE as char == '{' && CLOSE_BRACE as char == '}',
        OPEN_BRACKET as char == '[' && CLOSE_BRACKET as char == ']',
{
}

/// What each byte is outside of strings.
pub proof fn bytes_have_their_parts(c: u8)
    ensures
        grammar::is_space(c) <==> seq![0x20u8, 0x09, 0x0a, 0x0d].contains(c),
        grammar::opens(c) <==> c as char == '{' || c as char == '[',
        grammar::closes(c) <==> c as char == '}' || c as char == ']',
        grammar::ends_scalar(c) <==> seq![
            0x2cu8,
            0x7d,
            0x5d,
            0x20,
            0x09,
            0x0a,
            0x0d,
            0x2f,
        ].contains(c),
{
    let spaces = seq![0x20u8, 0x09, 0x0a, 0x0d];
    let ends = seq![0x2cu8, 0x7d, 0x5d, 0x20, 0x09, 0x0a, 0x0d, 0x2f];
    assert(spaces[0] == 0x20 && spaces[1] == 0x09 && spaces[2] == 0x0a && spaces[3] == 0x0d);
    assert(ends[0] == 0x2c && ends[1] == 0x7d && ends[2] == 0x5d && ends[3] == 0x20 && ends[4]
        == 0x09 && ends[5] == 0x0a && ends[6] == 0x0d && ends[7] == 0x2f);
}

/// What a backslash and a byte stand for.
pub proof fn escapes_stand_for_characters(e: u8)
    ensures
        grammar::short_escape(e) == match e as char {
            '"' => Some('"'),
            '\\' => Some('\\'),
            '/' => Some('/'),
            'b' => Some('\u{8}'),
            'f' => Some('\u{c}'),
            'n' => Some('\u{a}'),
            'r' => Some('\u{d}'),
            't' => Some('\u{9}'),
            _ => None,
        },
{
}

/// A hexadecimal digit counts the same in either case, and the digits count up
/// from zero.
pub proof fn hexadecimal_digits_count_up(c: u8)
    ensures
        grammar::hex_digit(c) is Some <==> ('0' <= c as char <= '9' || 'a' <= c as char <= 'f'
            || 'A' <= c as char <= 'F'),
        '0' <= c as char <= '9' ==> grammar::hex_digit(c) == Some(c - 48),
        'a' <= c as char <= 'f' ==> grammar::hex_digit(c) == Some(c - 87),
        'A' <= c as char <= 'F' ==> grammar::hex_digit(c) == grammar::hex_digit((c + 32) as u8),
{
}

/// Two escapes make up one character just when the first holds its upper ten
/// bits and the second its lower ten.
pub proof fn surrogates_split_a_character(high: int, low: int)
    ensures
        grammar::is_high_surrogate(high) <==> 0xD800 <= high <= 0xDBFF,
        grammar::is_low_surrogate(low) <==> 0xDC00 <= low <= 0xDFFF,
        grammar::is_high_surrogate(high) && grammar::is_low_surrogate(low) ==> {
            let c = grammar::paired(high, low) as int;
            0x10000 <= c <= 0x10ffff && (c - 0x10000) / 0x400 == high - 0xD800 && (c - 0x10000)
                % 0x400 == low - 0xDC00
        },
{
}

/// A message shows a printable byte as its character between quotes.
pub proof fn messages_show_the_byte(c: u8)
    requires
        ' ' <= c as char <= '~',
        c as char != '\'',
        c as char != '\\',
    ensures
        grammar::shown(c) == seq!['\'', c as char, '\''],
        grammar::expected(c) == "expected "@ + seq!['\'', c as char, '\''],
{
}

} // verus!
