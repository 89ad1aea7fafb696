//! Key presses as a unix terminal sends them.
//!
//! Where the Windows console hands over decoded virtual key codes, a unix
//! terminal delivers raw bytes: arrows arrive as `ESC [ A` and a filter
//! character may span up to four bytes of UTF-8. The bytes come through the
//! `Bytes` trait rather than from stdin directly, so the whole escape grammar
//! can be driven without a terminal.

use std::collections::VecDeque;

use vstd::prelude::*;
use vstd::string::*;
use vstd::utf8::*;

use crate::ui::{Error, Key};

pub mod meaning;

verus! {

/// Bytes arriving from the terminal.
///
/// `next` blocks; `next_soon` gives up after a short while, which is the only
/// thing separating a bare Esc from the start of a sequence.
///
/// What a key comes to is stated in terms of the bytes still to come. A source
/// that is not verified may leave them at the defaults, which are functions of
/// the source that nothing is known of. Nothing shows then that it meets the
/// contracts below, and what is proved of the decoder holds on it as far as it
/// does.
pub trait Bytes: Sized {
    /// The bytes that are still to come.
    open spec fn pending(&self) -> Seq<u8> {
        arbitrary::<spec_fn(Self) -> Seq<u8>>()(*self)
    }

    /// Whether every byte is there as soon as it is asked for, with no failure.
    open spec fn prompt(&self) -> bool {
        arbitrary::<spec_fn(Self) -> bool>()(*self)
    }

    /// What reading has failed with, once it has.
    open spec fn failure(&self) -> Option<std::io::Error> {
        arbitrary::<spec_fn(Self) -> Option<std::io::Error>>()(*self)
    }

    /// How often a byte has been waited for, however long it takes to come.
    open spec fn waits(&self) -> int {
        arbitrary::<spec_fn(Self) -> int>()(*self)
    }

    fn next(&mut self) -> (r: Result<Option<u8>, std::io::Error>)
        ensures
            final(self).waits() == old(self).waits() + 1,
            final(self).prompt() == old(self).prompt(),
            r matches Ok(Some(byte)) ==> old(self).pending().len() > 0 && byte
                == old(self).pending()[0] && final(self).pending()
                == old(self).pending().drop_first(),
            r matches Ok(None) ==> old(self).pending().len() == 0,
            !(r matches Ok(Some(_))) ==> final(self).pending() == old(self).pending(),
            final(self).failure() == (match r {
                Ok(_) => old(self).failure(),
                Err(e) => Some(e),
            }),
            old(self).prompt() ==> r is Ok,
    ;

    fn next_soon(&mut self) -> (r: Result<Option<u8>, std::io::Error>)
        ensures
            final(self).waits() == old(self).waits(),
            final(self).prompt() == old(self).prompt(),
            r matches Ok(Some(byte)) ==> old(self).pending().len() > 0 && byte
                == old(self).pending()[0] && final(self).pending()
                == old(self).pending().drop_first(),
            !(r matches Ok(Some(_))) ==> final(self).pending() == old(self).pending(),
            final(self).failure() == (match r {
                Ok(_) => old(self).failure(),
                Err(e) => Some(e),
            }),
            old(self).prompt() ==> r is Ok && (r->Ok_0 is None ==> old(self).pending().len() == 0),
    ;
}

// ---------------------------------------------------------------------------
// What the bytes mean
// ---------------------------------------------------------------------------
/// A key, and how many of the bytes it took.
pub struct Press {
    pub key: Key,
    pub used: int,
}

/// The key that a sequence's final byte and its leading number stand for.
///
/// Page up and page down go to the ends, as Home and End do.
pub open spec fn sequence_key(final_byte: u8, number: int) -> Key {
    if final_byte == 0x41 {
        Key::Up
    } else if final_byte == 0x42 {
        Key::Down
    } else if final_byte == 0x48 {
        Key::Home
    } else if final_byte == 0x46 {
        Key::End
    } else if final_byte == 0x7e && (number == 1 || number == 7 || number == 5) {
        Key::Home
    } else if final_byte == 0x7e && (number == 4 || number == 8 || number == 6) {
        Key::End
    } else {
        Key::Ignored
    }
}

/// What has been read of a CSI sequence: its leading number, and whether that
/// may still get another digit.
pub struct Leading {
    pub number: int,
    pub open: bool,
}

pub open spec fn no_digits() -> Leading {
    Leading { number: 0, open: true }
}

/// `n`, but no more than fits.
pub open spec fn capped(n: int) -> int {
    if n > 0xffff {
        0xffff
    } else {
        n
    }
}

/// The bytes a CSI sequence may hold before its final byte.
pub open spec fn is_parameter(byte: u8) -> bool {
    0x20 <= byte <= 0x3f
}

pub open spec fn is_final(byte: u8) -> bool {
    0x40 <= byte <= 0x7e
}

/// The leading number, once `byte` is read. Whatever is not a digit ends it.
pub open spec fn with_parameter(lead: Leading, byte: u8) -> Leading {
    if 0x30 <= byte <= 0x39 {
        if lead.open {
            Leading { number: capped(lead.number * 10 + (byte - 0x30)), open: true }
        } else {
            lead
        }
    } else {
        Leading { number: lead.number, open: false }
    }
}

/// The rest of a CSI sequence. It runs to its final byte, whatever it is.
pub open spec fn csi_press(t: Seq<u8>, lead: Leading) -> Press
    decreases t.len(),
{
    if t.len() == 0 {
        Press { key: Key::Ignored, used: 0 }
    } else if is_parameter(t[0]) {
        let more = csi_press(t.drop_first(), with_parameter(lead, t[0]));
        Press { key: more.key, used: more.used + 1 }
    } else if is_final(t[0]) {
        Press { key: sequence_key(t[0], lead.number), used: 1 }
    } else {
        Press { key: Key::Ignored, used: 1 }
    }
}

/// Everything following an ESC byte.
pub open spec fn escape_press(t: Seq<u8>) -> Press {
    if t.len() == 0 {
        Press { key: Key::Cancel, used: 0 }
    } else if t[0] == 0x5b {
        let more = csi_press(t.drop_first(), no_digits());
        Press { key: more.key, used: more.used + 1 }
    } else if t[0] == 0x4f {
        if t.len() == 1 {
            Press { key: Key::Ignored, used: 1 }
        } else {
            Press { key: sequence_key(t[1], 0), used: 2 }
        }
    } else {
        Press { key: Key::Ignored, used: 1 }
    }
}

/// How many bytes follow a character's first byte, if it is one.
pub open spec fn continuations(lead: u8) -> Option<int> {
    if lead <= 0x7f {
        Some(0)
    } else if 0xc2 <= lead <= 0xdf {
        Some(1)
    } else if 0xe0 <= lead <= 0xef {
        Some(2)
    } else if 0xf0 <= lead <= 0xf4 {
        Some(3)
    } else {
        None
    }
}

/// A character, from its first byte and those that follow.
pub open spec fn char_press(lead: u8, t: Seq<u8>) -> Press {
    match continuations(lead) {
        None => Press { key: Key::Ignored, used: 0 },
        Some(n) => if t.len() < n {
            Press { key: Key::Ignored, used: t.len() as int }
        } else {
            let bytes = seq![lead] + t.take(n);
            Press {
                key: if valid_utf8(bytes) {
                    Key::Char(decode_utf8(bytes)[0])
                } else {
                    Key::Ignored
                },
                used: n,
            }
        },
    }
}

/// The key press that the bytes start with, if there are any.
pub open spec fn first_press(s: Seq<u8>) -> Option<Press> {
    if s.len() == 0 {
        None
    } else {
        let t = s.drop_first();
        let (key, used) = if s[0] == 0x0d || s[0] == 0x0a {
            (Key::Enter, 0)
        } else if s[0] == 0x7f || s[0] == 0x08 {
            (Key::Backspace, 0)
        } else if s[0] == 0x03 {
            (Key::Cancel, 0)
        } else if s[0] == 0x1b {
            (escape_press(t).key, escape_press(t).used)
        } else if s[0] < 0x20 {
            (Key::Ignored, 0)
        } else {
            (char_press(s[0], t).key, char_press(s[0], t).used)
        };
        Some(Press { key, used: used + 1 })
    }
}

/// Whether reading from `before` to `after` gave what `meaning` makes of the
/// bytes taken. A byte that does not come in time counts as the end of them:
/// none is waited for.
pub open spec fn took<B: Bytes>(
    before: B,
    after: B,
    r: Result<Key, Error>,
    meaning: spec_fn(Seq<u8>) -> Press,
) -> bool {
    let all = before.pending();
    &&& after.prompt() == before.prompt()
    &&& after.waits() == before.waits()
    &&& r matches Ok(key) ==> exists|n: int|
        0 <= n <= all.len() && after.pending() == all.skip(n) && meaning(#[trigger] all.take(n)) == (
        Press { key, used: n })
    // The first failure ends it.
    &&& match r {
        Ok(_) => after.failure() == before.failure(),
        Err(e) => e is Io && after.failure() == Some(e->Io_0),
    }
    &&& before.prompt() ==> r == Ok::<_, Error>(meaning(all).key) && after.pending() == all.skip(
        meaning(all).used,
    )
}

// ---------------------------------------------------------------------------
// What holds of every key
// ---------------------------------------------------------------------------
/// The bytes that announce a character announce as many as it takes.
proof fn lemma_announced(c: char)
    ensures
        continuations(encode_scalar(c as u32)[0]) == Some(encode_scalar(c as u32).len() - 1),
        (c as u32) < 0x80 ==> encode_scalar(c as u32) == seq![c as u8],
        (c as u32) >= 0x80 ==> encode_scalar(c as u32)[0] >= 0xc2,
{
    let v = c as u32;
    char_is_scalar(c);
    assert(v <= 0x7f ==> (v & 0x7F) as u8 == v) by (bit_vector);
    assert(0x80 <= v <= 0x7ff ==> 0xc2 <= (0xC0u8 | ((v >> 6) & 0x1F) as u8) <= 0xdf)
        by (bit_vector);
    assert(0xe0 <= (0xE0u8 | ((v >> 12) & 0x0F) as u8) <= 0xef) by (bit_vector);
    assert(v <= 0x10ffff ==> 0xf0 <= (0xF0u8 | ((v >> 18) & 0x7) as u8) <= 0xf4) by (bit_vector);
}

/// A CSI sequence takes no more bytes than there are.
pub proof fn lemma_csi_within(t: Seq<u8>, lead: Leading)
    ensures
        0 <= csi_press(t, lead).used <= t.len(),
    decreases t.len(),
{
    if t.len() > 0 && is_parameter(t[0]) {
        lemma_csi_within(t.drop_first(), with_parameter(lead, t[0]));
    }
}

/// A character that is typed arrives as that character, however many bytes it
/// takes, and what is typed after it stays where it is.
pub proof fn typed_characters_are_reassembled(c: char, t: Seq<u8>)
    requires
        c >= ' ',
        c != '\x7f',
    ensures
        first_press(encode_scalar(c as u32) + t) == Some(
            Press { key: Key::Char(c), used: encode_scalar(c as u32).len() as int },
        ),
{
    let e = encode_scalar(c as u32);
    let s = e + t;
    lemma_announced(c);
    assert(s[0] == e[0]);
    let n = e.len() - 1;
    assert(seq![e[0]] + s.drop_first().take(n) =~= e);
    assert(seq![c].drop_first() =~= Seq::<char>::empty());
    reveal_with_fuel(encode_utf8, 2);
    assert(encode_utf8(seq![c]) =~= e);
    encode_utf8_valid_utf8(seq![c]);
    encode_utf8_decode_utf8(seq![c]);
}

/// The leading number, once all the parameters are read.
pub open spec fn after_parameters(params: Seq<u8>, lead: Leading) -> Leading
    decreases params.len(),
{
    if params.len() == 0 {
        lead
    } else {
        after_parameters(params.drop_first(), with_parameter(lead, params[0]))
    }
}

proof fn lemma_csi_whole(params: Seq<u8>, last: u8, t: Seq<u8>, lead: Leading)
    requires
        forall|k: int| 0 <= k < params.len() ==> is_parameter(#[trigger] params[k]),
        is_final(last),
    ensures
        csi_press(params + (seq![last] + t), lead) == (Press {
            key: sequence_key(last, after_parameters(params, lead).number),
            used: params.len() as int + 1,
        }),
    decreases params.len(),
{
    let s = params + (seq![last] + t);
    if params.len() > 0 {
        let next = params.drop_first();
        assert(s[0] == params[0]);
        assert(is_parameter(params[0]));
        assert(s.drop_first() =~= next + (seq![last] + t));
        assert forall|k: int| 0 <= k < next.len() implies is_parameter(#[trigger] next[k]) by {
            assert(next[k] == params[k + 1]);
        }
        lemma_csi_whole(next, last, t, with_parameter(lead, params[0]));
    } else {
        assert(s[0] == last);
    }
}

/// A control sequence is one key, whether or not the picker has a use for it:
/// all of it is taken, and nothing after it.
pub proof fn sequences_are_taken_whole(params: Seq<u8>, last: u8, t: Seq<u8>)
    requires
        forall|k: int| 0 <= k < params.len() ==> is_parameter(#[trigger] params[k]),
        is_final(last),
    ensures
        first_press(seq![0x1bu8, 0x5b] + (params + (seq![last] + t))) == Some(
            Press {
                key: sequence_key(last, after_parameters(params, no_digits()).number),
                used: params.len() as int + 3,
            },
        ),
{
    let rest = params + (seq![last] + t);
    let s = seq![0x1bu8, 0x5b] + rest;
    assert(s.drop_first()[0] == 0x5b);
    assert(s.drop_first().drop_first() =~= rest);
    lemma_csi_whole(params, last, t, no_digits());
}

proof fn lemma_closed(params: Seq<u8>, lead: Leading)
    requires
        !lead.open,
    ensures
        after_parameters(params, lead).number == lead.number,
    decreases params.len(),
{
    if params.len() > 0 {
        lemma_closed(params.drop_first(), with_parameter(lead, params[0]));
    }
}

proof fn lemma_leading(digits: Seq<u8>, others: Seq<u8>, lead: Leading)
    requires
        others.len() > 0,
        !(0x30 <= others[0] <= 0x39),
    ensures
        after_parameters(digits + others, lead).number == after_parameters(digits, lead).number,
    decreases digits.len(),
{
    if digits.len() > 0 {
        let all = digits + others;
        assert(all[0] == digits[0]);
        assert(all.drop_first() =~= digits.drop_first() + others);
        lemma_leading(digits.drop_first(), others, with_parameter(lead, digits[0]));
    } else {
        assert(digits + others =~= others);
        lemma_closed(others.drop_first(), with_parameter(lead, others[0]));
    }
}

/// Only the leading number tells keys apart: modifiers that follow it after a
/// separator do not.
pub proof fn modifiers_do_not_matter(digits: Seq<u8>, others: Seq<u8>)
    requires
        others.len() > 0,
        !(0x30 <= others[0] <= 0x39),
    ensures
        after_parameters(digits + others, no_digits()).number == after_parameters(
            digits,
            no_digits(),
        ).number,
{
    lemma_leading(digits, others, no_digits());
}

proof fn lemma_sequences_type_nothing(t: Seq<u8>, lead: Leading)
    ensures
        !(csi_press(t, lead).key is Char),
    decreases t.len(),
{
    if t.len() > 0 && is_parameter(t[0]) {
        lemma_sequences_type_nothing(t.drop_first(), with_parameter(lead, t[0]));
    }
}

/// No key types a control character: line breaks and the like never reach the
/// filter.
pub proof fn no_key_types_a_control_character(s: Seq<u8>)
    ensures
        first_press(s) matches Some(press) ==> (press.key matches Key::Char(c) ==> c >= ' ' && c
            != '\x7f'),
{
    lemma_sequences_type_nothing(s.drop_first().drop_first(), no_digits());
    if s.len() > 0 && s[0] >= 0x20 && s[0] != 0x7f {
        let t = s.drop_first();
        if let Some(n) = continuations(s[0]) {
            if t.len() >= n {
                let bytes = seq![s[0]] + t.take(n);
                if valid_utf8(bytes) {
                    let chars = decode_utf8(bytes);
                    decode_utf8_encode_utf8(bytes);
                    lemma_announced(chars[0]);
                    assert(bytes[0] == encode_scalar(chars[0] as u32)[0]);
                }
            }
        }
    }
}

/// Every key takes at least one byte, and never one that is not there.
pub proof fn every_key_takes_bytes(s: Seq<u8>)
    ensures
        first_press(s) is Some <==> s.len() > 0,
        first_press(s) matches Some(press) ==> 1 <= press.used <= s.len(),
{
    if s.len() > 1 {
        lemma_csi_within(s.drop_first().drop_first(), no_digits());
    }
}

// ---------------------------------------------------------------------------
// Reading them
// ---------------------------------------------------------------------------
/// The final byte of a sequence, with the leading parameter for the `~` forms.
///
/// Page up and page down map to Home and End, matching what the Windows
/// decoder does with its page keys.
pub fn final_key(final_byte: u8, number: u16) -> (r: Key)
    ensures
        r == sequence_key(final_byte, number as int),
{
    match final_byte {
        0x41 => Key::Up,
        0x42 => Key::Down,
        0x48 => Key::Home,
        0x46 => Key::End,
        0x7e => match number {
            1 | 7 => Key::Home,
            4 | 8 => Key::End,
            5 => Key::Home,  // page up
            6 => Key::End,  // page down
            _ => Key::Ignored,
        },
        // Left and right arrows, delete, and everything else the picker has no
        // use for.
        _ => Key::Ignored,
    }
}

/// Reads a CSI sequence through to its final byte.
///
/// Only the leading number is kept, which is all the `~` forms need. Running
/// to the final byte regardless means an unrecognised sequence — a mouse
/// report, a bracketed-paste marker — is swallowed whole rather than
/// partially.
pub fn csi<B: Bytes>(bytes: &mut B) -> (r: Result<Key, Error>)
    ensures
        took(*old(bytes), *final(bytes), r, |t: Seq<u8>| csi_press(t, no_digits())),
{
    let mut number: u16 = 0;
    let mut open: bool = true;
    let ghost all = bytes.pending();
    let ghost mut i: int = 0;
    assert(all.skip(0) =~= all);
    assert(forall|v: Seq<u8>| #[trigger] all.take(0) + v =~= v);
    loop
        invariant
            all == old(bytes).pending(),
            0 <= i <= all.len(),
            bytes.prompt() == old(bytes).prompt(),
            bytes.waits() == old(bytes).waits(),
            bytes.failure() == old(bytes).failure(),
            bytes.pending() == all.skip(i),
            forall|v: Seq<u8>|
                csi_press(#[trigger] (all.take(i) + v), no_digits()) == (Press {
                    key: csi_press(v, Leading { number: number as int, open }).key,
                    used: i + csi_press(v, Leading { number: number as int, open }).used,
                }),
        decreases bytes.pending().len(),
    {
        let ghost lead = Leading { number: number as int, open };
        proof {
            let none = Seq::<u8>::empty();
            assert(all.take(i) + none =~= all.take(i));
            assert(csi_press(all.take(i) + none, no_digits()).key == csi_press(none, lead).key);
            assert(all.take(i) + all.skip(i) =~= all);
            assert(csi_press(all.take(i) + all.skip(i), no_digits()).used == i + csi_press(
                all.skip(i),
                lead,
            ).used);
        }
        let byte = match bytes.next_soon() {
            Ok(Some(byte)) => byte,
            Ok(None) => {
                return Ok(Key::Ignored);  // sequence cut short
            },
            Err(e) => {
                return Err(Error::Io(e));
            },
        };
        proof {
            assert(byte == all[i]);
            assert(all.take(i + 1) =~= all.take(i) + seq![byte]);
            assert(csi_press(all.take(i) + seq![byte], no_digits()).used == i + csi_press(
                seq![byte],
                lead,
            ).used);
            assert(all.skip(i).drop_first() =~= all.skip(i + 1));
            assert(all.skip(i)[0] == byte);
            assert forall|v: Seq<u8>|
                is_parameter(byte) implies csi_press(
                #[trigger] (all.take(i + 1) + v),
                no_digits(),
            ) == (Press {
                key: csi_press(v, with_parameter(lead, byte)).key,
                used: i + 1 + csi_press(v, with_parameter(lead, byte)).used,
            }) by {
                let w = seq![byte] + v;
                assert(all.take(i + 1) + v =~= all.take(i) + w);
                assert(w.drop_first() =~= v);
            }
            i = i + 1;
        }
        match byte {
            0x30..=0x39 => {
                if open {
                    let longer: u32 = number as u32 * 10 + (byte - 0x30) as u32;
                    number = if longer > 0xffff {
                        0xffff
                    } else {
                        longer as u16
                    };
                }
            },
            // A separator: later parameters are modifier flags, not the key.
            0x20..=0x3f => {
                open = false;
            },
            0x40..=0x7e => {
                return Ok(final_key(byte, number));
            },
            _ => {
                return Ok(Key::Ignored);
            },
        }
    }
}

/// Everything following an ESC byte.
///
/// A bare Esc is Cancel. Anything else is a sequence, and its bytes have to be
/// consumed whether or not the picker understands it, or the tail would land
/// in the filter as stray characters.
pub fn escape<B: Bytes>(bytes: &mut B) -> (r: Result<Key, Error>)
    ensures
        took(*old(bytes), *final(bytes), r, |t: Seq<u8>| escape_press(t)),
{
    let ghost all = bytes.pending();
    proof {
        assert(all.skip(0) =~= all);
        assert(all.take(0).len() == 0);
        if all.len() > 0 {
            assert(all.skip(1) =~= all.drop_first());
            assert(all.take(1)[0] == all[0]);
        }
    }
    match bytes.next_soon() {
        Ok(None) => Ok(Key::Cancel),
        Ok(Some(0x5b)) => {
            let ghost rest = *bytes;
            let r = csi(bytes);
            proof {
                if let Ok(key) = r {
                    let t = rest.pending();
                    let n = choose|n: int|
                        0 <= n <= t.len() && bytes.pending() == t.skip(n) && csi_press(
                            #[trigger] t.take(n),
                            no_digits(),
                        ) == (Press { key, used: n });
                    assert(all.take(n + 1).drop_first() =~= t.take(n));
                    assert(all.take(n + 1)[0] == 0x5b);
                    assert(all.skip(n + 1) =~= t.skip(n));
                }
                let used = csi_press(all.drop_first(), no_digits()).used;
                lemma_csi_within(all.drop_first(), no_digits());
                assert(all.drop_first().skip(used) =~= all.skip(used + 1));
            }
            r
        },
        // SS3, which is how a terminal in application-cursor mode sends arrows.
        Ok(Some(0x4f)) => {
            let ghost t = bytes.pending();
            proof {
                if t.len() > 0 {
                    assert(all.take(2)[0] == all[0]);
                    assert(all.take(2)[1] == all[1]);
                    assert(t.drop_first() =~= all.skip(2));
                }
            }
            match bytes.next_soon() {
                Ok(Some(final_byte)) => Ok(final_key(final_byte, 0)),
                Ok(None) => Ok(Key::Ignored),
                Err(e) => Err(Error::Io(e)),
            }
        },
        // Alt+key. The picker has no use for it, and the key itself must not
        // reach the filter.
        Ok(Some(_)) => Ok(Key::Ignored),
        Err(e) => Err(Error::Io(e)),
    }
}

/// Assembles one character from its lead byte and the continuation bytes it
/// announces.
///
/// Terminals deliver UTF-8, so a character typed into the filter may span up
/// to four bytes and has to arrive as one `char` rather than as mojibake.
pub fn character<B: Bytes>(bytes: &mut B, lead: u8) -> (r: Result<Key, Error>)
    ensures
        took(*old(bytes), *final(bytes), r, |t: Seq<u8>| char_press(lead, t)),
{
    let ghost all = bytes.pending();
    assert(all.skip(0) =~= all);
    assert(all.take(0).len() == 0);
    let extra: usize = match lead {
        0x00..=0x7f => 0,
        0xc2..=0xdf => 1,
        0xe0..=0xef => 2,
        0xf0..=0xf4 => 3,
        // A continuation byte on its own, or an overlong lead: not the start
        // of a character.
        _ => {
            return Ok(Key::Ignored);
        },
    };

    let mut buf: Vec<u8> = Vec::new();
    buf.push(lead);
    let mut i: usize = 0;
    assert(all.take(0) =~= Seq::<u8>::empty());
    while i < extra
        invariant
            i <= extra,
            i <= all.len(),
            continuations(lead) == Some(extra as int),
            all == old(bytes).pending(),
            bytes.prompt() == old(bytes).prompt(),
            bytes.waits() == old(bytes).waits(),
            bytes.failure() == old(bytes).failure(),
            bytes.pending() == all.skip(i as int),
            buf@ == seq![lead] + all.take(i as int),
        decreases extra - i,
    {
        assert(all.take(i as int).len() == i);
        match bytes.next_soon() {
            Ok(Some(byte)) => {
                buf.push(byte);
            },
            Ok(None) => {
                return Ok(Key::Ignored);  // truncated character
            },
            Err(e) => {
                return Err(Error::Io(e));
            },
        }
        assert(all.skip(i as int).drop_first() =~= all.skip(i + 1));
        assert(all.take(i + 1) =~= all.take(i as int).push(all[i as int]));
        i = i + 1;
    }
    assert(all.take(extra as int).take(extra as int) =~= all.take(extra as int));

    match std::str::from_utf8(buf.as_slice()) {
        Ok(text) => {
            proof {
                encode_utf8_decode_utf8(text@);
                assert(text@.len() > 0) by {
                    if text@.len() == 0 {
                        assert(encode_utf8(text@).len() == 0);
                    }
                }
            }
            Ok(Key::Char(text.get_char(0)))
        },
        Err(_) => Ok(Key::Ignored),
    }
}

/// What the bytes after the first are, in terms of all of them.
proof fn lemma_after_first(all: Seq<u8>, n: int)
    requires
        all.len() > 0,
        0 <= n < all.len(),
    ensures
        all.take(n + 1).len() == n + 1,
        all.take(n + 1)[0] == all[0],
        all.take(n + 1).drop_first() == all.drop_first().take(n),
        all.skip(n + 1) == all.drop_first().skip(n),
{
    assert(all.take(n + 1).drop_first() =~= all.drop_first().take(n));
    assert(all.skip(n + 1) =~= all.drop_first().skip(n));
}

/// Maps the next keypress on the wire to what it means to the picker.
///
/// The unix counterpart of the Windows `decode_key`: everything here is a
/// function of the bytes alone, so it can be driven by a scripted source.
pub fn decode_key<B: Bytes>(bytes: &mut B) -> (r: Result<Key, Error>)
    ensures
        final(bytes).prompt() == old(bytes).prompt(),
        // Only the first byte of a key is waited for.
        final(bytes).waits() == old(bytes).waits() + 1,
        r matches Ok(key) ==> exists|n: int|
            0 < n <= old(bytes).pending().len() && final(bytes).pending() == old(
                bytes,
            ).pending().skip(n) && first_press(#[trigger] old(bytes).pending().take(n)) == Some(
                (Press { key, used: n }),
            ),
        r matches Err(Error::Cancelled) ==> old(bytes).pending().len() == 0,
        final(bytes).failure() == (match r {
            Err(Error::Io(e)) => Some(e),
            _ => old(bytes).failure(),
        }),
        !(r matches Err(Error::NotInteractive)),
        old(bytes).prompt() ==> match first_press(old(bytes).pending()) {
            Some(press) => r == Ok::<_, Error>(press.key) && final(bytes).pending() == old(
                bytes,
            ).pending().skip(press.used),
            None => r matches Err(Error::Cancelled),
        },
{
    let ghost all = bytes.pending();
    let byte = match bytes.next() {
        Ok(Some(byte)) => byte,
        Ok(None) => {
            // Stdin closed, so nothing further can ever be picked.
            return Err(Error::Cancelled);
        },
        Err(e) => {
            return Err(Error::Io(e));
        },
    };
    let ghost before = *bytes;
    let ghost t = bytes.pending();
    proof {
        lemma_after_first(all, 0);
        assert(t.skip(0) =~= t);
    }
    match byte {
        0x0d | 0x0a => Ok(Key::Enter),
        0x7f | 0x08 => Ok(Key::Backspace),
        // Ctrl+C arrives as an ordinary byte in raw mode.
        0x03 => Ok(Key::Cancel),
        0x1b => {
            let r = escape(bytes);
            proof {
                let meaning = |t: Seq<u8>| escape_press(t);
                assert(took(before, *bytes, r, meaning));
                if let Ok(key) = r {
                    let n = choose|n: int|
                        0 <= n <= t.len() && bytes.pending() == t.skip(n) && meaning(
                            #[trigger] t.take(n),
                        ) == (Press { key, used: n });
                    lemma_after_first(all, n);
                    assert(first_press(all.take(n + 1)) == Some(Press { key, used: n + 1 }));
                }
                every_key_takes_bytes(all);
                lemma_after_first(all, escape_press(t).used);
            }
            r
        },
        0x00..=0x1f => Ok(Key::Ignored),
        _ => {
            let r = character(bytes, byte);
            proof {
                let meaning = |t: Seq<u8>| char_press(byte, t);
                assert(took(before, *bytes, r, meaning));
                if let Ok(key) = r {
                    let n = choose|n: int|
                        0 <= n <= t.len() && bytes.pending() == t.skip(n) && meaning(
                            #[trigger] t.take(n),
                        ) == (Press { key, used: n });
                    lemma_after_first(all, n);
                    assert(first_press(all.take(n + 1)) == Some(Press { key, used: n + 1 }));
                }
                every_key_takes_bytes(all);
                lemma_after_first(all, char_press(byte, t).used);
            }
            r
        },
    }
}

/// A byte source fed from a fixed queue. `next_soon` runs dry exactly when the
/// queue does, which is how a bare Esc, with nothing following it, shows.
pub struct Feed {
    pub bytes: VecDeque<u8>,
    /// How often a byte has been waited for.
    pub waited: Ghost<int>,
}

impl Feed {
    pub fn new(bytes: &[u8]) -> (r: Self)
        ensures
            r.bytes@ == bytes@,
    {
        let mut queue: VecDeque<u8> = VecDeque::new();
        let mut i: usize = 0;
        while i < bytes.len()
            invariant
                i <= bytes@.len(),
                queue@ == bytes@.take(i as int),
            decreases bytes@.len() - i,
        {
            queue.push_back(bytes[i]);
            i = i + 1;
            assert(queue@ =~= bytes@.take(i as int));
        }
        assert(bytes@.take(i as int) =~= bytes@);
        Feed { bytes: queue, waited: Ghost(0) }
    }
}

impl Bytes for Feed {
    open spec fn pending(&self) -> Seq<u8> {
        self.bytes@
    }

    open spec fn prompt(&self) -> bool {
        true
    }

    open spec fn failure(&self) -> Option<std::io::Error> {
        None
    }

    open spec fn waits(&self) -> int {
        self.waited@
    }

    fn next(&mut self) -> (r: Result<Option<u8>, std::io::Error>) {
        let byte = self.bytes.pop_front();
        proof {
            self.waited@ = self.waited@ + 1;
            if byte is Some {
                assert(self.pending() =~= old(self).pending().drop_first());
            }
        }
        Ok(byte)
    }

    fn next_soon(&mut self) -> (r: Result<Option<u8>, std::io::Error>) {
        let byte = self.bytes.pop_front();
        proof {
            if byte is Some {
                assert(self.pending() =~= old(self).pending().drop_first());
            }
        }
        Ok(byte)
    }
}

} // verus!
