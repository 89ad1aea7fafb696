//! What each key comes to, byte for byte.

use vstd::prelude::*;
use vstd::utf8::*;

use crate::text;
use crate::ui::unix;
use crate::ui::unix::{Bytes, Feed, Leading, Press};
use crate::ui::{Error, Key};

verus! {

/// A byte that is a key by itself takes nothing after it.
pub proof fn some_bytes_are_keys(byte: u8, t: Seq<u8>)
    ensures
        byte == 0x0d || byte == 0x0a ==> unix::first_press(seq![byte] + t) == Some(
            Press { key: Key::Enter, used: 1 },
        ),
        byte == 0x7f || byte == 0x08 ==> unix::first_press(seq![byte] + t) == Some(
            Press { key: Key::Backspace, used: 1 },
        ),
        byte == 0x03 ==> unix::first_press(seq![byte] + t) == Some(
            Press { key: Key::Cancel, used: 1 },
        ),
        byte < 0x20 && byte != 0x0d && byte != 0x0a && byte != 0x08 && byte != 0x03 && byte != 0x1b
            ==> unix::first_press(seq![byte] + t) == Some(Press { key: Key::Ignored, used: 1 }),
        0x80 <= byte < 0xc2 || byte > 0xf4 ==> unix::first_press(seq![byte] + t) == Some(
            Press { key: Key::Ignored, used: 1 },
        ),
{
    let s = seq![byte] + t;
    assert(s[0] == byte);
}

/// No bytes are no key.
pub proof fn no_bytes_are_no_key()
    ensures
        unix::first_press(Seq::empty()) is None,
{
}

/// A bare Esc cancels. Esc before another byte is Alt with that key, which
/// means nothing, unless the byte opens a sequence.
pub proof fn escape_alone_cancels(byte: u8, t: Seq<u8>)
    ensures
        unix::first_press(seq![0x1bu8]) == Some(Press { key: Key::Cancel, used: 1 }),
        byte != 0x5b && byte != 0x4f ==> unix::first_press(seq![0x1bu8, byte] + t) == Some(
            Press { key: Key::Ignored, used: 2 },
        ),
{
    assert(seq![0x1bu8].drop_first().len() == 0);
    let s = seq![0x1bu8, byte] + t;
    assert(s[0] == 0x1b && s.drop_first()[0] == byte);
}

/// What a sequence stands for: the arrows and the keys that go to either end,
/// each in every form that a terminal sends, and nothing else.
pub proof fn sequences_stand_for_keys(last: u8, number: int)
    ensures
        unix::sequence_key(last, number) == match last {
            0x41u8 => Key::Up,
            0x42u8 => Key::Down,
            0x46u8 => Key::End,
            0x48u8 => Key::Home,
            0x7eu8 => if number == 1 || number == 5 || number == 7 {
                Key::Home
            } else if number == 4 || number == 6 || number == 8 {
                Key::End
            } else {
                Key::Ignored
            },
            _ => Key::Ignored,
        },
{
}

/// A terminal in application-cursor mode sends one byte after `ESC O`. Cut
/// short, the sequence means nothing.
pub proof fn application_sequences_take_a_byte(last: u8, t: Seq<u8>)
    ensures
        unix::first_press(seq![0x1bu8, 0x4f, last] + t) == Some(
            Press { key: unix::sequence_key(last, 0), used: 3 },
        ),
        unix::first_press(seq![0x1bu8, 0x4f]) == Some(Press { key: Key::Ignored, used: 2 }),
{
    let s = seq![0x1bu8, 0x4f, last] + t;
    assert(s[0] == 0x1b && s.drop_first()[0] == 0x4f && s.drop_first()[1] == last);
    let cut = seq![0x1bu8, 0x4f];
    assert(cut[0] == 0x1b && cut.drop_first()[0] == 0x4f && cut.drop_first().len() == 1);
}

/// Whether the bytes can stand between `ESC [` and the last byte.
pub open spec fn parameters(bytes: Seq<u8>) -> bool {
    forall|k: int| 0 <= k < bytes.len() ==> 0x20 <= #[trigger] bytes[k] <= 0x3f
}

/// A control sequence runs to its last byte, whatever stands in between, and
/// that byte and the leading number are its key.
pub proof fn control_sequences_run_to_their_last_byte(params: Seq<u8>, last: u8, t: Seq<u8>)
    requires
        parameters(params),
        0x40 <= last <= 0x7e,
    ensures
        unix::first_press(seq![0x1bu8, 0x5b] + (params + (seq![last] + t))) == Some(
            Press {
                key: unix::sequence_key(
                    last,
                    unix::after_parameters(params, unix::no_digits()).number,
                ),
                used: params.len() as int + 3,
            },
        ),
{
    assert forall|k: int| 0 <= k < params.len() implies unix::is_parameter(#[trigger] params[k]) by {
        assert(0x20 <= params[k] <= 0x3f);
    }
    unix::sequences_are_taken_whole(params, last, t);
}

proof fn lemma_broken(params: Seq<u8>, t: Seq<u8>, lead: Leading)
    requires
        parameters(params),
        t.len() > 0 ==> t[0] < 0x20 || t[0] > 0x7e,
    ensures
        unix::csi_press(params + t, lead) == (Press {
            key: Key::Ignored,
            used: params.len() as int + if t.len() > 0 {
                1int
            } else {
                0
            },
        }),
    decreases params.len(),
{
    let s = params + t;
    if params.len() > 0 {
        let next = params.drop_first();
        assert(s[0] == params[0]);
        assert(s.drop_first() =~= next + t);
        assert(parameters(next)) by {
            assert forall|k: int| 0 <= k < next.len() implies 0x20 <= #[trigger] next[k]
                <= 0x3f by {
                assert(next[k] == params[k + 1]);
            }
        }
        lemma_broken(next, t, unix::with_parameter(lead, params[0]));
    } else {
        assert(s =~= t);
    }
}

/// A control sequence that is cut short, or broken into by a byte that has no
/// place in it, means nothing. It is taken as far as it goes, with that byte.
pub proof fn broken_sequences_mean_nothing(params: Seq<u8>, t: Seq<u8>)
    requires
        parameters(params),
        t.len() > 0 ==> t[0] < 0x20 || t[0] > 0x7e,
    ensures
        unix::first_press(seq![0x1bu8, 0x5b] + (params + t)) == Some(
            Press {
                key: Key::Ignored,
                used: params.len() as int + if t.len() > 0 {
                    3int
                } else {
                    2
                },
            },
        ),
{
    let s = seq![0x1bu8, 0x5b] + (params + t);
    assert(s[0] == 0x1b && s.drop_first()[0] == 0x5b);
    assert(s.drop_first().drop_first() =~= params + t);
    lemma_broken(params, t, unix::no_digits());
}

proof fn lemma_all_digits(params: Seq<u8>, lead: Leading)
    requires
        lead.open,
        forall|k: int| 0 <= k < params.len() ==> 0x30 <= #[trigger] params[k] <= 0x39,
    ensures
        unix::after_parameters(params, lead).open,
    decreases params.len(),
{
    if params.len() > 0 {
        let next = params.drop_first();
        assert(0x30 <= params[0] <= 0x39);
        assert forall|k: int| 0 <= k < next.len() implies 0x30 <= #[trigger] next[k] <= 0x39 by {
            assert(next[k] == params[k + 1]);
        }
        lemma_all_digits(next, unix::with_parameter(lead, params[0]));
    }
}

proof fn lemma_one_more(params: Seq<u8>, byte: u8, lead: Leading)
    ensures
        unix::after_parameters(params.push(byte), lead) == unix::with_parameter(
            unix::after_parameters(params, lead),
            byte,
        ),
    decreases params.len(),
{
    let all = params.push(byte);
    if params.len() > 0 {
        assert(all.drop_first() =~= params.drop_first().push(byte));
        assert(all[0] == params[0]);
        lemma_one_more(params.drop_first(), byte, unix::with_parameter(lead, params[0]));
    } else {
        assert(all.drop_first() =~= Seq::<u8>::empty());
        reveal_with_fuel(unix::after_parameters, 2);
    }
}

/// The leading number grows by a digit at a time, up to the largest that fits,
/// and is zero where there is no digit.
pub proof fn leading_numbers_are_decimal(digits: Seq<u8>, digit: u8)
    requires
        forall|k: int| 0 <= k < digits.len() ==> 0x30 <= #[trigger] digits[k] <= 0x39,
        0x30 <= digit <= 0x39,
    ensures
        unix::after_parameters(Seq::empty(), unix::no_digits()).number == 0,
        ({
            let n = unix::after_parameters(digits, unix::no_digits()).number;
            let longer = n * 10 + (digit - 0x30);
            unix::after_parameters(digits.push(digit), unix::no_digits()).number == if longer
                <= 65535 {
                longer
            } else {
                65535
            }
        }),
{
    lemma_one_more(digits, digit, unix::no_digits());
    lemma_all_digits(digits, unix::no_digits());
}

/// Whether the bytes are those of a text.
pub open spec fn spells(bytes: Seq<u8>, s: Seq<char>) -> bool {
    bytes.len() == s.len() && forall|k: int|
        0 <= k < s.len() ==> #[trigger] bytes[k] as int == s[k] as int
}

proof fn lemma_written_number(digits: Seq<u8>, n: nat)
    requires
        spells(digits, text::decimal(n)),
    ensures
        forall|k: int| 0 <= k < digits.len() ==> 0x30 <= #[trigger] digits[k] <= 0x39,
        unix::after_parameters(digits, unix::no_digits()).number == if n <= 65535 {
            n as int
        } else {
            65535
        },
    decreases n,
{
    let d = text::decimal(n);
    let last = digits.last();
    let front = digits.drop_last();
    assert(digits =~= front.push(last));
    assert(digits[d.len() - 1] as int == d[d.len() - 1] as int);
    assert(last == 0x30 + n % 10);
    if n >= 10 {
        assert(d.drop_last() =~= text::decimal(n / 10));
        assert(spells(front, text::decimal(n / 10))) by {
            assert forall|k: int| 0 <= k < front.len() implies #[trigger] front[k] as int
                == text::decimal(n / 10)[k] as int by {
                assert(digits[k] as int == d[k] as int);
            }
        }
        lemma_written_number(front, n / 10);
    } else {
        assert(front =~= Seq::<u8>::empty());
    }
    assert forall|k: int| 0 <= k < digits.len() implies 0x30 <= #[trigger] digits[k] <= 0x39 by {
        if k < front.len() {
            assert(0x30 <= front[k] <= 0x39);
        }
    }
    leading_numbers_are_decimal(front, last);
}

/// `ESC [ n ~` goes to the first task for Home, in both its numbers, and for
/// page up, to the last for End, in both, and for page down, and means nothing
/// for any other number, whatever modifiers follow the number.
pub proof fn numbered_keys_go_to_the_ends(n: nat, digits: Seq<u8>, others: Seq<u8>, t: Seq<u8>)
    requires
        spells(digits, text::decimal(n)),
        parameters(others),
        others.len() > 0 ==> !(0x30 <= others[0] <= 0x39),
    ensures
        unix::first_press(seq![0x1bu8, 0x5b] + ((digits + others) + (seq![0x7eu8] + t))) == Some(
            Press {
                key: if n == 1 || n == 5 || n == 7 {
                    Key::Home
                } else if n == 4 || n == 6 || n == 8 {
                    Key::End
                } else {
                    Key::Ignored
                },
                used: digits.len() as int + others.len() as int + 3,
            },
        ),
{
    lemma_written_number(digits, n);
    if others.len() > 0 {
        unix::modifiers_do_not_matter(digits, others);
    } else {
        assert(digits + others =~= digits);
    }
    assert(parameters(digits + others)) by {
        assert forall|k: int| 0 <= k < (digits + others).len() implies 0x20 <= #[trigger] (digits
            + others)[k] <= 0x3f by {
            if k < digits.len() {
                assert(0x30 <= digits[k] <= 0x39);
            } else {
                assert(0x20 <= others[k - digits.len()] <= 0x3f);
            }
        }
    }
    control_sequences_run_to_their_last_byte(digits + others, 0x7e, t);
}

/// How many bytes a character takes, told from its first.
pub open spec fn announced(lead: u8) -> int {
    if lead < 0x80 {
        1
    } else if lead < 0xe0 {
        2
    } else if lead < 0xf0 {
        3
    } else {
        4
    }
}

/// A character whose bytes do not all come means nothing, and neither do bytes
/// that are no character. They are taken, as far as they come.
pub proof fn broken_characters_mean_nothing(lead: u8, t: Seq<u8>)
    requires
        0xc2 <= lead <= 0xf4,
        t.len() + 1 < announced(lead) || !valid_utf8(seq![lead] + t.take(announced(lead) - 1)),
    ensures
        unix::first_press(seq![lead] + t) == Some(
            Press {
                key: Key::Ignored,
                used: if t.len() + 1 < announced(lead) {
                    t.len() as int + 1
                } else {
                    announced(lead)
                },
            },
        ),
{
    let s = seq![lead] + t;
    assert(s[0] == lead);
    assert(s.drop_first() =~= t);
}

/// A key that was read is what the bytes taken mean: they were taken off the
/// front, as many as the key uses. Where every byte comes in time, it is what
/// all the bytes there are start with. A failure is reported as it came. No
/// byte is waited for.
pub proof fn keys_mean_the_bytes_taken<B: Bytes>(
    before: B,
    after: B,
    r: Result<Key, Error>,
    meaning: spec_fn(Seq<u8>) -> Press,
)
    requires
        unix::took(before, after, r, meaning),
    ensures
        after.prompt() == before.prompt(),
        after.waits() == before.waits(),
        r matches Ok(key) ==> after.failure() == before.failure() && exists|n: int|
            0 <= n <= before.pending().len() && after.pending() == before.pending().skip(n)
                && meaning(#[trigger] before.pending().take(n)) == (Press { key, used: n }),
        r matches Err(e) ==> (e matches Error::Io(why) && after.failure() == Some(why)),
        before.prompt() ==> (r matches Ok(key) && key == meaning(before.pending()).key
            && after.pending() == before.pending().skip(meaning(before.pending()).used)),
{
}

/// A feed has the bytes of its queue, in order, all of them in time.
pub proof fn feeds_give_their_bytes(f: Feed)
    ensures
        f.pending() == f.bytes@,
        f.prompt(),
        f.failure() is None,
        f.waits() == f.waited@,
{
}

} // verus!
