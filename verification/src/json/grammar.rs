//! What the bytes of a manifest mean.
//!
//! Every function here takes the bytes and an offset, and says what stands
//! there: where it ends and what it holds, or which fault it is and where.

use vstd::prelude::*;
use vstd::utf8::*;

use crate::std_items;
use crate::text;

verus! {

pub const TAB: u8 = 0x09;

pub const LINE_FEED: u8 = 0x0a;

pub const CARRIAGE_RETURN: u8 = 0x0d;

pub const SPACE: u8 = 0x20;

pub const QUOTE: u8 = 0x22;

pub const STAR: u8 = 0x2a;

pub const COMMA: u8 = 0x2c;

pub const SLASH: u8 = 0x2f;

pub const COLON: u8 = 0x3a;

pub const OPEN_BRACKET: u8 = 0x5b;

pub const BACKSLASH: u8 = 0x5c;

pub const CLOSE_BRACKET: u8 = 0x5d;

pub const LOWER_U: u8 = 0x75;

pub const OPEN_BRACE: u8 = 0x7b;

pub const CLOSE_BRACE: u8 = 0x7d;

/// Malformed input: the offset to point at and what is wrong there.
pub struct Fault {
    pub at: int,
    pub msg: Seq<char>,
}

/// What a successful read found, with the offset after it, or the fault.
pub type Read<T> = Result<(T, int), Fault>;

/// One runnable task.
pub struct TaskView {
    pub name: Seq<char>,
    pub command: Seq<char>,
    pub description: Seq<char>,
}

/// What a manifest holds of interest.
pub struct ManifestView {
    pub tasks: Seq<TaskView>,
    pub package_manager: Seq<char>,
}

/// Why a manifest cannot be used.
pub enum ErrorView {
    Syntax { at: int, msg: Seq<char> },
    NoTasks,
}

/// The byte at `i`, if there is one.
pub open spec fn byte_at(b: Seq<u8>, i: int) -> Option<u8> {
    if 0 <= i < b.len() {
        Some(b[i])
    } else {
        None
    }
}

/// How many bytes there are from `i` on.
pub open spec fn left(b: Seq<u8>, i: int) -> nat {
    if i < b.len() {
        (b.len() - i) as nat
    } else {
        0
    }
}

/// How a message shows a byte: a printable one as its character between single
/// quotes.
pub open spec fn shown(c: u8) -> Seq<char> {
    if 0x20 <= c <= 0x7e && c != 0x27 && c != BACKSLASH {
        seq!['\'', c as char, '\'']
    } else {
        std_items::char_debug(c as char)
    }
}

/// The fault of finding something other than `want`.
pub open spec fn expected(want: u8) -> Seq<char> {
    "expected "@ + shown(want)
}

// ---------------------------------------------------------------------------
// Whitespace and comments
// ---------------------------------------------------------------------------
pub open spec fn is_space(c: u8) -> bool {
    c == SPACE || c == TAB || c == CARRIAGE_RETURN || c == LINE_FEED
}

/// Where the line that `i` stands on ends: at its line feed, or at the end.
pub open spec fn line_end(b: Seq<u8>, i: int) -> int
    decreases b.len() - i,
{
    if i >= b.len() || b[i] == LINE_FEED {
        i
    } else {
        line_end(b, i + 1)
    }
}

/// Where a block comment whose text starts at `i` ends: after its `*/`, or at
/// the end when it is never closed.
pub open spec fn block_end(b: Seq<u8>, i: int) -> int
    decreases b.len() - i,
{
    if i >= b.len() {
        i
    } else if b[i] == STAR && byte_at(b, i + 1) == Some(SLASH) {
        i + 2
    } else {
        block_end(b, i + 1)
    }
}

pub proof fn lemma_line_end(b: Seq<u8>, i: int)
    ensures
        i <= line_end(b, i),
        i <= b.len() ==> line_end(b, i) <= b.len(),
    decreases b.len() - i,
{
    if i >= b.len() || b[i] == LINE_FEED {
    } else {
        lemma_line_end(b, i + 1);
    }
}

pub proof fn lemma_block_end(b: Seq<u8>, i: int)
    ensures
        i <= block_end(b, i),
        i <= b.len() ==> block_end(b, i) <= b.len(),
    decreases b.len() - i,
{
    if i >= b.len() {
    } else if b[i] == STAR && byte_at(b, i + 1) == Some(SLASH) {
    } else {
        lemma_block_end(b, i + 1);
    }
}

/// Where the whitespace and comments that start at `i` end.
pub open spec fn trivia_end(b: Seq<u8>, i: int) -> int
    decreases b.len() - i,
{
    if i >= b.len() {
        i
    } else if is_space(b[i]) {
        trivia_end(b, i + 1)
    } else if b[i] == SLASH && byte_at(b, i + 1) == Some(SLASH) {
        proof {
            lemma_line_end(b, i + 2);
        }
        trivia_end(b, line_end(b, i + 2))
    } else if b[i] == SLASH && byte_at(b, i + 1) == Some(STAR) {
        proof {
            lemma_block_end(b, i + 2);
        }
        trivia_end(b, block_end(b, i + 2))
    } else {
        i
    }
}

pub proof fn lemma_trivia_end(b: Seq<u8>, i: int)
    ensures
        i <= trivia_end(b, i),
        i <= b.len() ==> trivia_end(b, i) <= b.len(),
        trivia_end(b, trivia_end(b, i)) == trivia_end(b, i),
    decreases b.len() - i,
{
    if i >= b.len() {
    } else if is_space(b[i]) {
        lemma_trivia_end(b, i + 1);
    } else if b[i] == SLASH && byte_at(b, i + 1) == Some(SLASH) {
        lemma_line_end(b, i + 2);
        lemma_trivia_end(b, line_end(b, i + 2));
    } else if b[i] == SLASH && byte_at(b, i + 1) == Some(STAR) {
        lemma_block_end(b, i + 2);
        lemma_trivia_end(b, block_end(b, i + 2));
    }
}

// ---------------------------------------------------------------------------
// Strings
// ---------------------------------------------------------------------------
/// The character that a backslash and `e` stand for, but for `\u`.
pub open spec fn short_escape(e: u8) -> Option<char> {
    if e == QUOTE {
        Some('"')
    } else if e == BACKSLASH {
        Some('\\')
    } else if e == SLASH {
        Some('/')
    } else if e == 0x62 {
        Some('\u{8}')
    } else if e == 0x66 {
        Some('\u{c}')
    } else if e == 0x6e {
        Some('\n')
    } else if e == 0x72 {
        Some('\r')
    } else if e == 0x74 {
        Some('\t')
    } else {
        None
    }
}

/// The value of a hexadecimal digit of either case.
pub open spec fn hex_digit(c: u8) -> Option<int> {
    if 0x30 <= c <= 0x39 {
        Some(c - 0x30)
    } else if 0x61 <= c <= 0x66 {
        Some(c - 0x61 + 10)
    } else if 0x41 <= c <= 0x46 {
        Some(c - 0x41 + 10)
    } else {
        None
    }
}

/// `n` hexadecimal digits at `i`, read on from the value `high`.
pub open spec fn hex_digits(b: Seq<u8>, i: int, n: nat, high: int) -> Read<int>
    decreases n,
{
    if n == 0 {
        Ok((high, i))
    } else {
        match byte_at(b, i) {
            None => Err(Fault { at: i, msg: "short \\u escape"@ }),
            Some(c) => match hex_digit(c) {
                None => Err(Fault { at: i, msg: "bad hex digit"@ }),
                Some(d) => hex_digits(b, i + 1, (n - 1) as nat, high * 16 + d),
            },
        }
    }
}

pub open spec fn is_high_surrogate(v: int) -> bool {
    0xD800 <= v < 0xDC00
}

pub open spec fn is_low_surrogate(v: int) -> bool {
    0xDC00 <= v < 0xE000
}

/// The character that a surrogate pair stands for.
pub open spec fn paired(high: int, low: int) -> char {
    (0x10000 + (high - 0xD800) * 0x400 + (low - 0xDC00)) as char
}

/// What follows `\u`: four digits, or a surrogate pair of two such escapes.
pub open spec fn unicode_escape(b: Seq<u8>, i: int) -> Read<char> {
    match hex_digits(b, i, 4, 0) {
        Err(f) => Err(f),
        Ok((first, j)) => if is_high_surrogate(first) {
            if byte_at(b, j) == Some(BACKSLASH) && byte_at(b, j + 1) == Some(LOWER_U) {
                match hex_digits(b, j + 2, 4, 0) {
                    Err(f) => Err(f),
                    Ok((second, k)) => if is_low_surrogate(second) {
                        Ok((paired(first, second), k))
                    } else {
                        Err(Fault { at: k, msg: "unpaired high surrogate"@ })
                    },
                }
            } else {
                Err(Fault { at: j, msg: "unpaired high surrogate"@ })
            }
        } else if is_low_surrogate(first) {
            Err(Fault { at: j, msg: "invalid code point"@ })
        } else {
            Ok((first as char, j))
        },
    }
}

/// What follows a backslash.
pub open spec fn escape(b: Seq<u8>, i: int) -> Read<char> {
    match byte_at(b, i) {
        None => Err(Fault { at: i, msg: "unterminated escape"@ }),
        Some(e) => match short_escape(e) {
            Some(c) => Ok((c, i + 1)),
            None => if e == LOWER_U {
                unicode_escape(b, i + 1)
            } else {
                Err(Fault { at: i + 1, msg: "bad escape "@ + shown(e) })
            },
        },
    }
}

pub proof fn lemma_hex_digits(b: Seq<u8>, i: int, n: nat, high: int)
    requires
        0 <= high,
    ensures
        hex_digits(b, i, n, high) matches Ok((v, j)) ==> j == i + n && 0 <= v && (n > 0 ==> j
            <= b.len()),
    decreases n,
{
    if n > 0 && 0 <= i < b.len() {
        match hex_digit(b[i]) {
            Some(d) => lemma_hex_digits(b, i + 1, (n - 1) as nat, high * 16 + d),
            None => {},
        }
    }
}

pub proof fn lemma_escape(b: Seq<u8>, i: int)
    ensures
        escape(b, i) matches Ok((c, j)) ==> i < j,
{
    lemma_hex_digits(b, i + 1, 4, 0);
    if let Ok((first, j)) = hex_digits(b, i + 1, 4, 0) {
        lemma_hex_digits(b, j + 2, 4, 0);
    }
}

/// The bytes from `i` on.
pub open spec fn rest(b: Seq<u8>, i: int) -> Seq<u8> {
    b.subrange(i, b.len() as int)
}

/// Text can be cut before an ASCII byte.
pub proof fn lemma_rest_at_ascii(b: Seq<u8>, i: int)
    requires
        valid_utf8(b),
        0 <= i < b.len(),
        b[i] < 0x80,
    ensures
        valid_utf8(rest(b, i)),
{
    is_char_boundary_iff_not_is_continuation_byte(b, i);
    valid_utf8_split(b, i);
}

/// The first character of what is left of a text, and what is left after it.
pub proof fn lemma_rest_step(b: Seq<u8>, i: int)
    requires
        0 <= i < b.len(),
        valid_utf8(rest(b, i)),
    ensures
        ({
            let n = length_of_first_scalar(rest(b, i));
            &&& 1 <= n <= b.len() - i
            &&& b[i] < 0x80 ==> n == 1
            &&& !is_continuation_byte(b[i]) && b[i] < 0xf8
            &&& valid_utf8(rest(b, i + n))
            &&& valid_utf8(b.subrange(i, i + n))
            &&& decode_utf8(b.subrange(i, i + n)) == seq![decode_first_scalar(rest(b, i)) as char]
        }),
{
    let r = rest(b, i);
    let n = length_of_first_scalar(r);
    let piece = b.subrange(i, i + n);
    assert(pop_first_scalar(r) =~= rest(b, i + n));
    reveal_with_fuel(valid_utf8, 2);
    reveal_with_fuel(decode_utf8, 2);
    assert(forall|k: int| 0 <= k < n ==> piece[k] == r[k]);
    assert(pop_first_scalar(piece) =~= Seq::<u8>::empty());
    assert(decode_utf8(piece) =~= seq![decode_first_scalar(r) as char]);
}

/// What one byte sequence inside a string stands for: an escape, or a character
/// of the text itself.
pub open spec fn string_char(b: Seq<u8>, i: int) -> Read<char> {
    if b[i] == BACKSLASH {
        escape(b, i + 1)
    } else {
        Ok(
            (
                decode_first_scalar(rest(b, i)) as char,
                i + length_of_first_scalar(rest(b, i)),
            ),
        )
    }
}

/// The inside of a string from `i` on, up to and with its closing quote.
pub open spec fn string_body(b: Seq<u8>, i: int) -> Read<Seq<char>>
    decreases left(b, i),
{
    if byte_at(b, i) is None {
        Err(Fault { at: i, msg: "unterminated string"@ })
    } else if b[i] == QUOTE {
        Ok((Seq::<char>::empty(), i + 1))
    } else {
        proof {
            lemma_escape(b, i + 1);
        }
        match string_char(b, i) {
            Err(f) => Err(f),
            Ok((c, j)) => match string_body(b, j) {
                Err(f) => Err(f),
                Ok((cs, k)) => Ok((seq![c] + cs, k)),
            },
        }
    }
}

/// The string literal at `i`.
pub open spec fn string_at(b: Seq<u8>, i: int) -> Read<Seq<char>> {
    if byte_at(b, i) == Some(QUOTE) {
        string_body(b, i + 1)
    } else {
        Err(Fault { at: i, msg: expected(QUOTE) })
    }
}

pub proof fn lemma_string_body(b: Seq<u8>, i: int)
    ensures
        string_body(b, i) matches Ok((s, j)) ==> i < j <= b.len(),
    decreases left(b, i),
{
    if 0 <= i < b.len() && b[i] != QUOTE {
        lemma_escape(b, i + 1);
        if let Ok((c, j)) = string_char(b, i) {
            lemma_string_body(b, j);
        }
    }
}

// ---------------------------------------------------------------------------
// Values that are passed over
// ---------------------------------------------------------------------------
/// The bytes that end a number, `true`, `false` or `null`.
pub open spec fn ends_scalar(c: u8) -> bool {
    c == COMMA || c == CLOSE_BRACE || c == CLOSE_BRACKET || is_space(c) || c == SLASH
}

/// Where the scalar at `i` ends.
pub open spec fn scalar_end(b: Seq<u8>, i: int) -> int
    decreases b.len() - i,
{
    if i >= b.len() || ends_scalar(b[i]) {
        i
    } else {
        scalar_end(b, i + 1)
    }
}

pub proof fn lemma_scalar_end(b: Seq<u8>, i: int)
    ensures
        i <= scalar_end(b, i),
        i <= b.len() ==> scalar_end(b, i) <= b.len(),
    decreases b.len() - i,
{
    if i >= b.len() || ends_scalar(b[i]) {
    } else {
        lemma_scalar_end(b, i + 1);
    }
}

pub open spec fn opens(c: u8) -> bool {
    c == OPEN_BRACE || c == OPEN_BRACKET
}

pub open spec fn closes(c: u8) -> bool {
    c == CLOSE_BRACE || c == CLOSE_BRACKET
}

/// Where `depth` open objects and arrays are all closed again, reading on from
/// `i`. Brackets inside strings and comments do not count.
pub open spec fn container_end(b: Seq<u8>, i: int, depth: int) -> Result<int, Fault>
    decreases left(b, i),
{
    let j = trivia_end(b, i);
    if byte_at(b, j) is None {
        Err(Fault { at: j, msg: "unterminated object or array"@ })
    } else {
        proof {
            lemma_trivia_end(b, i);
            lemma_string_body(b, j + 1);
        }
        if opens(b[j]) {
            container_end(b, j + 1, depth + 1)
        } else if closes(b[j]) {
            if depth <= 1 {
                Ok(j + 1)
            } else {
                container_end(b, j + 1, depth - 1)
            }
        } else if b[j] == QUOTE {
            match string_at(b, j) {
                Err(f) => Err(f),
                Ok((s, k)) => container_end(b, k, depth),
            }
        } else {
            container_end(b, j + 1, depth)
        }
    }
}

pub proof fn lemma_container_end(b: Seq<u8>, i: int, depth: int)
    ensures
        container_end(b, i, depth) matches Ok(j) ==> i < j <= b.len(),
    decreases left(b, i),
{
    let j = trivia_end(b, i);
    lemma_trivia_end(b, i);
    if 0 <= j < b.len() {
        lemma_string_body(b, j + 1);
        if opens(b[j]) {
            lemma_container_end(b, j + 1, depth + 1);
        } else if closes(b[j]) {
            if depth > 1 {
                lemma_container_end(b, j + 1, depth - 1);
            }
        } else if b[j] == QUOTE {
            if let Ok((s, k)) = string_at(b, j) {
                lemma_container_end(b, k, depth);
            }
        } else {
            lemma_container_end(b, j + 1, depth);
        }
    }
}

/// Where the value at `i` ends, whatever it is.
pub open spec fn value_end(b: Seq<u8>, i: int) -> Result<int, Fault> {
    let j = trivia_end(b, i);
    match byte_at(b, j) {
        None => Err(Fault { at: j, msg: "unexpected end of input"@ }),
        Some(c) => if c == QUOTE {
            match string_at(b, j) {
                Err(f) => Err(f),
                Ok((s, k)) => Ok(k),
            }
        } else if opens(c) {
            container_end(b, j, 0)
        } else if ends_scalar(c) {
            Err(Fault { at: j, msg: "expected a value"@ })
        } else {
            Ok(scalar_end(b, j))
        },
    }
}

pub proof fn lemma_value_end(b: Seq<u8>, i: int)
    ensures
        value_end(b, i) matches Ok(j) ==> i < j <= b.len(),
{
    let j = trivia_end(b, i);
    lemma_trivia_end(b, i);
    lemma_string_body(b, j + 1);
    lemma_container_end(b, j, 0);
    lemma_scalar_end(b, j + 1);
}

// ---------------------------------------------------------------------------
// Members of objects and arrays
// ---------------------------------------------------------------------------
/// A key, its colon, and the offset at which its value starts.
pub open spec fn key_at(b: Seq<u8>, i: int) -> Read<Seq<char>> {
    match string_at(b, i) {
        Err(f) => Err(f),
        Ok((key, j)) => {
            let colon = trivia_end(b, j);
            if byte_at(b, colon) == Some(COLON) {
                Ok((key, trivia_end(b, colon + 1)))
            } else {
                Err(Fault { at: colon, msg: expected(COLON) })
            }
        },
    }
}

/// What follows a member: a comma, after which another may come, or `close`.
pub open spec fn separator(b: Seq<u8>, i: int, close: u8) -> Read<bool> {
    let j = trivia_end(b, i);
    if byte_at(b, j) == Some(COMMA) {
        Ok((true, j + 1))
    } else if byte_at(b, j) == Some(close) {
        Ok((false, j + 1))
    } else {
        Err(Fault { at: j, msg: expected(close) })
    }
}

pub proof fn lemma_key_at(b: Seq<u8>, i: int)
    ensures
        key_at(b, i) matches Ok((s, j)) ==> i < j <= b.len(),
{
    lemma_string_body(b, i + 1);
    if let Ok((key, j)) = string_at(b, i) {
        lemma_trivia_end(b, j);
        lemma_trivia_end(b, trivia_end(b, j) + 1);
    }
}

pub proof fn lemma_separator(b: Seq<u8>, i: int, close: u8)
    ensures
        separator(b, i, close) matches Ok((more, j)) ==> i < j <= b.len(),
{
    lemma_trivia_end(b, i);
}

/// A string, or whatever value stands there instead.
pub open spec fn string_or_skip(b: Seq<u8>, i: int) -> Read<Option<Seq<char>>> {
    if byte_at(b, i) == Some(QUOTE) {
        match string_at(b, i) {
            Err(f) => Err(f),
            Ok((s, j)) => Ok((Some(s), j)),
        }
    } else {
        match value_end(b, i) {
            Err(f) => Err(f),
            Ok(j) => Ok((None, j)),
        }
    }
}

pub proof fn lemma_string_or_skip(b: Seq<u8>, i: int)
    ensures
        string_or_skip(b, i) matches Ok((s, j)) ==> i < j <= b.len(),
{
    lemma_string_body(b, i + 1);
    lemma_value_end(b, i);
}

// ---------------------------------------------------------------------------
// Tasks
// ---------------------------------------------------------------------------
/// What has been read of a task in object form.
pub struct Draft {
    pub command: Seq<char>,
    pub description: Seq<char>,
    pub dependencies: Seq<Seq<char>>,
}

pub open spec fn empty_draft() -> Draft {
    Draft {
        command: Seq::empty(),
        description: Seq::empty(),
        dependencies: Seq::empty(),
    }
}

/// The strings among the items of an array, after those in `found`.
pub open spec fn items(b: Seq<u8>, i: int, found: Seq<Seq<char>>) -> Read<Seq<Seq<char>>>
    decreases left(b, i),
{
    let j = trivia_end(b, i);
    if byte_at(b, j) == Some(CLOSE_BRACKET) {
        Ok((found, j + 1))
    } else {
        match string_or_skip(b, j) {
            Err(f) => Err(f),
            Ok((s, k)) => {
                let now = match s {
                    Some(text) => found.push(text),
                    None => found,
                };
                match separator(b, k, CLOSE_BRACKET) {
                    Err(f) => Err(f),
                    Ok((more, n)) => if more {
                        proof {
                            lemma_trivia_end(b, i);
                            lemma_string_or_skip(b, j);
                            lemma_separator(b, k, CLOSE_BRACKET);
                        }
                        items(b, n, now)
                    } else {
                        Ok((now, n))
                    },
                }
            },
        }
    }
}

pub proof fn lemma_items(b: Seq<u8>, i: int, found: Seq<Seq<char>>)
    ensures
        items(b, i, found) matches Ok((s, j)) ==> i < j <= b.len(),
    decreases left(b, i),
{
    let j = trivia_end(b, i);
    lemma_trivia_end(b, i);
    lemma_string_or_skip(b, j);
    if byte_at(b, j) == Some(CLOSE_BRACKET) {
    } else if let Ok((s, k)) = string_or_skip(b, j) {
        lemma_separator(b, k, CLOSE_BRACKET);
        if let Ok((more, n)) = separator(b, k, CLOSE_BRACKET) {
            let now = match s {
                Some(text) => found.push(text),
                None => found,
            };
            lemma_items(b, n, now);
        }
    }
}

/// The value of the member `key` of a task in object form.
pub open spec fn task_field(b: Seq<u8>, i: int, key: Seq<char>, draft: Draft) -> Read<Draft> {
    if key == "command"@ && byte_at(b, i) == Some(QUOTE) {
        match string_at(b, i) {
            Err(f) => Err(f),
            Ok((s, j)) => Ok((Draft { command: s, ..draft }, j)),
        }
    } else if key == "description"@ && byte_at(b, i) == Some(QUOTE) {
        match string_at(b, i) {
            Err(f) => Err(f),
            Ok((s, j)) => Ok((Draft { description: s, ..draft }, j)),
        }
    } else if key == "dependencies"@ && byte_at(b, i) == Some(OPEN_BRACKET) {
        match items(b, i + 1, draft.dependencies) {
            Err(f) => Err(f),
            Ok((s, j)) => Ok((Draft { dependencies: s, ..draft }, j)),
        }
    } else {
        match value_end(b, i) {
            Err(f) => Err(f),
            Ok(j) => Ok((draft, j)),
        }
    }
}

pub proof fn lemma_task_field(b: Seq<u8>, i: int, key: Seq<char>, draft: Draft)
    ensures
        task_field(b, i, key, draft) matches Ok((d, j)) ==> i < j <= b.len(),
{
    lemma_string_body(b, i + 1);
    lemma_items(b, i + 1, draft.dependencies);
    lemma_value_end(b, i);
}

/// The members of a task in object form, after those in `draft`.
pub open spec fn task_fields(b: Seq<u8>, i: int, draft: Draft) -> Read<Draft>
    decreases left(b, i),
{
    let j = trivia_end(b, i);
    if byte_at(b, j) == Some(CLOSE_BRACE) {
        Ok((draft, j + 1))
    } else {
        match key_at(b, j) {
            Err(f) => Err(f),
            Ok((key, v)) => match task_field(b, v, key, draft) {
                Err(f) => Err(f),
                Ok((now, k)) => match separator(b, k, CLOSE_BRACE) {
                    Err(f) => Err(f),
                    Ok((more, n)) => if more {
                        proof {
                            lemma_trivia_end(b, i);
                            lemma_key_at(b, j);
                            lemma_task_field(b, v, key, draft);
                            lemma_separator(b, k, CLOSE_BRACE);
                        }
                        task_fields(b, n, now)
                    } else {
                        Ok((now, n))
                    },
                },
            },
        }
    }
}

pub proof fn lemma_task_fields(b: Seq<u8>, i: int, draft: Draft)
    ensures
        task_fields(b, i, draft) matches Ok((d, j)) ==> i < j <= b.len(),
    decreases left(b, i),
{
    let j = trivia_end(b, i);
    lemma_trivia_end(b, i);
    if byte_at(b, j) == Some(CLOSE_BRACE) {
    } else if let Ok((key, v)) = key_at(b, j) {
        lemma_key_at(b, j);
        lemma_task_field(b, v, key, draft);
        if let Ok((now, k)) = task_field(b, v, key, draft) {
            lemma_separator(b, k, CLOSE_BRACE);
            if let Ok((more, n)) = separator(b, k, CLOSE_BRACE) {
                lemma_task_fields(b, n, now);
            }
        }
    }
}

/// The task that a draft describes. One that has only dependencies shows them
/// in place of a command.
pub open spec fn drafted(name: Seq<char>, d: Draft) -> TaskView {
    TaskView {
        name,
        command: if d.command.len() == 0 && d.dependencies.len() > 0 {
            "depends on: "@ + text::joined(d.dependencies, ", "@)
        } else {
            d.command
        },
        description: d.description,
    }
}

/// The value of the member `name` of the task object: a command, a task in
/// object form, or something that is not runnable.
pub open spec fn task_at(b: Seq<u8>, i: int, name: Seq<char>) -> Read<Option<TaskView>> {
    if byte_at(b, i) == Some(QUOTE) {
        match string_at(b, i) {
            Err(f) => Err(f),
            Ok((command, j)) => Ok(
                (Some(TaskView { name, command, description: Seq::empty() }), j),
            ),
        }
    } else if byte_at(b, i) == Some(OPEN_BRACE) {
        match task_fields(b, i + 1, empty_draft()) {
            Err(f) => Err(f),
            Ok((d, j)) => Ok((Some(drafted(name, d)), j)),
        }
    } else {
        match value_end(b, i) {
            Err(f) => Err(f),
            Ok(j) => Ok((None, j)),
        }
    }
}

pub proof fn lemma_task_at(b: Seq<u8>, i: int, name: Seq<char>)
    ensures
        task_at(b, i, name) matches Ok((t, j)) ==> i < j <= b.len(),
{
    lemma_string_body(b, i + 1);
    lemma_task_fields(b, i + 1, empty_draft());
    lemma_value_end(b, i);
}

/// `found`, followed by `t` if there is one.
pub open spec fn with_task(found: Seq<TaskView>, t: Option<TaskView>) -> Seq<TaskView> {
    match t {
        Some(task) => found.push(task),
        None => found,
    }
}

/// The members of the task object, after those in `found`.
pub open spec fn entries(b: Seq<u8>, i: int, found: Seq<TaskView>) -> Read<Seq<TaskView>>
    decreases left(b, i),
{
    let j = trivia_end(b, i);
    if byte_at(b, j) == Some(CLOSE_BRACE) {
        Ok((found, j + 1))
    } else {
        match key_at(b, j) {
            Err(f) => Err(f),
            Ok((name, v)) => match task_at(b, v, name) {
                Err(f) => Err(f),
                Ok((t, k)) => match separator(b, k, CLOSE_BRACE) {
                    Err(f) => Err(f),
                    Ok((more, n)) => if more {
                        proof {
                            lemma_trivia_end(b, i);
                            lemma_key_at(b, j);
                            lemma_task_at(b, v, name);
                            lemma_separator(b, k, CLOSE_BRACE);
                        }
                        entries(b, n, with_task(found, t))
                    } else {
                        Ok((with_task(found, t), n))
                    },
                },
            },
        }
    }
}

pub proof fn lemma_entries(b: Seq<u8>, i: int, found: Seq<TaskView>)
    ensures
        entries(b, i, found) matches Ok((t, j)) ==> i < j <= b.len(),
    decreases left(b, i),
{
    let j = trivia_end(b, i);
    lemma_trivia_end(b, i);
    if byte_at(b, j) == Some(CLOSE_BRACE) {
    } else if let Ok((name, v)) = key_at(b, j) {
        lemma_key_at(b, j);
        lemma_task_at(b, v, name);
        if let Ok((t, k)) = task_at(b, v, name) {
            lemma_separator(b, k, CLOSE_BRACE);
            if let Ok((more, n)) = separator(b, k, CLOSE_BRACE) {
                lemma_entries(b, n, with_task(found, t));
            }
        }
    }
}

/// The object of tasks at `i`.
pub open spec fn tasks_at(b: Seq<u8>, i: int) -> Read<Seq<TaskView>> {
    let j = trivia_end(b, i);
    if byte_at(b, j) == Some(OPEN_BRACE) {
        entries(b, j + 1, Seq::empty())
    } else {
        Err(Fault { at: j, msg: expected(OPEN_BRACE) })
    }
}

pub proof fn lemma_tasks_at(b: Seq<u8>, i: int)
    ensures
        tasks_at(b, i) matches Ok((t, j)) ==> i < j <= b.len(),
{
    lemma_trivia_end(b, i);
    lemma_entries(b, trivia_end(b, i) + 1, Seq::empty());
}

// ---------------------------------------------------------------------------
// The whole document
// ---------------------------------------------------------------------------
/// The value of the member `key` of the document.
pub open spec fn top_member(
    b: Seq<u8>,
    i: int,
    key: Seq<char>,
    task_key: Seq<char>,
    m: ManifestView,
) -> Read<ManifestView> {
    if key == task_key {
        match tasks_at(b, i) {
            Err(f) => Err(f),
            Ok((tasks, j)) => Ok((ManifestView { tasks, ..m }, j)),
        }
    } else if key == "packageManager"@ {
        match string_or_skip(b, i) {
            Err(f) => Err(f),
            Ok((s, j)) => match s {
                Some(package_manager) => Ok((ManifestView { package_manager, ..m }, j)),
                None => Ok((m, j)),
            },
        }
    } else {
        match value_end(b, i) {
            Err(f) => Err(f),
            Ok(j) => Ok((m, j)),
        }
    }
}

pub proof fn lemma_top_member(
    b: Seq<u8>,
    i: int,
    key: Seq<char>,
    task_key: Seq<char>,
    m: ManifestView,
)
    ensures
        top_member(b, i, key, task_key, m) matches Ok((now, j)) ==> i < j <= b.len(),
{
    lemma_tasks_at(b, i);
    lemma_string_or_skip(b, i);
    lemma_value_end(b, i);
}

/// The members of the document, after those that gave `m`.
pub open spec fn top_members(
    b: Seq<u8>,
    i: int,
    task_key: Seq<char>,
    m: ManifestView,
) -> Read<ManifestView>
    decreases left(b, i),
{
    let j = trivia_end(b, i);
    if byte_at(b, j) == Some(CLOSE_BRACE) {
        Ok((m, j + 1))
    } else {
        match key_at(b, j) {
            Err(f) => Err(f),
            Ok((key, v)) => match top_member(b, v, key, task_key, m) {
                Err(f) => Err(f),
                Ok((now, k)) => match separator(b, k, CLOSE_BRACE) {
                    Err(f) => Err(f),
                    Ok((more, n)) => if more {
                        proof {
                            lemma_trivia_end(b, i);
                            lemma_key_at(b, j);
                            lemma_top_member(b, v, key, task_key, m);
                            lemma_separator(b, k, CLOSE_BRACE);
                        }
                        top_members(b, n, task_key, now)
                    } else {
                        Ok((now, n))
                    },
                },
            },
        }
    }
}

pub open spec fn empty_manifest() -> ManifestView {
    ManifestView { tasks: Seq::empty(), package_manager: Seq::empty() }
}

/// The document that starts at the first byte, whether or not it has tasks.
pub open spec fn top_level(b: Seq<u8>, task_key: Seq<char>) -> Read<ManifestView> {
    let i = trivia_end(b, 0);
    if byte_at(b, i) == Some(OPEN_BRACE) {
        top_members(b, i + 1, task_key, empty_manifest())
    } else {
        Err(Fault { at: i, msg: expected(OPEN_BRACE) })
    }
}

/// What reading the text `src` for the tasks under `task_key` comes to.
pub open spec fn document(src: Seq<char>, task_key: Seq<char>) -> Result<
    ManifestView,
    ErrorView,
> {
    match top_level(encode_utf8(src), task_key) {
        Err(f) => Err(ErrorView::Syntax { at: f.at, msg: f.msg }),
        Ok((m, end)) => if m.tasks.len() == 0 {
            Err(ErrorView::NoTasks)
        } else {
            Ok(m)
        },
    }
}

} // verus!
