//! A targeted JSONC scanner.
//!
//! Only two things are ever wanted out of a manifest: one named object of
//! tasks, and one optional string. So the scanner walks the top level, keeps
//! those, and passes over everything else without allocating for it.
//!
//! Source order falls out for free: tasks are pushed as they are encountered,
//! so there is no need for an order-preserving map at all.
//!
//! Comments and trailing commas are handled inline, which Deno permits in
//! deno.json as well as deno.jsonc.

use vstd::prelude::*;
use vstd::utf8::*;

use crate::std_items::debug_char;
use crate::text;
use crate::text::{append_decimal, join, same_text};

pub mod alphabet;
pub mod faults;
pub mod grammar;
pub mod manifests;
pub mod offsets;
pub mod tails;
pub mod writing;

use grammar::{
    Draft, ErrorView, Fault, ManifestView, TaskView, BACKSLASH, CARRIAGE_RETURN, CLOSE_BRACE,
    CLOSE_BRACKET, COLON, COMMA, LINE_FEED, LOWER_U, OPEN_BRACE, OPEN_BRACKET, QUOTE, SLASH, SPACE,
    STAR, TAB,
};

verus! {

#[derive(Debug, PartialEq)]
pub struct Task {
    pub name: String,
    pub command: String,
    pub description: String,
}

#[derive(Debug, PartialEq)]
pub struct Manifest {
    pub tasks: Vec<Task>,
    /// Raw `packageManager` field, e.g. "pnpm@9.1.0". Empty when absent.
    pub package_manager: String,
}

#[derive(Debug, PartialEq)]
pub enum Error {
    /// Malformed JSON, with a byte offset to point at.
    Syntax { at: usize, msg: String },
    /// Parsed cleanly, but there is nothing runnable in it.
    NoTasks,
}

impl View for Task {
    type V = TaskView;

    open spec fn view(&self) -> TaskView {
        TaskView { name: self.name@, command: self.command@, description: self.description@ }
    }
}

/// What each of the tasks is.
pub open spec fn task_views(tasks: Seq<Task>) -> Seq<TaskView> {
    tasks.map_values(|t: Task| t@)
}

impl View for Manifest {
    type V = ManifestView;

    open spec fn view(&self) -> ManifestView {
        ManifestView {
            tasks: task_views(self.tasks@),
            package_manager: self.package_manager@,
        }
    }
}

impl View for Error {
    type V = ErrorView;

    open spec fn view(&self) -> ErrorView {
        match self {
            Error::Syntax { at, msg } => ErrorView::Syntax { at: *at as int, msg: msg@ },
            Error::NoTasks => ErrorView::NoTasks,
        }
    }
}

/// How an error reads.
pub open spec fn message(e: ErrorView) -> Seq<char> {
    match e {
        ErrorView::Syntax { at, msg } => msg + " at byte "@ + text::decimal(at as nat),
        ErrorView::NoTasks => "no scripts or tasks declared"@,
    }
}

impl Error {
    /// The message shown to the user.
    pub fn describe(&self) -> (r: String)
        ensures
            r@ == message(self@),
    {
        match self {
            Error::Syntax { at, msg } => {
                let mut out = msg.clone();
                out.append(" at byte ");
                append_decimal(&mut out, *at);
                out
            },
            Error::NoTasks => "no scripts or tasks declared".to_owned(),
        }
    }
}

/// What `parse` returns, as far as it can be observed.
pub open spec fn outcome(r: Result<Manifest, Error>) -> Result<ManifestView, ErrorView> {
    match r {
        Ok(m) => Ok(m@),
        Err(e) => Err(e@),
    }
}

/// Reads `src`, collecting the tasks under `task_key` ("scripts" or "tasks")
/// plus the `packageManager` field.
pub fn parse(src: &str, task_key: &str) -> (r: Result<Manifest, Error>)
    ensures
        outcome(r) == grammar::document(src@, task_key@),
{
    let bytes = src.as_bytes();
    proof {
        encode_utf8_valid_utf8(src@);
    }
    let mut s = Scanner::new(bytes);
    let mut out = Manifest { tasks: Vec::new(), package_manager: String::new() };

    s.skip_trivia();
    s.expect(OPEN_BRACE)?;

    let ghost b = s.b@;
    let ghost want = grammar::top_members(b, s.i as int, task_key@, grammar::empty_manifest());
    assert(out@.tasks =~= Seq::<TaskView>::empty());
    loop
        invariant_except_break
            s.wf(),
            grammar::top_members(b, s.i as int, task_key@, out@) == want,
        invariant
            s.b@ == b,
            b == encode_utf8(src@),
            grammar::top_level(b, task_key@) == want,
        ensures
            want == Ok::<_, Fault>((out@, s.i as int)),
        decreases b.len() - s.i,
    {
        let ghost here = s.i as int;
        let ghost before = out@;
        proof {
            grammar::lemma_trivia_end(b, here);
            grammar::lemma_key_at(b, grammar::trivia_end(b, here));
        }
        s.skip_trivia();
        if s.eat(CLOSE_BRACE) {
            break;
        }
        let key = s.parse_key()?;
        let ghost value = s.i as int;
        proof {
            grammar::lemma_top_member(b, value, key@, task_key@, before);
        }

        if same_text(key.as_str(), task_key) {
            out.tasks = s.parse_tasks()?;
        } else if same_text(key.as_str(), "packageManager") {
            // A non-string here is odd but survivable: lockfile detection is
            // still available, so skip it rather than failing the whole parse.
            if s.peek() == Some(QUOTE) {
                out.package_manager = s.parse_string()?;
            } else {
                s.skip_value()?;
            }
        } else {
            s.skip_value()?;
        }
        proof {
            let (now, k) = grammar::top_member(b, value, key@, task_key@, before)->Ok_0;
            grammar::lemma_separator(b, k, CLOSE_BRACE);
        }

        if !s.parse_separator(CLOSE_BRACE)? {
            break;
        }
    }

    if out.tasks.is_empty() {
        return Err(Error::NoTasks);
    }
    Ok(out)
}

/// Whether `r` is the failure `f`.
spec fn failed<T>(r: Result<T, Error>, f: Fault) -> bool {
    r matches Err(e) && e@ == (ErrorView::Syntax { at: f.at, msg: f.msg })
}

struct Scanner<'a> {
    b: &'a [u8],
    i: usize,
}

impl<'a> Scanner<'a> {
    /// The bytes are UTF-8 and the scanner has not run past them.
    spec fn wf(&self) -> bool {
        &&& self.i <= self.b@.len() <= usize::MAX
        &&& valid_utf8(self.b@)
    }

    fn new(b: &'a [u8]) -> (s: Self)
        requires
            valid_utf8(b@),
        ensures
            s.wf(),
            s.b@ == b@,
            s.i == 0,
    {
        assert(b@.len() == b.len());
        Scanner { b, i: 0 }
    }

    fn peek(&self) -> (r: Option<u8>)
        ensures
            r == grammar::byte_at(self.b@, self.i as int),
    {
        if self.i < self.b.len() {
            Some(self.b[self.i])
        } else {
            None
        }
    }

    /// The byte after the one under the scanner.
    fn peek_next(&self) -> (r: Option<u8>)
        requires
            self.i < self.b@.len(),
        ensures
            r == grammar::byte_at(self.b@, self.i + 1),
    {
        if self.b.len() - self.i > 1 {
            Some(self.b[self.i + 1])
        } else {
            None
        }
    }

    fn eat(&mut self, want: u8) -> (r: bool)
        requires
            old(self).wf(),
        ensures
            final(self).wf(),
            final(self).b == old(self).b,
            r == (grammar::byte_at(old(self).b@, old(self).i as int) == Some(want)),
            final(self).i == old(self).i + (if r {
                1int
            } else {
                0
            }),
    {
        if self.peek() == Some(want) {
            self.i = self.i + 1;
            return true;
        }
        false
    }

    fn expect(&mut self, want: u8) -> (r: Result<(), Error>)
        requires
            old(self).wf(),
        ensures
            final(self).wf(),
            final(self).b == old(self).b,
            grammar::byte_at(old(self).b@, old(self).i as int) == Some(want) ==> r is Ok && final(self).i
                == old(self).i + 1,
            grammar::byte_at(old(self).b@, old(self).i as int) != Some(want) ==> final(self).i
                == old(self).i && failed(
                r,
                Fault { at: old(self).i as int, msg: grammar::expected(want) },
            ),
    {
        if self.eat(want) {
            return Ok(());
        }
        let mut msg = "expected ".to_owned();
        msg.append(debug_char(want as char).as_str());
        Err(self.err(msg))
    }

    fn err(&self, msg: String) -> (e: Error)
        ensures
            e@ == (ErrorView::Syntax { at: self.i as int, msg: msg@ }),
    {
        Error::Syntax { at: self.i, msg }
    }

    /// Skips whitespace and comments. JSON proper has no comments, but Deno
    /// accepts them, so they are treated as whitespace here.
    fn skip_trivia(&mut self)
        requires
            old(self).wf(),
        ensures
            final(self).wf(),
            final(self).b == old(self).b,
            final(self).i == grammar::trivia_end(old(self).b@, old(self).i as int),
    {
        loop
            invariant
                self.wf(),
                self.b == old(self).b,
                grammar::trivia_end(self.b@, self.i as int) == grammar::trivia_end(old(self).b@, old(self).i as int),
            decreases self.b@.len() - self.i,
        {
            let c = match self.peek() {
                Some(c) => c,
                None => {
                    return;
                },
            };
            if c == SPACE || c == TAB || c == CARRIAGE_RETURN || c == LINE_FEED {
                self.i = self.i + 1;
            } else if c == SLASH {
                match self.peek_next() {
                    Some(SLASH) => {
                        self.i = self.i + 2;
                        let ghost text = self.i as int;
                        loop
                            invariant
                                self.wf(),
                                self.b == old(self).b,
                                text <= self.i,
                                grammar::line_end(self.b@, text) == grammar::line_end(self.b@, self.i as int),
                            ensures
                                self.i == grammar::line_end(self.b@, text),
                            decreases self.b@.len() - self.i,
                        {
                            match self.peek() {
                                Some(c) => {
                                    if c == LINE_FEED {
                                        break;
                                    }
                                    self.i = self.i + 1;
                                },
                                None => {
                                    break;
                                },
                            }
                        }
                    },
                    Some(STAR) => {
                        self.i = self.i + 2;
                        let ghost text = self.i as int;
                        loop
                            invariant_except_break
                                grammar::block_end(self.b@, text) == grammar::block_end(self.b@, self.i as int),
                            invariant
                                self.wf(),
                                self.b == old(self).b,
                                text <= self.i,
                            ensures
                                self.i == grammar::block_end(self.b@, text),
                            decreases self.b@.len() - self.i,
                        {
                            match self.peek() {
                                Some(c) => {
                                    if c == STAR && self.peek_next() == Some(SLASH) {
                                        self.i = self.i + 2;
                                        break;
                                    }
                                    self.i = self.i + 1;
                                },
                                None => {
                                    break;
                                },
                            }
                        }
                    },
                    _ => {
                        return;
                    },
                }
            } else {
                return;
            }
        }
    }

    /// Parses a JSON string, resolving escapes.
    fn parse_string(&mut self) -> (r: Result<String, Error>)
        requires
            old(self).wf(),
        ensures
            final(self).b == old(self).b,
            match grammar::string_at(old(self).b@, old(self).i as int) {
                Ok((s, j)) => r is Ok && r->Ok_0@ == s && final(self).i == j && final(self).wf(),
                Err(f) => failed(r, f) && final(self).i == f.at,
            },
    {
        self.expect(QUOTE)?;
        let mut out = String::new();
        let ghost start = self.i as int;
        proof {
            grammar::lemma_rest_at_ascii(self.b@, start - 1);
            grammar::lemma_rest_step(self.b@, start - 1);
        }
        assert(forall|cs: Seq<char>| Seq::<char>::empty() + cs =~= cs);

        loop
            invariant
                self.wf(),
                self.b == old(self).b,
                start == old(self).i + 1,
                grammar::byte_at(self.b@, old(self).i as int) == Some(QUOTE),
                valid_utf8(grammar::rest(self.b@, self.i as int)),
                match grammar::string_body(self.b@, self.i as int) {
                    Ok((cs, k)) => grammar::string_body(self.b@, start) == Ok::<_, Fault>(
                        (out@ + cs, k),
                    ),
                    Err(f) => grammar::string_body(self.b@, start) == Err::<(Seq<char>, int), _>(
                        f,
                    ),
                },
            decreases self.b@.len() - self.i,
        {
            let c = match self.peek() {
                Some(c) => c,
                None => {
                    return Err(self.err("unterminated string".to_owned()));
                },
            };
            proof {
                grammar::lemma_rest_step(self.b@, self.i as int);
            }
            let ghost here = self.i as int;
            let ghost before = out@;
            self.i = self.i + 1;

            match c {
                QUOTE => {
                    assert(out@ + Seq::<char>::empty() =~= out@);
                    return Ok(out);
                },
                BACKSLASH => {
                    let ch = self.parse_escape()?;
                    out.push(ch);
                },
                // Multi-byte UTF-8 is copied through a character at a time.
                _ => {
                    let start: usize = self.i - 1;
                    let len: usize = utf8_len(c);
                    self.i = start + len;
                    match std::str::from_utf8(&self.b[start..self.i]) {
                        Ok(s) => {
                            proof {
                                encode_utf8_decode_utf8(s@);
                            }
                            out.append(s);
                        },
                        Err(_) => {
                            return Err(self.err("invalid UTF-8 in string".to_owned()));
                        },
                    }
                },
            }
            proof {
                let (ch, next) = grammar::string_char(self.b@, here)->Ok_0;
                grammar::lemma_escape(self.b@, here + 1);
                assert(out@ =~= before.push(ch));
                if let Ok((cs, k)) = grammar::string_body(self.b@, next) {
                    assert(before + (seq![ch] + cs) =~= before.push(ch) + cs);
                }
            }
        }
    }

    /// Resolves what follows a backslash.
    fn parse_escape(&mut self) -> (r: Result<char, Error>)
        requires
            old(self).wf(),
            valid_utf8(grammar::rest(old(self).b@, old(self).i as int)),
        ensures
            final(self).b == old(self).b,
            match grammar::escape(old(self).b@, old(self).i as int) {
                Ok((c, j)) => r == Ok::<_, Error>(c) && final(self).i == j && final(self).wf()
                    && valid_utf8(grammar::rest(final(self).b@, j)),
                Err(f) => failed(r, f) && final(self).i == f.at,
            },
    {
        let esc = match self.peek() {
            Some(c) => c,
            None => {
                return Err(self.err("unterminated escape".to_owned()));
            },
        };
        proof {
            grammar::lemma_rest_step(self.b@, self.i as int);
        }
        self.i = self.i + 1;
        match esc {
            QUOTE => Ok('"'),
            BACKSLASH => Ok('\\'),
            SLASH => Ok('/'),
            0x62 => Ok('\u{8}'),
            0x66 => Ok('\u{c}'),
            0x6e => Ok('\n'),
            0x72 => Ok('\r'),
            0x74 => Ok('\t'),
            LOWER_U => self.parse_unicode_escape(),
            other => {
                let mut msg = "bad escape ".to_owned();
                msg.append(debug_char(other as char).as_str());
                Err(self.err(msg))
            },
        }
    }

    /// Handles \uXXXX, including surrogate pairs for characters outside the BMP.
    fn parse_unicode_escape(&mut self) -> (r: Result<char, Error>)
        requires
            old(self).wf(),
            valid_utf8(grammar::rest(old(self).b@, old(self).i as int)),
        ensures
            final(self).b == old(self).b,
            match grammar::unicode_escape(old(self).b@, old(self).i as int) {
                Ok((c, j)) => r == Ok::<_, Error>(c) && final(self).i == j && final(self).wf()
                    && valid_utf8(grammar::rest(final(self).b@, j)),
                Err(f) => failed(r, f) && final(self).i == f.at,
            },
    {
        let first = self.parse_hex4()?;

        // A high surrogate is only half a character; the low half follows.
        if 0xD800 <= first && first < 0xDC00 {
            if self.peek() == Some(BACKSLASH) && self.peek_next() == Some(LOWER_U) {
                proof {
                    grammar::lemma_rest_step(self.b@, self.i as int);
                    grammar::lemma_rest_step(self.b@, self.i + 1);
                }
                self.i = self.i + 2;
                let second = self.parse_hex4()?;
                if 0xDC00 <= second && second < 0xE000 {
                    let high: u32 = first - 0xD800;
                    assert(high << 10 == high * 0x400) by (bit_vector)
                        requires
                            high < 0x400,
                    ;
                    let combined: u32 = 0x10000 + (high << 10) + (second - 0xDC00);
                    return match char::from_u32(combined) {
                        Some(c) => Ok(c),
                        None => Err(self.err("invalid surrogate pair".to_owned())),
                    };
                }
            }
            return Err(self.err("unpaired high surrogate".to_owned()));
        }
        match char::from_u32(first) {
            Some(c) => Ok(c),
            None => Err(self.err("invalid code point".to_owned())),
        }
    }

    fn parse_hex4(&mut self) -> (r: Result<u32, Error>)
        requires
            old(self).wf(),
            valid_utf8(grammar::rest(old(self).b@, old(self).i as int)),
        ensures
            final(self).b == old(self).b,
            match grammar::hex_digits(old(self).b@, old(self).i as int, 4, 0) {
                Ok((v, j)) => r is Ok && r->Ok_0 as int == v && v < 0x10000 && final(self).i == j
                    && final(self).wf() && valid_utf8(grammar::rest(final(self).b@, j)),
                Err(f) => failed(r, f) && final(self).i == f.at,
            },
    {
        let mut n: u32 = 0;
        let mut k: u32 = 0;
        while k < 4
            invariant
                k <= 4,
                self.wf(),
                self.b == old(self).b,
                valid_utf8(grammar::rest(self.b@, self.i as int)),
                grammar::hex_digits(self.b@, self.i as int, (4 - k) as nat, n as int)
                    == grammar::hex_digits(old(self).b@, old(self).i as int, 4, 0),
                k == 0 ==> n == 0,
                k == 1 ==> n < 0x10,
                k == 2 ==> n < 0x100,
                k == 3 ==> n < 0x1000,
                k == 4 ==> n < 0x10000,
            decreases 4 - k,
        {
            let c = match self.peek() {
                Some(c) => c,
                None => {
                    return Err(self.err("short \\u escape".to_owned()));
                },
            };
            let d: u32 = match c {
                0x30..=0x39 => (c - 0x30) as u32,
                0x61..=0x66 => (c - 0x61) as u32 + 10,
                0x41..=0x46 => (c - 0x41) as u32 + 10,
                _ => {
                    return Err(self.err("bad hex digit".to_owned()));
                },
            };
            proof {
                grammar::lemma_rest_step(self.b@, self.i as int);
            }
            n = n * 16 + d;
            self.i = self.i + 1;
            k = k + 1;
        }
        Ok(n)
    }

    /// Consumes any value without interpreting it.
    fn skip_value(&mut self) -> (r: Result<(), Error>)
        requires
            old(self).wf(),
        ensures
            final(self).b == old(self).b,
            match grammar::value_end(old(self).b@, old(self).i as int) {
                Ok(j) => r is Ok && final(self).i == j && final(self).wf(),
                Err(f) => failed(r, f) && final(self).i == f.at,
            },
    {
        self.skip_trivia();
        match self.peek() {
            Some(QUOTE) => {
                self.parse_string()?;
                Ok(())
            },
            Some(OPEN_BRACE) | Some(OPEN_BRACKET) => self.skip_container(),
            None => Err(self.err("unexpected end of input".to_owned())),
            // Numbers, true, false, null: run to the next structural byte.
            _ => {
                let start: usize = self.i;
                loop
                    invariant
                        self.wf(),
                        self.b == old(self).b,
                        start <= self.i,
                        grammar::scalar_end(self.b@, start as int) == grammar::scalar_end(
                            self.b@,
                            self.i as int,
                        ),
                    ensures
                        self.i == grammar::scalar_end(self.b@, start as int),
                    decreases self.b@.len() - self.i,
                {
                    match self.peek() {
                        Some(c) => {
                            match c {
                                COMMA | CLOSE_BRACE | CLOSE_BRACKET | SPACE | TAB | CARRIAGE_RETURN
                                | LINE_FEED | SLASH => {
                                    break;
                                },
                                _ => {},
                            }
                            self.i = self.i + 1;
                        },
                        None => {
                            break;
                        },
                    }
                }
                proof {
                    grammar::lemma_scalar_end(self.b@, start + 1);
                }
                if self.i == start {
                    // Consuming nothing means there was no value here at all,
                    // e.g. `{"a":}`. Left unchecked this would silently look
                    // like an absent key rather than malformed input.
                    return Err(self.err("expected a value".to_owned()));
                }
                Ok(())
            },
        }
    }

    /// Skips a balanced object or array, ignoring structural bytes that appear
    /// inside strings or comments.
    fn skip_container(&mut self) -> (r: Result<(), Error>)
        requires
            old(self).wf(),
            old(self).i < old(self).b@.len(),
            grammar::opens(old(self).b@[old(self).i as int]),
        ensures
            final(self).b == old(self).b,
            match grammar::container_end(old(self).b@, old(self).i as int, 0) {
                Ok(j) => r is Ok && final(self).i == j && final(self).wf(),
                Err(f) => failed(r, f) && final(self).i == f.at,
            },
    {
        let mut depth: usize = 0;
        loop
            invariant
                self.wf(),
                self.b == old(self).b,
                old(self).i < self.b@.len(),
                grammar::opens(self.b@[old(self).i as int]),
                depth == 0 ==> self.i == old(self).i,
                depth <= self.i,
                grammar::container_end(self.b@, self.i as int, depth as int)
                    == grammar::container_end(old(self).b@, old(self).i as int, 0),
            decreases self.b@.len() - self.i,
        {
            let ghost here = self.i as int;
            self.skip_trivia();
            proof {
                grammar::lemma_trivia_end(self.b@, here);
            }
            let c = match self.peek() {
                Some(c) => c,
                None => {
                    return Err(self.err("unterminated object or array".to_owned()));
                },
            };

            match c {
                OPEN_BRACE | OPEN_BRACKET => {
                    depth = depth + 1;
                    self.i = self.i + 1;
                },
                CLOSE_BRACE | CLOSE_BRACKET => {
                    depth = depth - 1;
                    self.i = self.i + 1;
                    if depth == 0 {
                        return Ok(());
                    }
                },
                QUOTE => {
                    proof {
                        grammar::lemma_string_body(self.b@, self.i + 1);
                    }
                    self.parse_string()?;
                },
                _ => {
                    self.i = self.i + 1;
                },
            }
        }
    }

    /// Parses a key and its colon, and moves on to the value.
    fn parse_key(&mut self) -> (r: Result<String, Error>)
        requires
            old(self).wf(),
        ensures
            final(self).b == old(self).b,
            match grammar::key_at(old(self).b@, old(self).i as int) {
                Ok((s, j)) => r is Ok && r->Ok_0@ == s && final(self).i == j && final(self).wf(),
                Err(f) => failed(r, f) && final(self).i == f.at,
            },
    {
        let key = self.parse_string()?;
        self.skip_trivia();
        self.expect(COLON)?;
        self.skip_trivia();
        Ok(key)
    }

    /// Parses what follows a member: a comma, or `close`. Reports whether
    /// another member may come.
    fn parse_separator(&mut self, close: u8) -> (r: Result<bool, Error>)
        requires
            old(self).wf(),
            close != COMMA,
        ensures
            final(self).b == old(self).b,
            match grammar::separator(old(self).b@, old(self).i as int, close) {
                Ok((more, j)) => r == Ok::<_, Error>(more) && final(self).i == j
                    && final(self).wf(),
                Err(f) => failed(r, f) && final(self).i == f.at,
            },
    {
        self.skip_trivia();
        if self.eat(COMMA) {
            return Ok(true);
        }
        self.expect(close)?;
        Ok(false)
    }

    /// Parses the task object: `{ "name": "command" | { ... }, ... }`.
    fn parse_tasks(&mut self) -> (r: Result<Vec<Task>, Error>)
        requires
            old(self).wf(),
        ensures
            final(self).b == old(self).b,
            match grammar::tasks_at(old(self).b@, old(self).i as int) {
                Ok((tasks, j)) => r is Ok && task_views(r->Ok_0@) == tasks && final(self).i == j
                    && final(self).wf(),
                Err(f) => failed(r, f) && final(self).i == f.at,
            },
    {
        self.skip_trivia();
        self.expect(OPEN_BRACE)?;

        let mut tasks: Vec<Task> = Vec::new();
        let ghost want = grammar::entries(self.b@, self.i as int, Seq::empty());
        assert(task_views(tasks@) =~= Seq::<TaskView>::empty());
        loop
            invariant
                self.wf(),
                self.b == old(self).b,
                grammar::tasks_at(old(self).b@, old(self).i as int) == want,
                grammar::entries(self.b@, self.i as int, task_views(tasks@)) == want,
            decreases self.b@.len() - self.i,
        {
            let ghost here = self.i as int;
            let ghost before = task_views(tasks@);
            proof {
                grammar::lemma_trivia_end(self.b@, here);
                grammar::lemma_key_at(self.b@, grammar::trivia_end(self.b@, here));
            }
            self.skip_trivia();
            if self.eat(CLOSE_BRACE) {
                return Ok(tasks);
            }
            let name = self.parse_key()?;
            let ghost value = self.i as int;
            let ghost name_text = name@;
            proof {
                grammar::lemma_task_at(self.b@, value, name_text);
            }

            match self.peek() {
                Some(QUOTE) => {
                    let command = self.parse_string()?;
                    tasks.push(Task { name, command, description: String::new() });
                },
                Some(OPEN_BRACE) => {
                    let task = self.parse_task_object(name)?;
                    tasks.push(task);
                },
                // Anything else is not runnable; ignore it rather than failing.
                _ => {
                    self.skip_value()?;
                },
            }
            proof {
                let (t, k) = grammar::task_at(self.b@, value, name_text)->Ok_0;
                assert(task_views(tasks@) =~= grammar::with_task(before, t));
                grammar::lemma_separator(self.b@, k, CLOSE_BRACE);
            }

            if !self.parse_separator(CLOSE_BRACE)? {
                return Ok(tasks);
            }
        }
    }

    /// Deno's object form: a command, an optional description, and optional
    /// task dependencies.
    fn parse_task_object(&mut self, name: String) -> (r: Result<Task, Error>)
        requires
            old(self).wf(),
            grammar::byte_at(old(self).b@, old(self).i as int) == Some(OPEN_BRACE),
        ensures
            final(self).b == old(self).b,
            match grammar::task_fields(old(self).b@, old(self).i + 1, grammar::empty_draft()) {
                Ok((d, j)) => r is Ok && r->Ok_0@ == grammar::drafted(name@, d) && final(self).i
                    == j && final(self).wf(),
                Err(f) => failed(r, f) && final(self).i == f.at,
            },
    {
        self.expect(OPEN_BRACE)?;

        let mut command = String::new();
        let mut description = String::new();
        let mut dependencies: Vec<String> = Vec::new();
        let ghost want = grammar::task_fields(self.b@, self.i as int, grammar::empty_draft());
        assert(text::texts(dependencies@) =~= Seq::<Seq<char>>::empty());

        loop
            invariant_except_break
                self.wf(),
                grammar::task_fields(
                    self.b@,
                    self.i as int,
                    Draft {
                        command: command@,
                        description: description@,
                        dependencies: text::texts(dependencies@),
                    },
                ) == want,
            invariant
                self.b == old(self).b,
                grammar::task_fields(old(self).b@, old(self).i + 1, grammar::empty_draft()) == want,
            ensures
                self.wf(),
                want == Ok::<_, Fault>(
                    (
                        Draft {
                            command: command@,
                            description: description@,
                            dependencies: text::texts(dependencies@),
                        },
                        self.i as int,
                    ),
                ),
            decreases self.b@.len() - self.i,
        {
            let ghost here = self.i as int;
            let ghost before = Draft {
                command: command@,
                description: description@,
                dependencies: text::texts(dependencies@),
            };
            proof {
                grammar::lemma_trivia_end(self.b@, here);
                grammar::lemma_key_at(self.b@, grammar::trivia_end(self.b@, here));
            }
            self.skip_trivia();
            if self.eat(CLOSE_BRACE) {
                break;
            }
            let key = self.parse_key()?;
            let ghost value = self.i as int;
            proof {
                grammar::lemma_task_field(self.b@, value, key@, before);
            }

            if same_text(key.as_str(), "command") && self.peek() == Some(QUOTE) {
                command = self.parse_string()?;
            } else if same_text(key.as_str(), "description") && self.peek() == Some(QUOTE) {
                description = self.parse_string()?;
            } else if same_text(key.as_str(), "dependencies") && self.peek() == Some(
                OPEN_BRACKET,
            ) {
                self.i = self.i + 1;
                self.parse_items(&mut dependencies)?;
            } else {
                self.skip_value()?;
            }
            proof {
                let (d, k) = grammar::task_field(self.b@, value, key@, before)->Ok_0;
                grammar::lemma_separator(self.b@, k, CLOSE_BRACE);
            }

            if !self.parse_separator(CLOSE_BRACE)? {
                break;
            }
        }

        // A dependencies-only task is still runnable, so give it a readable row.
        if command.as_str().is_empty() && !dependencies.is_empty() {
            command = "depends on: ".to_owned();
            command.append(join(&dependencies, ", ").as_str());
        }
        Ok(Task { name, command, description })
    }

    /// Parses the rest of an array, adding the strings in it to `found`.
    fn parse_items(&mut self, found: &mut Vec<String>) -> (r: Result<(), Error>)
        requires
            old(self).wf(),
        ensures
            final(self).b == old(self).b,
            match grammar::items(
                old(self).b@,
                old(self).i as int,
                text::texts(old(found)@),
            ) {
                Ok((s, j)) => r is Ok && text::texts(final(found)@) == s && final(self).i == j
                    && final(self).wf(),
                Err(f) => failed(r, f) && final(self).i == f.at,
            },
    {
        let ghost want = grammar::items(self.b@, self.i as int, text::texts(found@));
        loop
            invariant
                self.wf(),
                self.b == old(self).b,
                grammar::items(old(self).b@, old(self).i as int, text::texts(old(found)@)) == want,
                grammar::items(self.b@, self.i as int, text::texts(found@)) == want,
            decreases self.b@.len() - self.i,
        {
            let ghost here = self.i as int;
            let ghost before = text::texts(found@);
            self.skip_trivia();
            let ghost item = self.i as int;
            proof {
                grammar::lemma_trivia_end(self.b@, here);
                grammar::lemma_string_or_skip(self.b@, item);
            }
            if self.eat(CLOSE_BRACKET) {
                return Ok(());
            }
            if self.peek() == Some(QUOTE) {
                let s = self.parse_string()?;
                found.push(s);
                assert(text::texts(found@) =~= before.push(s@));
            } else {
                self.skip_value()?;
            }
            proof {
                let (s, k) = grammar::string_or_skip(self.b@, item)->Ok_0;
                grammar::lemma_separator(self.b@, k, CLOSE_BRACKET);
            }
            if !self.parse_separator(CLOSE_BRACKET)? {
                return Ok(());
            }
        }
    }
}

/// Length in bytes of a UTF-8 sequence from its leading byte.
fn utf8_len(lead: u8) -> (r: usize)
    ensures
        r == (if is_leading_byte_width_1(lead) {
            1
        } else if is_leading_byte_width_2(lead) {
            2
        } else if is_leading_byte_width_3(lead) {
            3
        } else {
            4int
        }),
{
    match lead {
        0x00..=0x7F => 1,
        0xC0..=0xDF => 2,
        0xE0..=0xEF => 3,
        _ => 4,
    }
}

} // verus!
