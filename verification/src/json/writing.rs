//! How manifests are written, and that what is written reads back.
//!
//! The types here describe a manifest as its author writes it: with comments
//! and whitespace wherever they may stand, each character of a string spelled
//! in any of the ways there are, and a comma after the last member or not.
//! Each has its bytes and its meaning.

use vstd::prelude::*;
use vstd::utf8::*;

use crate::json::grammar;
use crate::json::grammar::{
    Draft, ErrorView, ManifestView, TaskView, BACKSLASH, CLOSE_BRACE, CLOSE_BRACKET, COLON, COMMA,
    LINE_FEED, LOWER_U, OPEN_BRACE, OPEN_BRACKET, QUOTE, SLASH, STAR,
};
use crate::text;

verus! {

/// Whether `p` stands at `i`.
pub open spec fn stands(b: Seq<u8>, i: int, p: Seq<u8>) -> bool {
    &&& 0 <= i
    &&& i + p.len() <= b.len()
    &&& b.subrange(i, i + p.len()) == p
}

/// What stands somewhere stands there part by part.
pub proof fn lemma_stands_parts(b: Seq<u8>, i: int, p: Seq<u8>, q: Seq<u8>)
    requires
        stands(b, i, p + q),
    ensures
        stands(b, i, p),
        stands(b, i + p.len(), q),
{
    let both = b.subrange(i, i + p.len() + q.len());
    assert(b.subrange(i, i + p.len()) =~= both.subrange(0, p.len() as int));
    assert(both.subrange(0, p.len() as int) =~= p);
    assert(b.subrange(i + p.len(), i + p.len() + q.len()) =~= both.subrange(
        p.len() as int,
        (p.len() + q.len()) as int,
    ));
    assert(both.subrange(p.len() as int, (p.len() + q.len()) as int) =~= q);
}

/// The first byte of what stands somewhere.
pub proof fn lemma_stands_first(b: Seq<u8>, i: int, p: Seq<u8>)
    requires
        stands(b, i, p),
        p.len() > 0,
    ensures
        0 <= i < b.len(),
        b[i] == p[0],
        grammar::byte_at(b, i) == Some(p[0]),
        stands(b, i + 1, p.drop_first()),
{
    assert(b.subrange(i, i + p.len())[0] == p[0]);
    assert(p =~= seq![p[0]] + p.drop_first());
    lemma_stands_parts(b, i, seq![p[0]], p.drop_first());
}

// ---------------------------------------------------------------------------
// Whitespace and comments
// ---------------------------------------------------------------------------
/// A piece of whitespace or a comment.
pub enum Gap {
    Space(u8),
    /// `//` and the rest of the line.
    Line(Seq<u8>),
    /// What stands between `/*` and `*/`.
    Block(Seq<u8>),
}

/// Whether there is a `*/` in a text.
pub open spec fn holds_close(text: Seq<u8>) -> bool {
    exists|k: int| 0 <= k < text.len() - 1 && #[trigger] text[k] == STAR && text[k + 1] == SLASH
}

impl Gap {
    pub open spec fn ok(self) -> bool {
        match self {
            Gap::Space(c) => c == 0x20 || c == 0x09 || c == 0x0d || c == 0x0a,
            Gap::Line(text) => !text.contains(LINE_FEED),
            Gap::Block(text) => !holds_close(text),
        }
    }

    pub open spec fn bytes(self) -> Seq<u8> {
        match self {
            Gap::Space(c) => seq![c],
            Gap::Line(text) => seq![SLASH, SLASH] + text + seq![LINE_FEED],
            Gap::Block(text) => seq![SLASH, STAR] + text + seq![STAR, SLASH],
        }
    }
}

pub open spec fn gaps_ok(gaps: Seq<Gap>) -> bool {
    forall|k: int| 0 <= k < gaps.len() ==> (#[trigger] gaps[k]).ok()
}

pub open spec fn gaps_bytes(gaps: Seq<Gap>) -> Seq<u8>
    decreases gaps.len(),
{
    if gaps.len() == 0 {
        Seq::empty()
    } else {
        gaps[0].bytes() + gaps_bytes(gaps.drop_first())
    }
}

proof fn lemma_line_end(b: Seq<u8>, i: int, text: Seq<u8>)
    requires
        stands(b, i, text + seq![LINE_FEED]),
        !text.contains(LINE_FEED),
    ensures
        grammar::line_end(b, i) == i + text.len(),
    decreases text.len(),
{
    let all = text + seq![LINE_FEED];
    lemma_stands_first(b, i, all);
    if text.len() > 0 {
        assert(text.contains(text[0]));
        assert(all.drop_first() =~= text.drop_first() + seq![LINE_FEED]);
        assert forall|k: int| 0 <= k < text.drop_first().len() implies text.drop_first()[k]
            != LINE_FEED by {
            assert(text.contains(text[k + 1]));
        }
        lemma_line_end(b, i + 1, text.drop_first());
    }
}

proof fn lemma_block_end(b: Seq<u8>, i: int, text: Seq<u8>)
    requires
        stands(b, i, text + seq![STAR, SLASH]),
        !holds_close(text),
    ensures
        grammar::block_end(b, i) == i + text.len() + 2,
    decreases text.len(),
{
    let all = text + seq![STAR, SLASH];
    lemma_stands_first(b, i, all);
    lemma_stands_first(b, i + 1, all.drop_first());
    if text.len() > 0 {
        let next = text.drop_first();
        assert(all.drop_first() =~= next + seq![STAR, SLASH]);
        assert(!holds_close(next)) by {
            if holds_close(next) {
                let k = choose|k: int|
                    0 <= k < next.len() - 1 && #[trigger] next[k] == STAR && next[k + 1] == SLASH;
                assert(text[k + 1] == STAR && text[k + 2] == SLASH);
            }
        }
        assert(text[0] == STAR && text.len() > 1 ==> text[0int + 1] != SLASH);
        lemma_block_end(b, i + 1, next);
    }
}

/// Whitespace and comments are passed over.
proof fn lemma_gaps(b: Seq<u8>, i: int, gaps: Seq<Gap>)
    requires
        stands(b, i, gaps_bytes(gaps)),
        gaps_ok(gaps),
    ensures
        grammar::trivia_end(b, i) == grammar::trivia_end(b, i + gaps_bytes(gaps).len()),
    decreases gaps.len(),
{
    if gaps.len() > 0 {
        let first = gaps[0].bytes();
        let others = gaps.drop_first();
        lemma_stands_parts(b, i, first, gaps_bytes(others));
        assert(gaps_ok(others)) by {
            assert forall|k: int| 0 <= k < others.len() implies (#[trigger] others[k]).ok() by {
                assert(others[k] == gaps[k + 1]);
            }
        }
        lemma_gaps(b, i + first.len(), others);
        lemma_stands_first(b, i, first);
        match gaps[0] {
            Gap::Space(c) => {},
            Gap::Line(text) => {
                let open = seq![SLASH, SLASH];
                let after = text + seq![LINE_FEED];
                assert(first =~= open + after);
                lemma_stands_first(b, i + 1, first.drop_first());
                lemma_stands_parts(b, i, open, after);
                lemma_line_end(b, i + 2, text);
                lemma_stands_parts(b, i + 2, text, seq![LINE_FEED]);
                lemma_stands_first(b, i + 2 + text.len(), seq![LINE_FEED]);
                assert(grammar::trivia_end(b, i + 2 + text.len()) == grammar::trivia_end(
                    b,
                    i + first.len(),
                ));
            },
            Gap::Block(text) => {
                let open = seq![SLASH, STAR];
                let after = text + seq![STAR, SLASH];
                assert(first =~= open + after);
                lemma_stands_first(b, i + 1, first.drop_first());
                lemma_stands_parts(b, i, open, after);
                lemma_block_end(b, i + 2, text);
            },
        }
    }
}

/// Whether a byte starts neither whitespace nor a comment.
pub open spec fn solid(c: u8) -> bool {
    !grammar::is_space(c) && c != SLASH
}

/// Whitespace and comments end at the first other byte.
proof fn lemma_gaps_then(b: Seq<u8>, i: int, gaps: Seq<Gap>, p: Seq<u8>)
    requires
        stands(b, i, gaps_bytes(gaps) + p),
        gaps_ok(gaps),
        p.len() > 0,
        solid(p[0]),
    ensures
        grammar::trivia_end(b, i) == i + gaps_bytes(gaps).len(),
        stands(b, i + gaps_bytes(gaps).len(), p),
        grammar::byte_at(b, i + gaps_bytes(gaps).len()) == Some(p[0]),
{
    lemma_stands_parts(b, i, gaps_bytes(gaps), p);
    lemma_gaps(b, i, gaps);
    lemma_stands_first(b, i + gaps_bytes(gaps).len(), p);
}

// ---------------------------------------------------------------------------
// Strings
// ---------------------------------------------------------------------------
/// One character of a string, as it is spelled.
pub enum Piece {
    /// The character itself.
    Plain(char),
    /// A backslash and a letter or sign.
    Short(u8),
    /// `\u` and four digits.
    Unit(Seq<u8>),
    /// A surrogate pair of two such escapes.
    Pair(Seq<u8>, Seq<u8>),
}

/// Whether these are four hexadecimal digits.
pub open spec fn four_digits(d: Seq<u8>) -> bool {
    d.len() == 4 && forall|k: int| 0 <= k < 4 ==> grammar::hex_digit(#[trigger] d[k]) is Some
}

/// The number that four hexadecimal digits write.
pub open spec fn digits_value(d: Seq<u8>) -> int {
    let v = |k: int| grammar::hex_digit(d[k])->Some_0;
    v(0) * 0x1000 + v(1) * 0x100 + v(2) * 0x10 + v(3)
}

impl Piece {
    pub open spec fn ok(self) -> bool {
        match self {
            Piece::Plain(c) => c != '"' && c != '\\',
            Piece::Short(e) => grammar::short_escape(e) is Some,
            Piece::Unit(d) => four_digits(d) && !(0xD800 <= digits_value(d) < 0xE000),
            Piece::Pair(h, l) => four_digits(h) && four_digits(l) && 0xD800 <= digits_value(h)
                < 0xDC00 && 0xDC00 <= digits_value(l) < 0xE000,
        }
    }

    pub open spec fn bytes(self) -> Seq<u8> {
        match self {
            Piece::Plain(c) => encode_scalar(c as u32),
            Piece::Short(e) => seq![BACKSLASH, e],
            Piece::Unit(d) => seq![BACKSLASH, LOWER_U] + d,
            Piece::Pair(h, l) => seq![BACKSLASH, LOWER_U] + h + (seq![BACKSLASH, LOWER_U] + l),
        }
    }

    /// The character it stands for.
    pub open spec fn value(self) -> char {
        match self {
            Piece::Plain(c) => c,
            Piece::Short(e) => grammar::short_escape(e)->Some_0,
            Piece::Unit(d) => digits_value(d) as char,
            Piece::Pair(h, l) => (0x10000 + (digits_value(h) - 0xD800) * 0x400 + (digits_value(l)
                - 0xDC00)) as char,
        }
    }
}

pub open spec fn pieces_ok(pieces: Seq<Piece>) -> bool {
    forall|k: int| 0 <= k < pieces.len() ==> (#[trigger] pieces[k]).ok()
}

/// The text that the pieces spell.
pub open spec fn spelled(pieces: Seq<Piece>) -> Seq<char> {
    pieces.map_values(|p: Piece| p.value())
}

pub open spec fn pieces_bytes(pieces: Seq<Piece>) -> Seq<u8>
    decreases pieces.len(),
{
    if pieces.len() == 0 {
        Seq::empty()
    } else {
        pieces[0].bytes() + pieces_bytes(pieces.drop_first())
    }
}

/// A string literal.
pub open spec fn quoted(pieces: Seq<Piece>) -> Seq<u8> {
    seq![QUOTE] + (pieces_bytes(pieces) + seq![QUOTE])
}

proof fn lemma_digits(b: Seq<u8>, i: int, d: Seq<u8>)
    requires
        stands(b, i, d),
        four_digits(d),
    ensures
        grammar::hex_digits(b, i, 4, 0) == Ok::<_, grammar::Fault>((digits_value(d), i + 4)),
{
    assert forall|k: int| 0 <= k < 4 implies #[trigger] d[k] == b[i + k] by {
        assert(b.subrange(i, i + 4)[k] == d[k]);
    }
    assert(grammar::hex_digit(d[0]) is Some);
    assert(grammar::hex_digit(d[1]) is Some);
    assert(grammar::hex_digit(d[2]) is Some);
    assert(grammar::hex_digit(d[3]) is Some);
    reveal_with_fuel(grammar::hex_digits, 5);
}

/// A character that is written as itself is found again.
proof fn lemma_plain(b: Seq<u8>, i: int, c: char)
    requires
        stands(b, i, encode_scalar(c as u32)),
    ensures
        i < b.len(),
        decode_first_scalar(grammar::rest(b, i)) == c as u32,
        length_of_first_scalar(grammar::rest(b, i)) == encode_scalar(c as u32).len(),
        b[i] == encode_scalar(c as u32)[0],
{
    let e = encode_scalar(c as u32);
    let r = grammar::rest(b, i);
    encode_utf8_first_scalar(seq![c]);
    assert(seq![c].drop_first() =~= Seq::<char>::empty());
    reveal_with_fuel(encode_utf8, 2);
    assert(encode_utf8(seq![c]) =~= e);
    assert forall|k: int| 0 <= k < e.len() implies #[trigger] e[k] == r[k] by {
        assert(b.subrange(i, i + e.len())[k] == e[k]);
    }
    assert(e[0] == r[0]);
    assert(b[i] == r[0]);
    assert(e.len() > 1 ==> e[1] == r[1]);
    assert(e.len() > 2 ==> e[2] == r[2]);
    assert(e.len() > 3 ==> e[3] == r[3]);
}

/// The first byte of a character is its code, in ASCII, and no ASCII byte
/// otherwise.
proof fn lemma_first_byte(c: char)
    ensures
        (c as u32) < 0x80 ==> encode_scalar(c as u32)[0] == c as u32,
        (c as u32) >= 0x80 ==> encode_scalar(c as u32)[0] >= 0x80,
{
    let v = c as u32;
    char_is_scalar(c);
    assert(v <= 0x7f ==> (v & 0x7F) as u8 == v) by (bit_vector);
    assert((0xE0u8 | ((v >> 12) & 0x0F) as u8) >= 0x80) by (bit_vector);
    assert((0xF0u8 | ((v >> 18) & 0x7) as u8) >= 0x80) by (bit_vector);
    assert((0xC0u8 | ((v >> 6) & 0x1F) as u8) >= 0x80) by (bit_vector);
}

/// One piece of a string is read for what it stands for.
pub proof fn lemma_piece(b: Seq<u8>, i: int, p: Piece)
    requires
        stands(b, i, p.bytes()),
        p.ok(),
    ensures
        0 <= i < b.len(),
        b[i] != QUOTE,
        p.bytes().len() > 0,
        grammar::string_char(b, i) == Ok::<_, grammar::Fault>((p.value(), i + p.bytes().len())),
{
    match p {
        Piece::Plain(c) => {
            lemma_plain(b, i, c);
            lemma_first_byte(c);
        },
        Piece::Short(e) => {
            lemma_stands_first(b, i, p.bytes());
            lemma_stands_first(b, i + 1, p.bytes().drop_first());
        },
        Piece::Unit(d) => {
            let open = seq![BACKSLASH, LOWER_U];
            lemma_stands_parts(b, i, open, d);
            lemma_stands_first(b, i, open);
            lemma_stands_first(b, i + 1, open.drop_first());
            lemma_digits(b, i + 2, d);
        },
        Piece::Pair(h, l) => {
            let open = seq![BACKSLASH, LOWER_U];
            lemma_stands_parts(b, i, open + h, open + l);
            lemma_stands_parts(b, i, open, h);
            lemma_stands_first(b, i, open);
            lemma_stands_first(b, i + 1, open.drop_first());
            lemma_digits(b, i + 2, h);
            lemma_stands_parts(b, i + 6, open, l);
            lemma_stands_first(b, i + 6, open);
            lemma_stands_first(b, i + 7, open.drop_first());
            lemma_digits(b, i + 8, l);
        },
    }
}

proof fn lemma_pieces(b: Seq<u8>, i: int, pieces: Seq<Piece>)
    requires
        stands(b, i, pieces_bytes(pieces) + seq![QUOTE]),
        pieces_ok(pieces),
    ensures
        grammar::string_body(b, i) == Ok::<_, grammar::Fault>(
            (spelled(pieces), i + pieces_bytes(pieces).len() + 1),
        ),
    decreases pieces.len(),
{
    if pieces.len() == 0 {
        assert(pieces_bytes(pieces) + seq![QUOTE] =~= seq![QUOTE]);
        lemma_stands_first(b, i, seq![QUOTE]);
        assert(spelled(pieces) =~= Seq::<char>::empty());
    } else {
        let first = pieces[0].bytes();
        let others = pieces.drop_first();
        assert(pieces_bytes(pieces) + seq![QUOTE] =~= first + (pieces_bytes(others) + seq![QUOTE]));
        lemma_stands_parts(b, i, first, pieces_bytes(others) + seq![QUOTE]);
        assert(pieces_ok(others)) by {
            assert forall|k: int| 0 <= k < others.len() implies (#[trigger] others[k]).ok() by {
                assert(others[k] == pieces[k + 1]);
            }
        }
        lemma_piece(b, i, pieces[0]);
        lemma_pieces(b, i + first.len(), others);
        assert(spelled(pieces) =~= seq![pieces[0].value()] + spelled(others));
    }
}

/// However its characters are spelled, a string literal reads as the text they
/// spell, and nothing after its closing quote belongs to it.
pub proof fn string_reads_as_spelled(b: Seq<u8>, i: int, pieces: Seq<Piece>)
    requires
        stands(b, i, quoted(pieces)),
        pieces_ok(pieces),
    ensures
        grammar::string_at(b, i) == Ok::<_, grammar::Fault>(
            (spelled(pieces), i + quoted(pieces).len()),
        ),
{
    lemma_stands_first(b, i, quoted(pieces));
    assert(quoted(pieces).drop_first() =~= pieces_bytes(pieces) + seq![QUOTE]);
    lemma_pieces(b, i + 1, pieces);
}

// ---------------------------------------------------------------------------
// Values that are passed over
// ---------------------------------------------------------------------------
/// A part of an object or array that nobody looks into.
pub enum Token {
    Gap(Gap),
    Open(u8),
    Close(u8),
    Text(Seq<Piece>),
    /// A comma, a colon, or a byte of a scalar.
    Other(u8),
}

impl Token {
    pub open spec fn ok(self) -> bool {
        match self {
            Token::Gap(gap) => gap.ok(),
            Token::Open(c) => grammar::opens(c),
            Token::Close(c) => grammar::closes(c),
            Token::Text(pieces) => pieces_ok(pieces),
            Token::Other(c) => solid(c) && !grammar::opens(c) && !grammar::closes(c) && c != QUOTE,
        }
    }

    pub open spec fn bytes(self) -> Seq<u8> {
        match self {
            Token::Gap(gap) => gap.bytes(),
            Token::Open(c) => seq![c],
            Token::Close(c) => seq![c],
            Token::Text(pieces) => quoted(pieces),
            Token::Other(c) => seq![c],
        }
    }
}

pub open spec fn tokens_ok(tokens: Seq<Token>) -> bool {
    forall|k: int| 0 <= k < tokens.len() ==> (#[trigger] tokens[k]).ok()
}

pub open spec fn tokens_bytes(tokens: Seq<Token>) -> Seq<u8>
    decreases tokens.len(),
{
    if tokens.len() == 0 {
        Seq::empty()
    } else {
        tokens[0].bytes() + tokens_bytes(tokens.drop_first())
    }
}

/// Whether everything that is open, `depth` brackets to begin with, is closed
/// at the last of the tokens and not before.
pub open spec fn close_at_last(tokens: Seq<Token>, depth: int) -> bool
    decreases tokens.len(),
{
    if tokens.len() == 0 {
        false
    } else {
        match tokens[0] {
            Token::Open(_) => close_at_last(tokens.drop_first(), depth + 1),
            Token::Close(_) => if depth <= 1 {
                tokens.len() == 1
            } else {
                close_at_last(tokens.drop_first(), depth - 1)
            },
            _ => close_at_last(tokens.drop_first(), depth),
        }
    }
}

/// Brackets in strings and in comments are data.
proof fn lemma_tokens(b: Seq<u8>, i: int, tokens: Seq<Token>, depth: int)
    requires
        stands(b, i, tokens_bytes(tokens)),
        tokens_ok(tokens),
        close_at_last(tokens, depth),
    ensures
        grammar::container_end(b, i, depth) == Ok::<_, grammar::Fault>(
            i + tokens_bytes(tokens).len(),
        ),
    decreases tokens.len(),
{
    let first = tokens[0].bytes();
    let others = tokens.drop_first();
    assert(tokens[0].ok());
    lemma_stands_parts(b, i, first, tokens_bytes(others));
    assert(tokens_ok(others)) by {
        assert forall|k: int| 0 <= k < others.len() implies (#[trigger] others[k]).ok() by {
            assert(others[k] == tokens[k + 1]);
        }
    }
    match tokens[0] {
        Token::Gap(gap) => {
            let gaps = seq![gap];
            assert(gaps.drop_first() =~= Seq::<Gap>::empty());
            reveal_with_fuel(gaps_bytes, 2);
            assert(gaps_bytes(gaps) =~= first);
            lemma_gaps(b, i, gaps);
            lemma_tokens(b, i + first.len(), others, depth);
        },
        Token::Open(c) => {
            lemma_stands_first(b, i, first);
            lemma_tokens(b, i + 1, others, depth + 1);
        },
        Token::Close(c) => {
            lemma_stands_first(b, i, first);
            if depth > 1 {
                lemma_tokens(b, i + 1, others, depth - 1);
            } else {
                assert(tokens_bytes(others).len() == 0);
            }
        },
        Token::Text(pieces) => {
            lemma_stands_first(b, i, first);
            string_reads_as_spelled(b, i, pieces);
            lemma_tokens(b, i + first.len(), others, depth);
        },
        Token::Other(c) => {
            lemma_stands_first(b, i, first);
            lemma_tokens(b, i + 1, others, depth);
        },
    }
}

/// A value of which at most the text matters.
pub enum Value {
    Text(Seq<Piece>),
    /// A number, `true`, `false` or `null`.
    Scalar(Seq<u8>),
    /// An object or an array.
    Nested(Seq<Token>),
}

impl Value {
    pub open spec fn ok(self) -> bool {
        match self {
            Value::Text(pieces) => pieces_ok(pieces),
            Value::Scalar(s) => {
                &&& s.len() > 0
                &&& !grammar::opens(s[0])
                &&& s[0] != QUOTE
                &&& forall|k: int| 0 <= k < s.len() ==> !grammar::ends_scalar(#[trigger] s[k])
            },
            Value::Nested(tokens) => tokens_ok(tokens) && tokens.len() > 0 && tokens[0] is Open
                && close_at_last(tokens, 0),
        }
    }

    pub open spec fn bytes(self) -> Seq<u8> {
        match self {
            Value::Text(pieces) => quoted(pieces),
            Value::Scalar(s) => s,
            Value::Nested(tokens) => tokens_bytes(tokens),
        }
    }

    /// Whether it is an object or array that starts with `c`.
    pub open spec fn starts_with(self, c: u8) -> bool {
        self matches Value::Nested(tokens) && tokens[0] == Token::Open(c)
    }

    /// The text, if it is one.
    pub open spec fn text(self) -> Option<Seq<char>> {
        match self {
            Value::Text(pieces) => Some(spelled(pieces)),
            _ => None,
        }
    }
}

/// How a value starts.
proof fn lemma_value_start(v: Value)
    requires
        v.ok(),
    ensures
        v.bytes().len() > 0,
        solid(v.bytes()[0]),
        !grammar::ends_scalar(v.bytes()[0]),
        (v.bytes()[0] == QUOTE) == (v is Text),
        grammar::opens(v.bytes()[0]) == (v is Nested),
        forall|c: u8| grammar::opens(c) ==> (v.bytes()[0] == c) == #[trigger] v.starts_with(c),
{
    match v {
        Value::Text(pieces) => {},
        Value::Scalar(s) => {
            assert(!grammar::ends_scalar(s[0]));
        },
        Value::Nested(tokens) => {
            assert(tokens[0].ok());
        },
    }
}

proof fn lemma_scalar(b: Seq<u8>, i: int, s: Seq<u8>)
    requires
        stands(b, i, s),
        forall|k: int| 0 <= k < s.len() ==> !grammar::ends_scalar(#[trigger] s[k]),
        i + s.len() == b.len() || grammar::ends_scalar(b[i + s.len()]),
    ensures
        grammar::scalar_end(b, i) == i + s.len(),
    decreases s.len(),
{
    if s.len() > 0 {
        lemma_stands_first(b, i, s);
        assert(!grammar::ends_scalar(s[0]));
        assert forall|k: int| 0 <= k < s.drop_first().len() implies !grammar::ends_scalar(
            #[trigger] s.drop_first()[k],
        ) by {
            assert(s.drop_first()[k] == s[k + 1]);
        }
        lemma_scalar(b, i + 1, s.drop_first());
    }
}

/// A value that nobody asks for is passed over as a whole, whatever brackets
/// there are in its strings and comments.
pub proof fn value_is_passed_over(b: Seq<u8>, i: int, v: Value)
    requires
        stands(b, i, v.bytes()),
        v.ok(),
        i + v.bytes().len() == b.len() || grammar::ends_scalar(b[i + v.bytes().len()]),
    ensures
        grammar::value_end(b, i) == Ok::<_, grammar::Fault>(i + v.bytes().len()),
{
    lemma_value_start(v);
    lemma_stands_first(b, i, v.bytes());
    match v {
        Value::Text(pieces) => {
            string_reads_as_spelled(b, i, pieces);
        },
        Value::Scalar(s) => {
            lemma_scalar(b, i, s);
        },
        Value::Nested(tokens) => {
            lemma_tokens(b, i, tokens, 0);
        },
    }
}

/// A value is read for its text, if it is one.
proof fn lemma_value_text(b: Seq<u8>, i: int, v: Value)
    requires
        stands(b, i, v.bytes()),
        v.ok(),
        i + v.bytes().len() == b.len() || grammar::ends_scalar(b[i + v.bytes().len()]),
    ensures
        grammar::string_or_skip(b, i) == Ok::<_, grammar::Fault>(
            (v.text(), i + v.bytes().len()),
        ),
{
    lemma_value_start(v);
    lemma_stands_first(b, i, v.bytes());
    value_is_passed_over(b, i, v);
    if let Value::Text(pieces) = v {
        string_reads_as_spelled(b, i, pieces);
    }
}

// ---------------------------------------------------------------------------
// What stands between members
// ---------------------------------------------------------------------------
/// Whitespace, comments, and what may follow a value all end a scalar.
proof fn lemma_tail_ends_scalar(gaps: Seq<Gap>, p: Seq<u8>)
    requires
        gaps_ok(gaps),
        p.len() > 0,
        grammar::ends_scalar(p[0]),
    ensures
        (gaps_bytes(gaps) + p).len() > 0,
        grammar::ends_scalar((gaps_bytes(gaps) + p)[0]),
{
    if gaps.len() > 0 {
        assert(gaps[0].ok());
        assert(gaps_bytes(gaps)[0] == gaps[0].bytes()[0]);
    } else {
        assert(gaps_bytes(gaps) + p =~= p);
    }
}

/// The comma after a member, if there is one.
pub open spec fn comma(there: bool) -> Seq<u8> {
    if there {
        seq![COMMA]
    } else {
        Seq::empty()
    }
}

/// After a comma, another member may come.
proof fn lemma_comma(b: Seq<u8>, i: int, after: Seq<Gap>, p: Seq<u8>, close: u8)
    requires
        stands(b, i, gaps_bytes(after) + (seq![COMMA] + p)),
        gaps_ok(after),
    ensures
        grammar::separator(b, i, close) == Ok::<_, grammar::Fault>(
            (true, i + gaps_bytes(after).len() + 1),
        ),
        stands(b, i + gaps_bytes(after).len() + 1, p),
        grammar::ends_scalar(b[i]),
{
    lemma_gaps_then(b, i, after, seq![COMMA] + p);
    lemma_stands_parts(b, i + gaps_bytes(after).len(), seq![COMMA], p);
    lemma_tail_ends_scalar(after, seq![COMMA] + p);
    lemma_stands_first(b, i, gaps_bytes(after) + (seq![COMMA] + p));
}

/// Without one, the bracket closes.
proof fn lemma_no_comma(b: Seq<u8>, i: int, after: Seq<Gap>, end: Seq<Gap>, close: u8)
    requires
        stands(b, i, gaps_bytes(after) + (gaps_bytes(end) + seq![close])),
        gaps_ok(after),
        gaps_ok(end),
        grammar::closes(close),
    ensures
        grammar::separator(b, i, close) == Ok::<_, grammar::Fault>(
            (false, i + gaps_bytes(after).len() + gaps_bytes(end).len() + 1),
        ),
        grammar::ends_scalar(b[i]),
{
    let p = gaps_bytes(end) + seq![close];
    lemma_stands_parts(b, i, gaps_bytes(after), p);
    lemma_gaps(b, i, after);
    lemma_gaps_then(b, i + gaps_bytes(after).len(), end, seq![close]);
    lemma_tail_ends_scalar(end, seq![close]);
    lemma_tail_ends_scalar(after, p);
    lemma_stands_first(b, i, gaps_bytes(after) + p);
}

// ---------------------------------------------------------------------------
// Arrays of dependencies
// ---------------------------------------------------------------------------
/// An item of an array.
pub struct Item {
    pub before: Seq<Gap>,
    pub value: Value,
    pub after: Seq<Gap>,
}

/// An array, with a comma after its last item or not.
pub struct Array {
    pub items: Seq<Item>,
    pub trailing: bool,
    pub end: Seq<Gap>,
}

impl Item {
    pub open spec fn ok(self) -> bool {
        gaps_ok(self.before) && self.value.ok() && gaps_ok(self.after)
    }
}

impl Array {
    pub open spec fn ok(self) -> bool {
        gaps_ok(self.end) && forall|k: int|
            0 <= k < self.items.len() ==> (#[trigger] self.items[k]).ok()
    }

    /// The bytes from the `k`th item on.
    pub open spec fn from(self, k: int) -> Seq<u8>
        decreases self.items.len() - k,
    {
        if k >= self.items.len() {
            gaps_bytes(self.end) + seq![CLOSE_BRACKET]
        } else {
            let item = self.items[k];
            let more = k + 1 < self.items.len() || self.trailing;
            gaps_bytes(item.before) + (item.value.bytes() + (gaps_bytes(item.after) + (comma(more)
                + self.from(k + 1))))
        }
    }

    pub open spec fn bytes(self) -> Seq<u8> {
        seq![OPEN_BRACKET] + self.from(0)
    }

    /// The strings among the first `k` items, after those in `found`.
    pub open spec fn strings(self, found: Seq<Seq<char>>, k: int) -> Seq<Seq<char>>
        decreases k,
    {
        if k <= 0 {
            found
        } else {
            let before = self.strings(found, k - 1);
            match self.items[k - 1].value.text() {
                Some(text) => before.push(text),
                None => before,
            }
        }
    }
}

proof fn lemma_array(b: Seq<u8>, i: int, a: Array, found: Seq<Seq<char>>, k: int)
    requires
        stands(b, i, a.from(k)),
        a.ok(),
        0 <= k <= a.items.len(),
    ensures
        grammar::items(b, i, a.strings(found, k)) == Ok::<_, grammar::Fault>(
            (a.strings(found, a.items.len() as int), i + a.from(k).len()),
        ),
    decreases a.items.len() - k,
{
    if k == a.items.len() {
        lemma_gaps_then(b, i, a.end, seq![CLOSE_BRACKET]);
    } else {
        let item = a.items[k];
        assert(item.ok());
        let more = k + 1 < a.items.len() || a.trailing;
        let rest = comma(more) + a.from(k + 1);
        let tail = gaps_bytes(item.after) + rest;
        lemma_value_start(item.value);
        lemma_gaps_then(b, i, item.before, item.value.bytes() + tail);
        let j = i + gaps_bytes(item.before).len();
        lemma_stands_parts(b, j, item.value.bytes(), tail);
        let e = j + item.value.bytes().len();
        if more {
            lemma_comma(b, e, item.after, a.from(k + 1), CLOSE_BRACKET);
            lemma_value_text(b, j, item.value);
            lemma_array(b, e + gaps_bytes(item.after).len() + 1, a, found, k + 1);
        } else {
            assert(rest =~= gaps_bytes(a.end) + seq![CLOSE_BRACKET]);
            lemma_no_comma(b, e, item.after, a.end, CLOSE_BRACKET);
            lemma_value_text(b, j, item.value);
        }
    }
}

// ---------------------------------------------------------------------------
// Objects
// ---------------------------------------------------------------------------
/// Something that is written as the value of a member.
pub trait Written: Sized {
    spec fn ok(self) -> bool;

    spec fn bytes(self) -> Seq<u8>;

    /// It starts with neither whitespace nor a comment.
    proof fn lemma_start(self)
        requires
            self.ok(),
        ensures
            self.bytes().len() > 0,
            solid(self.bytes()[0]),
    ;
}

/// A member of an object.
pub struct Member<V> {
    pub before: Seq<Gap>,
    pub key: Seq<Piece>,
    /// What stands between the key and the colon.
    pub colon: Seq<Gap>,
    /// What stands between the colon and the value.
    pub lead: Seq<Gap>,
    pub value: V,
    pub after: Seq<Gap>,
}

/// An object, with a comma after its last member or not.
pub struct Object<V> {
    pub members: Seq<Member<V>>,
    pub trailing: bool,
    pub end: Seq<Gap>,
}

impl<V: Written> Member<V> {
    pub open spec fn ok(self) -> bool {
        &&& gaps_ok(self.before)
        &&& pieces_ok(self.key)
        &&& gaps_ok(self.colon)
        &&& gaps_ok(self.lead)
        &&& self.value.ok()
        &&& gaps_ok(self.after)
    }

    pub open spec fn name(self) -> Seq<char> {
        spelled(self.key)
    }

    /// The bytes up to the value, and then `p`.
    pub open spec fn onto(self, p: Seq<u8>) -> Seq<u8> {
        gaps_bytes(self.before) + (quoted(self.key) + (gaps_bytes(self.colon) + (seq![COLON] + (
        gaps_bytes(self.lead) + p))))
    }

    /// Where the value starts.
    pub open spec fn offset(self) -> int {
        (gaps_bytes(self.before).len() + quoted(self.key).len() + gaps_bytes(self.colon).len() + 1
            + gaps_bytes(self.lead).len()) as int
    }
}

impl<V: Written> Object<V> {
    pub open spec fn ok(self) -> bool {
        gaps_ok(self.end) && forall|k: int|
            0 <= k < self.members.len() ==> (#[trigger] self.members[k]).ok()
    }

    /// Whether a comma follows the `k`th member.
    pub open spec fn more(self, k: int) -> bool {
        k + 1 < self.members.len() || self.trailing
    }

    /// The bytes from the `k`th member on.
    pub open spec fn from(self, k: int) -> Seq<u8>
        decreases self.members.len() - k,
    {
        if k >= self.members.len() {
            gaps_bytes(self.end) + seq![CLOSE_BRACE]
        } else {
            let member = self.members[k];
            member.onto(
                member.value.bytes() + (gaps_bytes(member.after) + (comma(self.more(k))
                    + self.from(k + 1))),
            )
        }
    }

    pub open spec fn bytes(self) -> Seq<u8> {
        seq![OPEN_BRACE] + self.from(0)
    }
}

/// A member's key is read, and its value comes next.
proof fn lemma_key<V: Written>(b: Seq<u8>, i: int, m: Member<V>, p: Seq<u8>)
    requires
        stands(b, i, m.onto(p)),
        m.ok(),
        p.len() > 0,
        solid(p[0]),
    ensures
        ({
            let j = grammar::trivia_end(b, i);
            &&& grammar::byte_at(b, j) == Some(QUOTE)
            &&& grammar::key_at(b, j) == Ok::<_, grammar::Fault>((m.name(), i + m.offset()))
        }),
        stands(b, i + m.offset(), p),
{
    let p4 = gaps_bytes(m.lead) + p;
    let p3 = seq![COLON] + p4;
    let p2 = gaps_bytes(m.colon) + p3;
    let p1 = quoted(m.key) + p2;
    lemma_gaps_then(b, i, m.before, p1);
    let j = i + gaps_bytes(m.before).len();
    lemma_stands_parts(b, j, quoted(m.key), p2);
    string_reads_as_spelled(b, j, m.key);
    let e = j + quoted(m.key).len();
    lemma_gaps_then(b, e, m.colon, p3);
    let c = e + gaps_bytes(m.colon).len();
    lemma_stands_parts(b, c, seq![COLON], p4);
    lemma_gaps_then(b, c + 1, m.lead, p);
}

/// A member's key is read, its value comes next, and then the rest of the
/// object.
proof fn lemma_member<V: Written>(b: Seq<u8>, i: int, o: Object<V>, k: int) -> (at: (int, int, int))
    requires
        0 <= k < o.members.len(),
        o.ok(),
        stands(b, i, o.from(k)),
    ensures
        ({
            let m = o.members[k];
            let (value, end, next) = at;
            let j = grammar::trivia_end(b, i);
            &&& m.ok()
            &&& grammar::byte_at(b, j) == Some(QUOTE)
            &&& grammar::key_at(b, j) == Ok::<_, grammar::Fault>((m.name(), value))
            &&& stands(b, value, m.value.bytes())
            &&& end == value + m.value.bytes().len()
            &&& end < b.len()
            &&& grammar::ends_scalar(b[end])
            &&& grammar::separator(b, end, CLOSE_BRACE) == Ok::<_, grammar::Fault>(
                (o.more(k), next),
            )
            &&& if o.more(k) {
                stands(b, next, o.from(k + 1)) && next + o.from(k + 1).len() == i + o.from(k).len()
            } else {
                next == i + o.from(k).len()
            }
        }),
{
    let m = o.members[k];
    assert(m.ok());
    let rest = comma(o.more(k)) + o.from(k + 1);
    let tail = gaps_bytes(m.after) + rest;
    m.value.lemma_start();
    lemma_key(b, i, m, m.value.bytes() + tail);
    let value = i + m.offset();
    lemma_stands_parts(b, value, m.value.bytes(), tail);
    let end = value + m.value.bytes().len();
    if o.more(k) {
        lemma_comma(b, end, m.after, o.from(k + 1), CLOSE_BRACE);
        (value, end, end + gaps_bytes(m.after).len() + 1)
    } else {
        assert(rest =~= gaps_bytes(o.end) + seq![CLOSE_BRACE]);
        lemma_no_comma(b, end, m.after, o.end, CLOSE_BRACE);
        (value, end, end + gaps_bytes(m.after).len() + gaps_bytes(o.end).len() + 1)
    }
}

// ---------------------------------------------------------------------------
// A task in object form
// ---------------------------------------------------------------------------
pub enum Field {
    Plain(Value),
    /// The array of a `dependencies` member.
    Dependencies(Array),
}

impl Written for Field {
    open spec fn ok(self) -> bool {
        match self {
            Field::Plain(v) => v.ok(),
            Field::Dependencies(a) => a.ok(),
        }
    }

    open spec fn bytes(self) -> Seq<u8> {
        match self {
            Field::Plain(v) => v.bytes(),
            Field::Dependencies(a) => a.bytes(),
        }
    }

    proof fn lemma_start(self) {
        if let Field::Plain(v) = self {
            lemma_value_start(v);
        }
    }
}

/// Whether it is written out which arrays are dependencies.
pub open spec fn field_fits(m: Member<Field>) -> bool {
    match m.value {
        Field::Plain(v) => m.name() == "dependencies"@ ==> !v.starts_with(OPEN_BRACKET),
        Field::Dependencies(_) => m.name() == "dependencies"@,
    }
}

pub open spec fn form_ok(o: Object<Field>) -> bool {
    o.ok() && forall|k: int|
        0 <= k < o.members.len() ==> field_fits(#[trigger] o.members[k])
}

/// What one more member makes of a task.
pub open spec fn with_field(d: Draft, m: Member<Field>) -> Draft {
    match m.value {
        Field::Dependencies(a) => Draft {
            dependencies: a.strings(d.dependencies, a.items.len() as int),
            ..d
        },
        Field::Plain(v) => match v.text() {
            Some(text) => if m.name() == "command"@ {
                Draft { command: text, ..d }
            } else if m.name() == "description"@ {
                Draft { description: text, ..d }
            } else {
                d
            },
            None => d,
        },
    }
}

/// What the first `k` members make of a task.
pub open spec fn draft_of(o: Object<Field>, k: int) -> Draft
    decreases k,
{
    if k <= 0 {
        Draft {
            command: Seq::empty(),
            description: Seq::empty(),
            dependencies: Seq::empty(),
        }
    } else {
        with_field(draft_of(o, k - 1), o.members[k - 1])
    }
}

/// The names that mean something in a task are different names.
proof fn lemma_field_names()
    ensures
        "command"@ != "description"@,
        "command"@ != "dependencies"@,
        "description"@ != "dependencies"@,
{
    reveal_strlit("command");
    reveal_strlit("description");
    reveal_strlit("dependencies");
    assert("command"@.len() == 7);
    assert("description"@.len() == 11);
    assert("dependencies"@.len() == 12);
}

proof fn lemma_field(b: Seq<u8>, i: int, m: Member<Field>, d: Draft)
    requires
        stands(b, i, m.value.bytes()),
        m.ok(),
        field_fits(m),
        i + m.value.bytes().len() < b.len(),
        grammar::ends_scalar(b[i + m.value.bytes().len()]),
    ensures
        grammar::task_field(b, i, m.name(), d) == Ok::<_, grammar::Fault>(
            (with_field(d, m), i + m.value.bytes().len()),
        ),
{
    lemma_field_names();
    match m.value {
        Field::Plain(v) => {
            lemma_value_start(v);
            lemma_stands_first(b, i, v.bytes());
            value_is_passed_over(b, i, v);
            assert(grammar::opens(OPEN_BRACKET));
            assert((v.bytes()[0] == OPEN_BRACKET) == v.starts_with(OPEN_BRACKET));
            if let Value::Text(pieces) = v {
                string_reads_as_spelled(b, i, pieces);
            }
        },
        Field::Dependencies(a) => {
            lemma_stands_parts(b, i, seq![OPEN_BRACKET], a.from(0));
            lemma_stands_first(b, i, seq![OPEN_BRACKET]);
            lemma_array(b, i + 1, a, d.dependencies, 0);
        },
    }
}

proof fn lemma_form(b: Seq<u8>, i: int, o: Object<Field>, k: int)
    requires
        stands(b, i, o.from(k)),
        form_ok(o),
        0 <= k <= o.members.len(),
    ensures
        grammar::task_fields(b, i, draft_of(o, k)) == Ok::<_, grammar::Fault>(
            (draft_of(o, o.members.len() as int), i + o.from(k).len()),
        ),
    decreases o.members.len() - k,
{
    if k == o.members.len() {
        lemma_gaps_then(b, i, o.end, seq![CLOSE_BRACE]);
    } else {
        let m = o.members[k];
        assert(field_fits(m));
        let (value, end, next) = lemma_member(b, i, o, k);
        lemma_field(b, value, m, draft_of(o, k));
        if o.more(k) {
            lemma_form(b, next, o, k + 1);
        }
    }
}

// ---------------------------------------------------------------------------
// The object of tasks
// ---------------------------------------------------------------------------
pub enum Entry {
    /// A command, or something that is not runnable.
    Plain(Value),
    Form(Object<Field>),
}

impl Written for Entry {
    open spec fn ok(self) -> bool {
        match self {
            Entry::Plain(v) => v.ok() && !v.starts_with(OPEN_BRACE),
            Entry::Form(o) => form_ok(o),
        }
    }

    open spec fn bytes(self) -> Seq<u8> {
        match self {
            Entry::Plain(v) => v.bytes(),
            Entry::Form(o) => o.bytes(),
        }
    }

    proof fn lemma_start(self) {
        if let Entry::Plain(v) = self {
            lemma_value_start(v);
        }
    }
}

/// The task that an entry declares, if it is runnable.
pub open spec fn task_of(m: Member<Entry>) -> Option<TaskView> {
    match m.value {
        Entry::Plain(v) => match v.text() {
            Some(command) => Some(
                TaskView { name: m.name(), command, description: Seq::empty() },
            ),
            None => None,
        },
        Entry::Form(o) => {
            let d = draft_of(o, o.members.len() as int);
            Some(
                TaskView {
                    name: m.name(),
                    command: if d.command.len() > 0 {
                        d.command
                    } else if d.dependencies.len() > 0 {
                        "depends on: "@ + text::joined(d.dependencies, ", "@)
                    } else {
                        Seq::empty()
                    },
                    description: d.description,
                },
            )
        },
    }
}

/// The tasks that the first `k` entries declare, in the order they are written.
pub open spec fn tasks_of(o: Object<Entry>, k: int) -> Seq<TaskView>
    decreases k,
{
    if k <= 0 {
        Seq::empty()
    } else {
        let before = tasks_of(o, k - 1);
        match task_of(o.members[k - 1]) {
            Some(task) => before.push(task),
            None => before,
        }
    }
}

proof fn lemma_entry(b: Seq<u8>, i: int, m: Member<Entry>)
    requires
        stands(b, i, m.value.bytes()),
        m.ok(),
        i + m.value.bytes().len() < b.len(),
        grammar::ends_scalar(b[i + m.value.bytes().len()]),
    ensures
        grammar::task_at(b, i, m.name()) == Ok::<_, grammar::Fault>(
            (task_of(m), i + m.value.bytes().len()),
        ),
{
    match m.value {
        Entry::Plain(v) => {
            lemma_value_start(v);
            lemma_stands_first(b, i, v.bytes());
            value_is_passed_over(b, i, v);
            assert(grammar::opens(OPEN_BRACE));
            assert((v.bytes()[0] == OPEN_BRACE) == v.starts_with(OPEN_BRACE));
            if let Value::Text(pieces) = v {
                string_reads_as_spelled(b, i, pieces);
            }
        },
        Entry::Form(o) => {
            lemma_stands_parts(b, i, seq![OPEN_BRACE], o.from(0));
            lemma_stands_first(b, i, seq![OPEN_BRACE]);
            lemma_form(b, i + 1, o, 0);
            let d = draft_of(o, o.members.len() as int);
            assert(d.command.len() == 0 ==> d.command =~= Seq::<char>::empty());
            assert(draft_of(o, 0) == grammar::empty_draft());
            assert(grammar::task_fields(b, i + 1, grammar::empty_draft()) == Ok::<
                _,
                grammar::Fault,
            >((d, i + o.bytes().len())));
            assert(task_of(m) == Some(grammar::drafted(m.name(), d)));
        },
    }
}

proof fn lemma_entries(b: Seq<u8>, i: int, o: Object<Entry>, k: int)
    requires
        stands(b, i, o.from(k)),
        o.ok(),
        0 <= k <= o.members.len(),
    ensures
        grammar::entries(b, i, tasks_of(o, k)) == Ok::<_, grammar::Fault>(
            (tasks_of(o, o.members.len() as int), i + o.from(k).len()),
        ),
    decreases o.members.len() - k,
{
    if k == o.members.len() {
        lemma_gaps_then(b, i, o.end, seq![CLOSE_BRACE]);
    } else {
        let (value, end, next) = lemma_member(b, i, o, k);
        lemma_entry(b, value, o.members[k]);
        if o.more(k) {
            lemma_entries(b, next, o, k + 1);
        }
    }
}

// ---------------------------------------------------------------------------
// The document
// ---------------------------------------------------------------------------
pub enum Top {
    Plain(Value),
    /// The object of tasks.
    Tasks(Object<Entry>),
}

impl Written for Top {
    open spec fn ok(self) -> bool {
        match self {
            Top::Plain(v) => v.ok(),
            Top::Tasks(o) => o.ok(),
        }
    }

    open spec fn bytes(self) -> Seq<u8> {
        match self {
            Top::Plain(v) => v.bytes(),
            Top::Tasks(o) => o.bytes(),
        }
    }

    proof fn lemma_start(self) {
        if let Top::Plain(v) = self {
            lemma_value_start(v);
        }
    }
}

/// A manifest, with whatever stands after its last brace.
pub struct Document {
    pub lead: Seq<Gap>,
    pub object: Object<Top>,
    pub tail: Seq<u8>,
}

impl Document {
    /// Whether it is well written, and the tasks are under `task_key`.
    pub open spec fn ok(self, task_key: Seq<char>) -> bool {
        &&& gaps_ok(self.lead)
        &&& self.object.ok()
        &&& forall|k: int|
            0 <= k < self.object.members.len() ==> (#[trigger] self.object.members[k].value
                is Tasks) == (self.object.members[k].name() == task_key)
    }

    pub open spec fn bytes(self) -> Seq<u8> {
        gaps_bytes(self.lead) + (self.object.bytes() + self.tail)
    }
}

/// What one more member makes of a manifest.
pub open spec fn with_top(m: ManifestView, member: Member<Top>) -> ManifestView {
    match member.value {
        Top::Tasks(o) => ManifestView { tasks: tasks_of(o, o.members.len() as int), ..m },
        Top::Plain(v) => match v.text() {
            Some(package_manager) => if member.name() == "packageManager"@ {
                ManifestView { package_manager, ..m }
            } else {
                m
            },
            None => m,
        },
    }
}

/// What the first `k` members make of a manifest.
pub open spec fn manifest_of(o: Object<Top>, k: int) -> ManifestView
    decreases k,
{
    if k <= 0 {
        ManifestView { tasks: Seq::empty(), package_manager: Seq::empty() }
    } else {
        with_top(manifest_of(o, k - 1), o.members[k - 1])
    }
}

proof fn lemma_top(b: Seq<u8>, i: int, m: Member<Top>, task_key: Seq<char>, now: ManifestView)
    requires
        stands(b, i, m.value.bytes()),
        m.ok(),
        (m.value is Tasks) == (m.name() == task_key),
        i + m.value.bytes().len() < b.len(),
        grammar::ends_scalar(b[i + m.value.bytes().len()]),
    ensures
        grammar::top_member(b, i, m.name(), task_key, now) == Ok::<_, grammar::Fault>(
            (with_top(now, m), i + m.value.bytes().len()),
        ),
{
    match m.value {
        Top::Plain(v) => {
            lemma_value_start(v);
            value_is_passed_over(b, i, v);
            lemma_value_text(b, i, v);
        },
        Top::Tasks(o) => {
            lemma_stands_parts(b, i, seq![OPEN_BRACE], o.from(0));
            lemma_stands_first(b, i, seq![OPEN_BRACE]);
            assert(tasks_of(o, 0) =~= Seq::<TaskView>::empty());
            lemma_entries(b, i + 1, o, 0);
        },
    }
}

#[verifier::rlimit(50)]
proof fn lemma_members(b: Seq<u8>, i: int, d: Document, task_key: Seq<char>, k: int)
    requires
        stands(b, i, d.object.from(k)),
        d.ok(task_key),
        0 <= k <= d.object.members.len(),
    ensures
        grammar::top_members(b, i, task_key, manifest_of(d.object, k)) == Ok::<_, grammar::Fault>(
            (
                manifest_of(d.object, d.object.members.len() as int),
                i + d.object.from(k).len(),
            ),
        ),
    decreases d.object.members.len() - k,
{
    let o = d.object;
    if k == o.members.len() {
        lemma_gaps_then(b, i, o.end, seq![CLOSE_BRACE]);
    } else {
        let m = o.members[k];
        assert((m.value is Tasks) == (m.name() == task_key));
        let (value, end, next) = lemma_member(b, i, o, k);
        lemma_top(b, value, m, task_key, manifest_of(o, k));
        if o.more(k) {
            lemma_members(b, next, d, task_key, k + 1);
        }
    }
}

/// Where the members of a manifest start.
proof fn lemma_document_start(b: Seq<u8>, d: Document)
    requires
        gaps_ok(d.lead),
        b == d.bytes(),
    ensures
        grammar::trivia_end(b, 0) == gaps_bytes(d.lead).len(),
        grammar::byte_at(b, gaps_bytes(d.lead).len() as int) == Some(OPEN_BRACE),
        stands(b, gaps_bytes(d.lead).len() as int + 1, d.object.from(0)),
{
    let i = gaps_bytes(d.lead).len() as int;
    assert(b.subrange(0, b.len() as int) =~= b);
    assert(stands(b, 0, d.bytes()));
    lemma_gaps_then(b, 0, d.lead, d.object.bytes() + d.tail);
    lemma_stands_parts(b, i, d.object.bytes(), d.tail);
    lemma_stands_parts(b, i, seq![OPEN_BRACE], d.object.from(0));
}

proof fn lemma_object_len<V: Written>(o: Object<V>)
    ensures
        o.bytes().len() == 1 + o.from(0).len(),
{
}

proof fn lemma_top_level(b: Seq<u8>, i: int, task_key: Seq<char>, m: ManifestView, end: int)
    requires
        grammar::trivia_end(b, 0) == i,
        grammar::byte_at(b, i) == Some(OPEN_BRACE),
        grammar::top_members(
            b,
            i + 1,
            task_key,
            ManifestView { tasks: Seq::empty(), package_manager: Seq::empty() },
        ) == Ok::<_, grammar::Fault>((m, end)),
    ensures
        grammar::top_level(b, task_key) == Ok::<_, grammar::Fault>((m, end)),
{
}

/// A manifest ends with its last brace.
pub proof fn lemma_document_end(src: Seq<char>, d: Document, task_key: Seq<char>)
    requires
        d.ok(task_key),
        encode_utf8(src) == d.bytes(),
    ensures
        grammar::top_level(encode_utf8(src), task_key) == Ok::<_, grammar::Fault>(
            (
                manifest_of(d.object, d.object.members.len() as int),
                (gaps_bytes(d.lead).len() + d.object.bytes().len()) as int,
            ),
        ),
{
    let b = encode_utf8(src);
    let i = gaps_bytes(d.lead).len() as int;
    let n = d.object.members.len() as int;
    lemma_document_start(b, d);
    lemma_members(b, i + 1, d, task_key, 0);
    lemma_object_len(d.object);
    lemma_top_level(b, i, task_key, manifest_of(d.object, n), i + d.object.bytes().len());
}

/// However a manifest is written, with whitespace and comments anywhere, with
/// a comma after a last member or without, and with its strings spelled in any
/// way, reading it gives its tasks in the order they are written, and its
/// `packageManager`. Everything else, and all that follows its last brace, is
/// passed over.
pub proof fn written_manifest_reads_back(src: Seq<char>, d: Document, task_key: Seq<char>)
    requires
        d.ok(task_key),
        encode_utf8(src) == d.bytes(),
    ensures
        grammar::document(src, task_key) == {
            let m = manifest_of(d.object, d.object.members.len() as int);
            if m.tasks.len() == 0 {
                Err(ErrorView::NoTasks)
            } else {
                Ok(m)
            }
        },
{
    lemma_document_end(src, d, task_key);
}

} // verus!
