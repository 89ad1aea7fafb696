//! That nothing after a manifest matters, and what is passed over inside it.
//!
//! Whatever is read successfully from some bytes is read just so when more
//! bytes follow them.

use vstd::prelude::*;
use vstd::utf8::*;

use crate::json::grammar;
use crate::json::grammar::{
    Draft, ManifestView, TaskView, BACKSLASH, CLOSE_BRACE, CLOSE_BRACKET, OPEN_BRACE, OPEN_BRACKET,
    QUOTE, SLASH, STAR,
};
use crate::text;

verus! {

// ---------------------------------------------------------------------------
// Whitespace and comments
// ---------------------------------------------------------------------------
/// Whether the byte at `k` belongs to a comment that starts at `c`.
pub open spec fn in_comment(b: Seq<u8>, c: int, k: int) -> bool {
    &&& 0 <= c <= k
    &&& grammar::byte_at(b, c) == Some(SLASH)
    &&& {
        ||| grammar::byte_at(b, c + 1) == Some(SLASH) && k < grammar::line_end(b, c + 2)
        ||| grammar::byte_at(b, c + 1) == Some(STAR) && k < grammar::block_end(b, c + 2)
    }
}

/// Whether the byte at `k` is whitespace, or belongs to a comment that starts
/// at `i` or later.
pub open spec fn is_trivia(b: Seq<u8>, i: int, k: int) -> bool {
    grammar::is_space(b[k]) || exists|c: int| i <= c && #[trigger] in_comment(b, c, k)
}

/// Whether whitespace or a comment starts at `i`.
pub open spec fn starts_trivia(b: Seq<u8>, i: int) -> bool {
    &&& 0 <= i < b.len()
    &&& {
        ||| grammar::is_space(b[i])
        ||| b[i] == SLASH && (grammar::byte_at(b, i + 1) == Some(SLASH) || grammar::byte_at(
            b,
            i + 1,
        ) == Some(STAR))
    }
}

proof fn lemma_trivia(b: Seq<u8>, i: int)
    requires
        0 <= i <= b.len(),
    ensures
        !starts_trivia(b, grammar::trivia_end(b, i)),
        forall|k: int| i <= k < grammar::trivia_end(b, i) ==> #[trigger] is_trivia(b, i, k),
    decreases b.len() - i,
{
    if i >= b.len() {
    } else if grammar::is_space(b[i]) {
        lemma_trivia(b, i + 1);
        assert forall|k: int| i <= k < grammar::trivia_end(b, i) implies #[trigger] is_trivia(
            b,
            i,
            k,
        ) by {
            if k > i {
                assert(is_trivia(b, i + 1, k));
            }
        }
    } else if starts_trivia(b, i) {
        let end = if grammar::byte_at(b, i + 1) == Some(SLASH) {
            grammar::line_end(b, i + 2)
        } else {
            grammar::block_end(b, i + 2)
        };
        grammar::lemma_line_end(b, i + 2);
        grammar::lemma_block_end(b, i + 2);
        lemma_trivia(b, end);
        assert forall|k: int| i <= k < grammar::trivia_end(b, i) implies #[trigger] is_trivia(
            b,
            i,
            k,
        ) by {
            if k < end {
                assert(in_comment(b, i, k));
            } else {
                assert(is_trivia(b, end, k));
                if !grammar::is_space(b[k]) {
                    let c = choose|c: int| end <= c && #[trigger] in_comment(b, c, k);
                    assert(i <= c && in_comment(b, c, k));
                }
            }
        }
    }
}

/// What is passed over between tokens is whitespace and comments and nothing
/// else, and all there is of them: passing over them again moves nothing.
pub proof fn only_trivia_is_passed_over(b: Seq<u8>, i: int)
    requires
        0 <= i <= b.len(),
    ensures
        i <= grammar::trivia_end(b, i) <= b.len(),
        forall|k: int| i <= k < grammar::trivia_end(b, i) ==> #[trigger] is_trivia(b, i, k),
        !starts_trivia(b, grammar::trivia_end(b, i)),
        grammar::trivia_end(b, grammar::trivia_end(b, i)) == grammar::trivia_end(b, i),
{
    grammar::lemma_trivia_end(b, i);
    lemma_trivia(b, i);
}

proof fn lemma_line_end(b: Seq<u8>, t: Seq<u8>, i: int)
    requires
        0 <= i,
        grammar::line_end(b, i) < b.len(),
    ensures
        grammar::line_end(b + t, i) == grammar::line_end(b, i),
    decreases b.len() - i,
{
    grammar::lemma_line_end(b, i);
    assert((b + t)[i] == b[i]);
    if b[i] != grammar::LINE_FEED {
        lemma_line_end(b, t, i + 1);
    }
}

proof fn lemma_block_end(b: Seq<u8>, t: Seq<u8>, i: int)
    requires
        0 <= i,
        grammar::block_end(b, i) < b.len(),
    ensures
        grammar::block_end(b + t, i) == grammar::block_end(b, i),
    decreases b.len() - i,
{
    grammar::lemma_block_end(b, i);
    assert((b + t)[i] == b[i]);
    if b[i] == STAR && grammar::byte_at(b, i + 1) == Some(SLASH) {
        assert((b + t)[i + 1] == b[i + 1]);
    } else {
        grammar::lemma_block_end(b, i + 1);
        if i + 1 < b.len() {
            assert((b + t)[i + 1] == b[i + 1]);
        }
        lemma_block_end(b, t, i + 1);
    }
}

/// Whitespace and comments that end at something end there whatever follows,
/// unless a slash might still turn into a comment.
proof fn lemma_trivia_end(b: Seq<u8>, t: Seq<u8>, i: int)
    requires
        0 <= i,
        grammar::trivia_end(b, i) < b.len(),
        b[grammar::trivia_end(b, i)] != SLASH || grammar::trivia_end(b, i) + 1 < b.len(),
    ensures
        grammar::trivia_end(b + t, i) == grammar::trivia_end(b, i),
    decreases b.len() - i,
{
    grammar::lemma_trivia_end(b, i);
    assert((b + t)[i] == b[i]);
    if i + 1 < b.len() {
        assert((b + t)[i + 1] == b[i + 1]);
    }
    if grammar::is_space(b[i]) {
        lemma_trivia_end(b, t, i + 1);
    } else if b[i] == SLASH && grammar::byte_at(b, i + 1) == Some(SLASH) {
        grammar::lemma_line_end(b, i + 2);
        grammar::lemma_trivia_end(b, grammar::line_end(b, i + 2));
        lemma_line_end(b, t, i + 2);
        lemma_trivia_end(b, t, grammar::line_end(b, i + 2));
    } else if b[i] == SLASH && grammar::byte_at(b, i + 1) == Some(STAR) {
        grammar::lemma_block_end(b, i + 2);
        grammar::lemma_trivia_end(b, grammar::block_end(b, i + 2));
        lemma_block_end(b, t, i + 2);
        lemma_trivia_end(b, t, grammar::block_end(b, i + 2));
    }
}

// ---------------------------------------------------------------------------
// Strings
// ---------------------------------------------------------------------------
proof fn lemma_hex_digits(b: Seq<u8>, t: Seq<u8>, i: int, n: nat, high: int)
    requires
        0 <= i,
        grammar::hex_digits(b, i, n, high) is Ok,
    ensures
        grammar::hex_digits(b + t, i, n, high) == grammar::hex_digits(b, i, n, high),
    decreases n,
{
    if n > 0 {
        assert((b + t)[i] == b[i]);
        let d = grammar::hex_digit(b[i])->Some_0;
        lemma_hex_digits(b, t, i + 1, (n - 1) as nat, high * 16 + d);
    }
}

proof fn lemma_escape(b: Seq<u8>, t: Seq<u8>, i: int)
    requires
        0 <= i,
        grammar::escape(b, i) is Ok,
    ensures
        grammar::escape(b + t, i) == grammar::escape(b, i),
{
    assert((b + t)[i] == b[i]);
    if grammar::short_escape(b[i]) is None {
        lemma_hex_digits(b, t, i + 1, 4, 0);
        grammar::lemma_hex_digits(b, i + 1, 4, 0);
        let (first, j) = grammar::hex_digits(b, i + 1, 4, 0)->Ok_0;
        if grammar::is_high_surrogate(first) {
            assert((b + t)[j] == b[j]);
            assert((b + t)[j + 1] == b[j + 1]);
            lemma_hex_digits(b, t, j + 2, 4, 0);
        }
    }
}

proof fn lemma_string_body(b: Seq<u8>, t: Seq<u8>, i: int)
    requires
        0 <= i,
        grammar::string_body(b, i) is Ok,
    ensures
        grammar::string_body(b + t, i) == grammar::string_body(b, i),
    decreases grammar::left(b, i),
{
    assert((b + t)[i] == b[i]);
    if b[i] != QUOTE {
        let (c, j) = grammar::string_char(b, i)->Ok_0;
        grammar::lemma_escape(b, i + 1);
        grammar::lemma_string_body(b, j);
        if b[i] == BACKSLASH {
            lemma_escape(b, t, i + 1);
        } else {
            let x = grammar::rest(b, i);
            let y = grammar::rest(b + t, i);
            assert(x[0] == y[0]);
            assert(x.len() > 1 ==> x[1] == y[1]);
            assert(x.len() > 2 ==> x[2] == y[2]);
            assert(x.len() > 3 ==> x[3] == y[3]);
        }
        lemma_string_body(b, t, j);
    }
}

proof fn lemma_string_at(b: Seq<u8>, t: Seq<u8>, i: int)
    requires
        0 <= i,
        grammar::string_at(b, i) is Ok,
    ensures
        grammar::string_at(b + t, i) == grammar::string_at(b, i),
{
    assert((b + t)[i] == b[i]);
    lemma_string_body(b, t, i + 1);
}

// ---------------------------------------------------------------------------
// Values
// ---------------------------------------------------------------------------
proof fn lemma_scalar_end(b: Seq<u8>, t: Seq<u8>, i: int)
    requires
        0 <= i,
        grammar::scalar_end(b, i) < b.len(),
    ensures
        grammar::scalar_end(b + t, i) == grammar::scalar_end(b, i),
    decreases b.len() - i,
{
    grammar::lemma_scalar_end(b, i);
    assert((b + t)[i] == b[i]);
    if !grammar::ends_scalar(b[i]) {
        lemma_scalar_end(b, t, i + 1);
    }
}

proof fn lemma_container_end(b: Seq<u8>, t: Seq<u8>, i: int, depth: int)
    requires
        0 <= i,
        grammar::container_end(b, i, depth) is Ok,
    ensures
        grammar::container_end(b + t, i, depth) == grammar::container_end(b, i, depth),
    decreases grammar::left(b, i),
{
    let j = grammar::trivia_end(b, i);
    grammar::lemma_trivia_end(b, i);
    if b[j] == SLASH {
        // The container goes on after the slash.
        grammar::lemma_container_end(b, j + 1, depth);
    }
    lemma_trivia_end(b, t, i);
    assert((b + t)[j] == b[j]);
    if grammar::opens(b[j]) {
        lemma_container_end(b, t, j + 1, depth + 1);
    } else if grammar::closes(b[j]) {
        if depth > 1 {
            lemma_container_end(b, t, j + 1, depth - 1);
        }
    } else if b[j] == QUOTE {
        lemma_string_at(b, t, j);
        grammar::lemma_string_body(b, j + 1);
        let (s, k) = grammar::string_at(b, j)->Ok_0;
        lemma_container_end(b, t, k, depth);
    } else {
        lemma_container_end(b, t, j + 1, depth);
    }
}

/// A scalar at the end of the bytes might go on in what follows; any other
/// value ends where it ends.
proof fn lemma_value_end(b: Seq<u8>, t: Seq<u8>, i: int)
    requires
        0 <= i,
        grammar::value_end(b, i) matches Ok(j) && j < b.len(),
    ensures
        grammar::value_end(b + t, i) == grammar::value_end(b, i),
{
    let j = grammar::trivia_end(b, i);
    grammar::lemma_trivia_end(b, i);
    lemma_trivia_end(b, t, i);
    assert((b + t)[j] == b[j]);
    if b[j] == QUOTE {
        lemma_string_at(b, t, j);
    } else if grammar::opens(b[j]) {
        lemma_container_end(b, t, j, 0);
    } else {
        lemma_scalar_end(b, t, j);
    }
}

proof fn lemma_key_at(b: Seq<u8>, t: Seq<u8>, i: int)
    requires
        0 <= i,
        grammar::key_at(b, i) matches Ok((key, v)) && v < b.len() && b[v] != SLASH,
    ensures
        grammar::key_at(b + t, i) == grammar::key_at(b, i),
{
    lemma_string_at(b, t, i);
    grammar::lemma_string_body(b, i + 1);
    let (key, j) = grammar::string_at(b, i)->Ok_0;
    let colon = grammar::trivia_end(b, j);
    grammar::lemma_trivia_end(b, j);
    lemma_trivia_end(b, t, j);
    assert((b + t)[colon] == b[colon]);
    lemma_trivia_end(b, t, colon + 1);
}

proof fn lemma_separator(b: Seq<u8>, t: Seq<u8>, i: int, close: u8)
    requires
        0 <= i,
        close != SLASH,
        grammar::separator(b, i, close) is Ok,
    ensures
        grammar::separator(b + t, i, close) == grammar::separator(b, i, close),
        i < b.len(),
{
    let j = grammar::trivia_end(b, i);
    grammar::lemma_trivia_end(b, i);
    lemma_trivia_end(b, t, i);
    assert((b + t)[j] == b[j]);
}

proof fn lemma_string_or_skip(b: Seq<u8>, t: Seq<u8>, i: int)
    requires
        0 <= i,
        grammar::string_or_skip(b, i) matches Ok((s, j)) && j < b.len(),
    ensures
        grammar::string_or_skip(b + t, i) == grammar::string_or_skip(b, i),
{
    grammar::lemma_string_or_skip(b, i);
    assert((b + t)[i] == b[i]);
    if b[i] == QUOTE {
        lemma_string_at(b, t, i);
    } else {
        lemma_value_end(b, t, i);
    }
}

/// A value that is there does not start with whitespace or a slash, once what
/// stands in front of it is passed over.
proof fn lemma_value_start(b: Seq<u8>, i: int)
    requires
        0 <= i < b.len(),
        grammar::trivia_end(b, i) == i,
        grammar::value_end(b, i) is Ok,
    ensures
        b[i] != SLASH,
{
}

proof fn lemma_items(b: Seq<u8>, t: Seq<u8>, i: int, found: Seq<Seq<char>>)
    requires
        0 <= i,
        grammar::items(b, i, found) is Ok,
    ensures
        grammar::items(b + t, i, found) == grammar::items(b, i, found),
    decreases grammar::left(b, i),
{
    let j = grammar::trivia_end(b, i);
    grammar::lemma_trivia_end(b, i);
    if grammar::byte_at(b, j) == Some(CLOSE_BRACKET) {
        lemma_trivia_end(b, t, i);
        assert((b + t)[j] == b[j]);
    } else {
        let (s, k) = grammar::string_or_skip(b, j)->Ok_0;
        grammar::lemma_string_or_skip(b, j);
        grammar::lemma_separator(b, k, CLOSE_BRACKET);
        lemma_separator(b, t, k, CLOSE_BRACKET);
        if b[j] != QUOTE {
            lemma_value_start(b, j);
        }
        lemma_trivia_end(b, t, i);
        assert((b + t)[j] == b[j]);
        lemma_string_or_skip(b, t, j);
        let (more, n) = grammar::separator(b, k, CLOSE_BRACKET)->Ok_0;
        if more {
            let now = match s {
                Some(text) => found.push(text),
                None => found,
            };
            lemma_items(b, t, n, now);
        }
    }
}

// ---------------------------------------------------------------------------
// Tasks and the document
// ---------------------------------------------------------------------------
proof fn lemma_task_field(b: Seq<u8>, t: Seq<u8>, i: int, key: Seq<char>, draft: Draft)
    requires
        0 <= i,
        grammar::trivia_end(b, i) == i,
        grammar::task_field(b, i, key, draft) matches Ok((d, j)) && j < b.len(),
    ensures
        grammar::task_field(b + t, i, key, draft) == grammar::task_field(b, i, key, draft),
        b[i] != SLASH,
{
    grammar::lemma_task_field(b, i, key, draft);
    assert((b + t)[i] == b[i]);
    if (key == "command"@ || key == "description"@) && b[i] == QUOTE {
        lemma_string_at(b, t, i);
    } else if key == "dependencies"@ && b[i] == OPEN_BRACKET {
        lemma_items(b, t, i + 1, draft.dependencies);
    } else {
        lemma_value_end(b, t, i);
    }
}

proof fn lemma_task_fields(b: Seq<u8>, t: Seq<u8>, i: int, draft: Draft)
    requires
        0 <= i,
        grammar::task_fields(b, i, draft) is Ok,
    ensures
        grammar::task_fields(b + t, i, draft) == grammar::task_fields(b, i, draft),
    decreases grammar::left(b, i),
{
    let j = grammar::trivia_end(b, i);
    grammar::lemma_trivia_end(b, i);
    lemma_trivia_end(b, t, i);
    assert((b + t)[j] == b[j]);
    if b[j] != CLOSE_BRACE {
        let (key, v) = grammar::key_at(b, j)->Ok_0;
        lemma_value_at(b, j);
        let (now, k) = grammar::task_field(b, v, key, draft)->Ok_0;
        grammar::lemma_task_field(b, v, key, draft);
        grammar::lemma_separator(b, k, CLOSE_BRACE);
        lemma_separator(b, t, k, CLOSE_BRACE);
        lemma_task_field(b, t, v, key, draft);
        lemma_key_at(b, t, j);
        let (more, n) = grammar::separator(b, k, CLOSE_BRACE)->Ok_0;
        if more {
            lemma_task_fields(b, t, n, now);
        }
    }
}

/// After a key, what stands in front of its value is passed over.
proof fn lemma_value_at(b: Seq<u8>, i: int)
    requires
        0 <= i,
        grammar::key_at(b, i) is Ok,
    ensures
        ({
            let v = grammar::key_at(b, i)->Ok_0.1;
            i < v <= b.len() && grammar::trivia_end(b, v) == v
        }),
{
    grammar::lemma_key_at(b, i);
    let (key, j) = grammar::string_at(b, i)->Ok_0;
    grammar::lemma_trivia_end(b, grammar::trivia_end(b, j) + 1);
}

proof fn lemma_task_at(b: Seq<u8>, t: Seq<u8>, i: int, name: Seq<char>)
    requires
        0 <= i,
        grammar::trivia_end(b, i) == i,
        grammar::task_at(b, i, name) matches Ok((task, j)) && j < b.len(),
    ensures
        grammar::task_at(b + t, i, name) == grammar::task_at(b, i, name),
        b[i] != SLASH,
{
    grammar::lemma_task_at(b, i, name);
    assert((b + t)[i] == b[i]);
    if b[i] == QUOTE {
        lemma_string_at(b, t, i);
    } else if b[i] == OPEN_BRACE {
        lemma_task_fields(b, t, i + 1, grammar::empty_draft());
    } else {
        lemma_value_end(b, t, i);
    }
}

proof fn lemma_entries(b: Seq<u8>, t: Seq<u8>, i: int, found: Seq<TaskView>)
    requires
        0 <= i,
        grammar::entries(b, i, found) is Ok,
    ensures
        grammar::entries(b + t, i, found) == grammar::entries(b, i, found),
    decreases grammar::left(b, i),
{
    let j = grammar::trivia_end(b, i);
    grammar::lemma_trivia_end(b, i);
    lemma_trivia_end(b, t, i);
    assert((b + t)[j] == b[j]);
    if b[j] != CLOSE_BRACE {
        let (name, v) = grammar::key_at(b, j)->Ok_0;
        lemma_value_at(b, j);
        let (task, k) = grammar::task_at(b, v, name)->Ok_0;
        grammar::lemma_task_at(b, v, name);
        grammar::lemma_separator(b, k, CLOSE_BRACE);
        lemma_separator(b, t, k, CLOSE_BRACE);
        lemma_task_at(b, t, v, name);
        lemma_key_at(b, t, j);
        let (more, n) = grammar::separator(b, k, CLOSE_BRACE)->Ok_0;
        if more {
            lemma_entries(b, t, n, grammar::with_task(found, task));
        }
    }
}

proof fn lemma_top_member(
    b: Seq<u8>,
    t: Seq<u8>,
    i: int,
    key: Seq<char>,
    task_key: Seq<char>,
    m: ManifestView,
)
    requires
        0 <= i,
        grammar::trivia_end(b, i) == i,
        grammar::top_member(b, i, key, task_key, m) matches Ok((now, j)) && j < b.len(),
    ensures
        grammar::top_member(b + t, i, key, task_key, m) == grammar::top_member(
            b,
            i,
            key,
            task_key,
            m,
        ),
        b[i] != SLASH,
{
    grammar::lemma_top_member(b, i, key, task_key, m);
    assert((b + t)[i] == b[i]);
    if key == task_key {
        lemma_trivia_end(b, t, i);
        lemma_entries(b, t, i + 1, Seq::empty());
    } else if key == "packageManager"@ {
        lemma_string_or_skip(b, t, i);
    } else {
        lemma_value_end(b, t, i);
    }
}

proof fn lemma_top_members(
    b: Seq<u8>,
    t: Seq<u8>,
    i: int,
    task_key: Seq<char>,
    m: ManifestView,
)
    requires
        0 <= i,
        grammar::top_members(b, i, task_key, m) is Ok,
    ensures
        grammar::top_members(b + t, i, task_key, m) == grammar::top_members(b, i, task_key, m),
    decreases grammar::left(b, i),
{
    let j = grammar::trivia_end(b, i);
    grammar::lemma_trivia_end(b, i);
    lemma_trivia_end(b, t, i);
    assert((b + t)[j] == b[j]);
    if b[j] != CLOSE_BRACE {
        let (key, v) = grammar::key_at(b, j)->Ok_0;
        lemma_value_at(b, j);
        let (now, k) = grammar::top_member(b, v, key, task_key, m)->Ok_0;
        grammar::lemma_top_member(b, v, key, task_key, m);
        grammar::lemma_separator(b, k, CLOSE_BRACE);
        lemma_separator(b, t, k, CLOSE_BRACE);
        lemma_top_member(b, t, v, key, task_key, m);
        lemma_key_at(b, t, j);
        let (more, n) = grammar::separator(b, k, CLOSE_BRACE)->Ok_0;
        if more {
            lemma_top_members(b, t, n, task_key, now);
        }
    }
}

/// The top level ends where it ends, whatever follows.
pub proof fn lemma_same_end(src: Seq<char>, tail: Seq<char>, task_key: Seq<char>)
    requires
        grammar::top_level(encode_utf8(src), task_key) is Ok,
    ensures
        grammar::top_level(encode_utf8(src + tail), task_key) == grammar::top_level(
            encode_utf8(src),
            task_key,
        ),
{
    let b = encode_utf8(src);
    let t = encode_utf8(tail);
    text::lemma_encode_concat(src, tail);
    let i = grammar::trivia_end(b, 0);
    grammar::lemma_trivia_end(b, 0);
    assert(grammar::byte_at(b, i) == Some(OPEN_BRACE));
    lemma_trivia_end(b, t, 0);
    assert((b + t)[i] == b[i]);
    lemma_top_members(b, t, i + 1, task_key, grammar::empty_manifest());
}

proof fn lemma_members_within(b: Seq<u8>, i: int, task_key: Seq<char>, m: ManifestView)
    ensures
        grammar::top_members(b, i, task_key, m) matches Ok((now, end)) ==> end <= b.len(),
    decreases grammar::left(b, i),
{
    let j = grammar::trivia_end(b, i);
    grammar::lemma_trivia_end(b, i);
    if grammar::byte_at(b, j) != Some(CLOSE_BRACE) {
        if let Ok((key, v)) = grammar::key_at(b, j) {
            grammar::lemma_key_at(b, j);
            grammar::lemma_top_member(b, v, key, task_key, m);
            if let Ok((now, k)) = grammar::top_member(b, v, key, task_key, m) {
                grammar::lemma_separator(b, k, CLOSE_BRACE);
                if let Ok((more, n)) = grammar::separator(b, k, CLOSE_BRACE) {
                    lemma_members_within(b, n, task_key, now);
                }
            }
        }
    }
}

/// The top level ends inside the text.
pub proof fn lemma_end_within(src: Seq<char>, task_key: Seq<char>)
    ensures
        grammar::top_level(encode_utf8(src), task_key) matches Ok((m, end)) ==> end
            <= encode_utf8(src).len(),
{
    let b = encode_utf8(src);
    lemma_members_within(b, grammar::trivia_end(b, 0) + 1, task_key, grammar::empty_manifest());
}

/// A text that reads as a manifest, with tasks or without, reads the same
/// whatever text is put after it.
pub proof fn nothing_after_a_manifest_matters(
    src: Seq<char>,
    tail: Seq<char>,
    task_key: Seq<char>,
)
    requires
        match grammar::document(src, task_key) {
            Ok(_) => true,
            Err(e) => e is NoTasks,
        },
    ensures
        grammar::document(src + tail, task_key) == grammar::document(src, task_key),
{
    lemma_same_end(src, tail, task_key);
}

} // verus!
