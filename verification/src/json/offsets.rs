//! Where the faults point.

use vstd::prelude::*;
use vstd::utf8::*;

use crate::json::grammar;
use crate::json::grammar::{
    Draft, ErrorView, Fault, ManifestView, TaskView, CLOSE_BRACE, CLOSE_BRACKET, OPEN_BRACE, QUOTE,
};

verus! {

/// Whether a fault points into the bytes, or at their end.
pub open spec fn within(b: Seq<u8>, f: Fault) -> bool {
    0 <= f.at <= b.len()
}

proof fn lemma_hex_digits(b: Seq<u8>, i: int, n: nat, high: int)
    requires
        0 <= i <= b.len(),
        0 <= high,
    ensures
        match grammar::hex_digits(b, i, n, high) {
            Err(f) => within(b, f),
            Ok((v, j)) => j == i + n && j <= b.len() && (n > 0 ==> b[j - 1] < 0x80),
        },
    decreases n,
{
    if n > 0 && i < b.len() {
        if let Some(d) = grammar::hex_digit(b[i]) {
            lemma_hex_digits(b, i + 1, (n - 1) as nat, high * 16 + d);
        }
    }
}

proof fn lemma_escape(b: Seq<u8>, i: int)
    requires
        0 <= i <= b.len(),
    ensures
        match grammar::escape(b, i) {
            Err(f) => within(b, f),
            Ok((c, j)) => i < j <= b.len() && b[j - 1] < 0x80,
        },
{
    if i < b.len() {
        lemma_hex_digits(b, i + 1, 4, 0);
        if let Ok((first, j)) = grammar::hex_digits(b, i + 1, 4, 0) {
            if j + 2 <= b.len() {
                lemma_hex_digits(b, j + 2, 4, 0);
            }
        }
    }
}

/// Text can be cut after an ASCII byte.
proof fn lemma_rest_after_ascii(b: Seq<u8>, i: int)
    requires
        valid_utf8(b),
        0 <= i < b.len(),
        b[i] < 0x80,
    ensures
        valid_utf8(grammar::rest(b, i + 1)),
{
    grammar::lemma_rest_at_ascii(b, i);
    grammar::lemma_rest_step(b, i);
}

proof fn lemma_string_body(b: Seq<u8>, i: int)
    requires
        valid_utf8(b),
        0 <= i <= b.len(),
        valid_utf8(grammar::rest(b, i)),
    ensures
        grammar::string_body(b, i) matches Err(f) ==> within(b, f),
    decreases b.len() - i,
{
    if i < b.len() && b[i] != QUOTE {
        lemma_escape(b, i + 1);
        grammar::lemma_rest_step(b, i);
        if let Ok((c, j)) = grammar::string_char(b, i) {
            if b[i] == grammar::BACKSLASH {
                lemma_rest_after_ascii(b, j - 1);
            }
            lemma_string_body(b, j);
        }
    }
}

proof fn lemma_string_at(b: Seq<u8>, i: int)
    requires
        valid_utf8(b),
        0 <= i <= b.len(),
    ensures
        match grammar::string_at(b, i) {
            Err(f) => within(b, f),
            Ok((s, j)) => i < j <= b.len(),
        },
{
    if grammar::byte_at(b, i) == Some(QUOTE) {
        lemma_rest_after_ascii(b, i);
        lemma_string_body(b, i + 1);
        grammar::lemma_string_body(b, i + 1);
    }
}

proof fn lemma_container_end(b: Seq<u8>, i: int, depth: int)
    requires
        valid_utf8(b),
        0 <= i <= b.len(),
    ensures
        grammar::container_end(b, i, depth) matches Err(f) ==> within(b, f),
    decreases b.len() - i,
{
    let j = grammar::trivia_end(b, i);
    grammar::lemma_trivia_end(b, i);
    if j < b.len() {
        lemma_string_at(b, j);
        if grammar::opens(b[j]) {
            lemma_container_end(b, j + 1, depth + 1);
        } else if grammar::closes(b[j]) {
            if depth > 1 {
                lemma_container_end(b, j + 1, depth - 1);
            }
        } else if b[j] == QUOTE {
            if let Ok((s, k)) = grammar::string_at(b, j) {
                lemma_container_end(b, k, depth);
            }
        } else {
            lemma_container_end(b, j + 1, depth);
        }
    }
}

proof fn lemma_value_end(b: Seq<u8>, i: int)
    requires
        valid_utf8(b),
        0 <= i <= b.len(),
    ensures
        match grammar::value_end(b, i) {
            Err(f) => within(b, f),
            Ok(j) => i < j <= b.len(),
        },
{
    let j = grammar::trivia_end(b, i);
    grammar::lemma_trivia_end(b, i);
    lemma_string_at(b, j);
    lemma_container_end(b, j, 0);
    grammar::lemma_value_end(b, i);
}

proof fn lemma_key_at(b: Seq<u8>, i: int)
    requires
        valid_utf8(b),
        0 <= i <= b.len(),
    ensures
        match grammar::key_at(b, i) {
            Err(f) => within(b, f),
            Ok((key, j)) => i < j <= b.len(),
        },
{
    lemma_string_at(b, i);
    grammar::lemma_key_at(b, i);
    if let Ok((key, j)) = grammar::string_at(b, i) {
        grammar::lemma_trivia_end(b, j);
    }
}

proof fn lemma_separator(b: Seq<u8>, i: int, close: u8)
    requires
        0 <= i <= b.len(),
    ensures
        match grammar::separator(b, i, close) {
            Err(f) => within(b, f),
            Ok((more, j)) => i < j <= b.len(),
        },
{
    grammar::lemma_trivia_end(b, i);
}

proof fn lemma_items(b: Seq<u8>, i: int, found: Seq<Seq<char>>)
    requires
        valid_utf8(b),
        0 <= i <= b.len(),
    ensures
        grammar::items(b, i, found) matches Err(f) ==> within(b, f),
    decreases b.len() - i,
{
    let j = grammar::trivia_end(b, i);
    grammar::lemma_trivia_end(b, i);
    lemma_string_at(b, j);
    lemma_value_end(b, j);
    if grammar::byte_at(b, j) == Some(CLOSE_BRACKET) {
    } else if let Ok((s, k)) = grammar::string_or_skip(b, j) {
        lemma_separator(b, k, CLOSE_BRACKET);
        if let Ok((more, n)) = grammar::separator(b, k, CLOSE_BRACKET) {
            let now = match s {
                Some(text) => found.push(text),
                None => found,
            };
            lemma_items(b, n, now);
        }
    }
}

proof fn lemma_task_field(b: Seq<u8>, i: int, key: Seq<char>, draft: Draft)
    requires
        valid_utf8(b),
        0 <= i <= b.len(),
    ensures
        match grammar::task_field(b, i, key, draft) {
            Err(f) => within(b, f),
            Ok((d, j)) => i < j <= b.len(),
        },
{
    lemma_string_at(b, i);
    lemma_value_end(b, i);
    grammar::lemma_task_field(b, i, key, draft);
    if i < b.len() {
        lemma_items(b, i + 1, draft.dependencies);
    }
}

proof fn lemma_task_fields(b: Seq<u8>, i: int, draft: Draft)
    requires
        valid_utf8(b),
        0 <= i <= b.len(),
    ensures
        grammar::task_fields(b, i, draft) matches Err(f) ==> within(b, f),
    decreases b.len() - i,
{
    let j = grammar::trivia_end(b, i);
    grammar::lemma_trivia_end(b, i);
    lemma_key_at(b, j);
    if grammar::byte_at(b, j) == Some(CLOSE_BRACE) {
    } else if let Ok((key, v)) = grammar::key_at(b, j) {
        lemma_task_field(b, v, key, draft);
        if let Ok((now, k)) = grammar::task_field(b, v, key, draft) {
            lemma_separator(b, k, CLOSE_BRACE);
            if let Ok((more, n)) = grammar::separator(b, k, CLOSE_BRACE) {
                lemma_task_fields(b, n, now);
            }
        }
    }
}

proof fn lemma_task_at(b: Seq<u8>, i: int, name: Seq<char>)
    requires
        valid_utf8(b),
        0 <= i <= b.len(),
    ensures
        match grammar::task_at(b, i, name) {
            Err(f) => within(b, f),
            Ok((t, j)) => i < j <= b.len(),
        },
{
    lemma_string_at(b, i);
    lemma_value_end(b, i);
    grammar::lemma_task_at(b, i, name);
    if i < b.len() {
        lemma_task_fields(b, i + 1, grammar::empty_draft());
    }
}

proof fn lemma_entries(b: Seq<u8>, i: int, found: Seq<TaskView>)
    requires
        valid_utf8(b),
        0 <= i <= b.len(),
    ensures
        grammar::entries(b, i, found) matches Err(f) ==> within(b, f),
    decreases b.len() - i,
{
    let j = grammar::trivia_end(b, i);
    grammar::lemma_trivia_end(b, i);
    lemma_key_at(b, j);
    if grammar::byte_at(b, j) == Some(CLOSE_BRACE) {
    } else if let Ok((name, v)) = grammar::key_at(b, j) {
        lemma_task_at(b, v, name);
        if let Ok((t, k)) = grammar::task_at(b, v, name) {
            lemma_separator(b, k, CLOSE_BRACE);
            if let Ok((more, n)) = grammar::separator(b, k, CLOSE_BRACE) {
                lemma_entries(b, n, grammar::with_task(found, t));
            }
        }
    }
}

proof fn lemma_top_member(
    b: Seq<u8>,
    i: int,
    key: Seq<char>,
    task_key: Seq<char>,
    m: ManifestView,
)
    requires
        valid_utf8(b),
        0 <= i <= b.len(),
    ensures
        match grammar::top_member(b, i, key, task_key, m) {
            Err(f) => within(b, f),
            Ok((now, j)) => i < j <= b.len(),
        },
{
    let j = grammar::trivia_end(b, i);
    grammar::lemma_trivia_end(b, i);
    lemma_string_at(b, i);
    lemma_value_end(b, i);
    grammar::lemma_top_member(b, i, key, task_key, m);
    if j < b.len() {
        lemma_entries(b, j + 1, Seq::empty());
    }
}

proof fn lemma_top_members(b: Seq<u8>, i: int, task_key: Seq<char>, m: ManifestView)
    requires
        valid_utf8(b),
        0 <= i <= b.len(),
    ensures
        grammar::top_members(b, i, task_key, m) matches Err(f) ==> within(b, f),
    decreases b.len() - i,
{
    let j = grammar::trivia_end(b, i);
    grammar::lemma_trivia_end(b, i);
    lemma_key_at(b, j);
    if grammar::byte_at(b, j) == Some(CLOSE_BRACE) {
    } else if let Ok((key, v)) = grammar::key_at(b, j) {
        lemma_top_member(b, v, key, task_key, m);
        if let Ok((now, k)) = grammar::top_member(b, v, key, task_key, m) {
            lemma_separator(b, k, CLOSE_BRACE);
            if let Ok((more, n)) = grammar::separator(b, k, CLOSE_BRACE) {
                lemma_top_members(b, n, task_key, now);
            }
        }
    }
}

/// A syntax error points at a byte of the manifest, or right after the last.
pub proof fn syntax_errors_point_into_the_text(src: Seq<char>, task_key: Seq<char>)
    ensures
        grammar::document(src, task_key) matches Err(ErrorView::Syntax { at, msg }) ==> 0 <= at
            <= encode_utf8(src).len(),
{
    let b = encode_utf8(src);
    encode_utf8_valid_utf8(src);
    grammar::lemma_trivia_end(b, 0);
    let i = grammar::trivia_end(b, 0);
    if grammar::byte_at(b, i) == Some(OPEN_BRACE) {
        lemma_top_members(b, i + 1, task_key, grammar::empty_manifest());
    }
}

/// A manifest that is read has something to run.
pub proof fn read_manifests_have_tasks(src: Seq<char>, task_key: Seq<char>)
    ensures
        grammar::document(src, task_key) matches Ok(m) ==> m.tasks.len() > 0,
{
}

} // verus!
