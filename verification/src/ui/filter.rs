//! Which tasks pass the filter.

use vstd::prelude::*;
use vstd::utf8::*;

use crate::json;
use crate::json::grammar::TaskView;
use crate::json::Task;
use crate::text;

verus! {

/// Whether `needle` stands at `k` in `haystack`.
pub open spec fn found_at<T>(haystack: Seq<T>, needle: Seq<T>, k: int) -> bool {
    &&& 0 <= k
    &&& k + needle.len() <= haystack.len()
    &&& haystack.subrange(k, k + needle.len()) == needle
}

/// Whether `needle` stands anywhere in `haystack`.
pub open spec fn contains<T>(haystack: Seq<T>, needle: Seq<T>) -> bool {
    exists|k: int| found_at(haystack, needle, k)
}

/// Whether `needle` stands anywhere in `haystack`, up to ASCII case.
pub open spec fn contains_folded(haystack: Seq<char>, needle: Seq<char>) -> bool {
    contains(text::folded(haystack), text::folded(needle))
}

/// Whether a task passes the filter: by its name or by its command.
pub open spec fn passes(task: TaskView, filter: Seq<char>) -> bool {
    contains_folded(task.name, filter) || contains_folded(task.command, filter)
}

/// The positions of those among the first `n` tasks that pass the filter, in
/// order.
pub open spec fn passing(tasks: Seq<TaskView>, filter: Seq<char>, n: nat) -> Seq<usize>
    decreases n,
{
    if n == 0 {
        Seq::empty()
    } else {
        let before = passing(tasks, filter, (n - 1) as nat);
        if passes(tasks[n - 1], filter) {
            before.push((n - 1) as usize)
        } else {
            before
        }
    }
}

/// The positions of the tasks that pass the filter, in order.
pub open spec fn shown(tasks: Seq<TaskView>, filter: Seq<char>) -> Seq<usize> {
    passing(tasks, filter, tasks.len())
}

// ---------------------------------------------------------------------------
// Folding and searching in bytes
// ---------------------------------------------------------------------------
pub open spec fn fold_byte(c: u8) -> u8 {
    if 0x41 <= c <= 0x5a {
        (c + 0x20) as u8
    } else {
        c
    }
}

pub open spec fn folded_bytes(s: Seq<u8>) -> Seq<u8> {
    s.map_values(|c: u8| fold_byte(c))
}

/// Folding one character folds the bytes that encode it.
proof fn lemma_fold_scalar(c: char)
    ensures
        encode_scalar(text::fold(c) as u32) == folded_bytes(encode_scalar(c as u32)),
{
    let v = c as u32;
    char_is_scalar(c);
    if has_width_1_encoding(v) {
        assert(leading_byte_width_1(v) == v) by (bit_vector)
            requires
                v <= 0x7f,
        ;
        let w = text::fold(c) as u32;
        assert(leading_byte_width_1(w) == w) by (bit_vector)
            requires
                w <= 0x7f,
        ;
    } else {
        assert((0xE0u8 | ((v >> 12) & 0x0F) as u8) >= 0x80) by (bit_vector);
        assert((0xF0u8 | ((v >> 18) & 0x7) as u8) >= 0x80) by (bit_vector);
        assert((0xC0u8 | ((v >> 6) & 0x1F) as u8) >= 0x80) by (bit_vector);
        assert((0x80u8 | (v & 0x3F) as u8) >= 0x80) by (bit_vector);
        assert((0x80u8 | ((v >> 6) & 0x3F) as u8) >= 0x80) by (bit_vector);
        assert((0x80u8 | ((v >> 12) & 0x3F) as u8) >= 0x80) by (bit_vector);
    }
    assert(encode_scalar(text::fold(c) as u32) =~= folded_bytes(encode_scalar(c as u32)));
}

/// Folding a text folds the bytes that encode it.
proof fn lemma_fold_encode(s: Seq<char>)
    ensures
        encode_utf8(text::folded(s)) == folded_bytes(encode_utf8(s)),
    decreases s.len(),
{
    if s.len() > 0 {
        lemma_fold_scalar(s[0]);
        lemma_fold_encode(s.drop_first());
        assert(text::folded(s).drop_first() =~= text::folded(s.drop_first()));
        assert(folded_bytes(encode_utf8(s)) =~= folded_bytes(encode_scalar(s[0] as u32))
            + folded_bytes(encode_utf8(s.drop_first())));
    } else {
        assert(folded_bytes(encode_utf8(s)) =~= encode_utf8(text::folded(s)));
    }
}

/// A text that stands in another stands there byte for byte.
proof fn lemma_found_in_bytes(haystack: Seq<char>, needle: Seq<char>)
    requires
        contains(haystack, needle),
    ensures
        contains(encode_utf8(haystack), encode_utf8(needle)),
{
    let h = encode_utf8(haystack);
    let n = encode_utf8(needle);
    let k = choose|k: int| found_at(haystack, needle, k);
    let head = haystack.subrange(0, k);
    let tail = haystack.subrange(k + needle.len(), haystack.len() as int);
    assert(haystack =~= head + (needle + tail));
    text::lemma_encode_concat(head, needle + tail);
    text::lemma_encode_concat(needle, tail);
    let m = encode_utf8(head).len() as int;
    assert(h.subrange(m, m + n.len()) =~= n);
    assert(found_at(h, n, m));
}

/// Where the bytes of a text stand in those of another, the bytes around them
/// are text too.
proof fn lemma_text_around(h: Seq<u8>, needle: Seq<char>, m: int)
    requires
        valid_utf8(h),
        needle.len() > 0,
        found_at(h, encode_utf8(needle), m),
    ensures
        valid_utf8(h.subrange(0, m)),
        valid_utf8(h.subrange(m + encode_utf8(needle).len(), h.len() as int)),
{
    let n = encode_utf8(needle);
    encode_utf8_valid_utf8(needle);
    encode_utf8_first_scalar(needle);
    assert(n[0] == h.subrange(m, m + n.len())[0]);
    is_char_boundary_iff_not_is_continuation_byte(h, m);
    valid_utf8_split(h, m);
    let r = h.subrange(m, h.len() as int);
    let t = r.subrange(n.len() as int, r.len() as int);
    assert(t =~= h.subrange(m + n.len(), h.len() as int));
    assert(r.subrange(0, n.len() as int) =~= n);
    if !valid_utf8(t) {
        partial_valid_partial_invalid_utf8(r, n.len() as int);
    }
}

/// A text whose bytes stand in those of another stands there.
proof fn lemma_found_in_text(haystack: Seq<char>, needle: Seq<char>)
    requires
        contains(encode_utf8(haystack), encode_utf8(needle)),
    ensures
        contains(haystack, needle),
{
    let h = encode_utf8(haystack);
    let n = encode_utf8(needle);
    let m = choose|m: int| found_at(h, n, m);
    if needle.len() == 0 {
        assert(haystack.subrange(0, 0) =~= needle);
        assert(found_at(haystack, needle, 0));
    } else {
        encode_utf8_valid_utf8(haystack);
        lemma_text_around(h, needle, m);
        let before = h.subrange(0, m);
        let after = h.subrange(m + n.len(), h.len() as int);
        let head = decode_utf8(before);
        let tail = decode_utf8(after);
        decode_utf8_encode_utf8(before);
        decode_utf8_encode_utf8(after);
        text::lemma_encode_concat(needle, tail);
        text::lemma_encode_concat(head, needle + tail);
        assert(h =~= before + (n + after));
        encode_utf8_decode_utf8(haystack);
        encode_utf8_decode_utf8(head + (needle + tail));
        assert(haystack == head + (needle + tail));
        assert(haystack.subrange(head.len() as int, (head.len() + needle.len()) as int) =~= needle);
        assert(found_at(haystack, needle, head.len() as int));
    }
}

/// One text stands in another just when its bytes stand in the other's bytes.
proof fn lemma_contains_bytes(haystack: Seq<char>, needle: Seq<char>)
    ensures
        contains(haystack, needle) <==> contains(encode_utf8(haystack), encode_utf8(needle)),
{
    if contains(haystack, needle) {
        lemma_found_in_bytes(haystack, needle);
    }
    if contains(encode_utf8(haystack), encode_utf8(needle)) {
        lemma_found_in_text(haystack, needle);
    }
}

fn fold_ascii(c: u8) -> (r: u8)
    ensures
        r == fold_byte(c),
{
    if 0x41 <= c && c <= 0x5a {
        c + 0x20
    } else {
        c
    }
}

/// `haystack.contains(needle)`, ignoring ASCII case, without allocating.
pub fn contains_ignore_ascii_case(haystack: &str, needle: &str) -> (r: bool)
    ensures
        r == contains_folded(haystack@, needle@),
{
    let h = haystack.as_bytes();
    let n = needle.as_bytes();
    let ghost fh = folded_bytes(h@);
    let ghost fneedle = folded_bytes(n@);
    proof {
        lemma_fold_encode(haystack@);
        lemma_fold_encode(needle@);
        lemma_contains_bytes(text::folded(haystack@), text::folded(needle@));
    }
    if h.len() < n.len() {
        return false;
    }
    let last: usize = h.len() - n.len();
    let mut k: usize = 0;
    loop
        invariant
            k <= last,
            last == h@.len() - n@.len(),
            h@.len() <= usize::MAX,
            fh == folded_bytes(h@),
            fneedle == folded_bytes(n@),
            contains(fh, fneedle) == contains_folded(haystack@, needle@),
            forall|m: int| 0 <= m < k ==> !found_at(fh, fneedle, m),
        decreases last - k,
    {
        let mut j: usize = 0;
        while j < n.len() && fold_ascii(h[k + j]) == fold_ascii(n[j])
            invariant
                j <= n@.len(),
                k + n@.len() <= h@.len() <= usize::MAX,
                forall|m: int| 0 <= m < j ==> fold_byte(h@[k + m]) == fold_byte(n@[m]),
            decreases n@.len() - j,
        {
            j = j + 1;
        }
        if j == n.len() {
            assert(fh.subrange(k as int, k + fneedle.len()) =~= fneedle);
            assert(found_at(fh, fneedle, k as int));
            return true;
        }
        proof {
            if found_at(fh, fneedle, k as int) {
                assert(fh.subrange(k as int, k + fneedle.len())[j as int] == fneedle[j as int]);
            }
        }
        if k == last {
            return false;
        }
        k = k + 1;
    }
}

/// Case-insensitive substring match over the name and command, which is what
/// filtering a script list actually needs.
///
/// Case is folded for ASCII only. Script and task names are ASCII in practice.
/// Non-ASCII characters still match, just case-sensitively.
pub fn matching(tasks: &[Task], filter: &str) -> (r: Vec<usize>)
    ensures
        r@ == shown(json::task_views(tasks@), filter@),
{
    let mut out: Vec<usize> = Vec::new();
    let mut i: usize = 0;
    while i < tasks.len()
        invariant
            i <= tasks@.len(),
            out@ == passing(json::task_views(tasks@), filter@, i as nat),
        decreases tasks@.len() - i,
    {
        if contains_ignore_ascii_case(tasks[i].name.as_str(), filter)
            || contains_ignore_ascii_case(tasks[i].command.as_str(), filter) {
            out.push(i);
        }
        i = i + 1;
    }
    out
}

} // verus!
