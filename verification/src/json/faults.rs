//! What is reported of a manifest that is malformed, and where.

use vstd::prelude::*;
use vstd::utf8::*;

use crate::json::grammar;
use crate::json::grammar::{Draft, ErrorView, Fault, ManifestView, Read, TaskView};
use crate::json::writing;
use crate::json::writing::Piece;

verus! {

/// Whether a read failed with this message at this offset.
pub open spec fn fails<T>(r: Read<T>, at: int, msg: Seq<char>) -> bool {
    r matches Err(f) && f.at == at && f.msg == msg
}

/// The messages that ask for one byte.
proof fn lemma_expected()
    ensures
        grammar::expected(0x22) == "expected '\"'"@,
        grammar::expected(0x3a) == "expected ':'"@,
        grammar::expected(0x5d) == "expected ']'"@,
        grammar::expected(0x7b) == "expected '{'"@,
        grammar::expected(0x7d) == "expected '}'"@,
{
    reveal_strlit("expected ");
    reveal_strlit("expected '\"'");
    reveal_strlit("expected ':'");
    reveal_strlit("expected ']'");
    reveal_strlit("expected '{'");
    reveal_strlit("expected '}'");
    assert(grammar::expected(0x22) =~= "expected '\"'"@);
    assert(grammar::expected(0x3a) =~= "expected ':'"@);
    assert(grammar::expected(0x5d) =~= "expected ']'"@);
    assert(grammar::expected(0x7b) =~= "expected '{'"@);
    assert(grammar::expected(0x7d) =~= "expected '}'"@);
}

// ---------------------------------------------------------------------------
// Comments
// ---------------------------------------------------------------------------
/// A line comment goes to the first line feed, or to the end if there is none.
pub proof fn line_comments_end_with_their_line(b: Seq<u8>, i: int)
    requires
        0 <= i <= b.len(),
    ensures
        i <= grammar::line_end(b, i) <= b.len(),
        forall|k: int| i <= k < grammar::line_end(b, i) ==> #[trigger] b[k] != 0x0a,
        grammar::line_end(b, i) < b.len() ==> b[grammar::line_end(b, i)] == 0x0a,
    decreases b.len() - i,
{
    if i < b.len() && b[i] != 0x0a {
        line_comments_end_with_their_line(b, i + 1);
    }
}

/// Whether `*/` stands at `k`.
pub open spec fn closes_comment(b: Seq<u8>, k: int) -> bool {
    0 <= k && k + 1 < b.len() && b[k] == 0x2a && b[k + 1] == 0x2f
}

/// A block comment goes to the first `*/`, or to the end if there is none.
pub proof fn block_comments_end_where_they_are_closed(b: Seq<u8>, i: int)
    requires
        0 <= i <= b.len(),
    ensures
        i <= grammar::block_end(b, i) <= b.len(),
        ({
            let end = grammar::block_end(b, i);
            ||| i <= end - 2 && closes_comment(b, end - 2) && forall|k: int|
                i <= k < end - 2 ==> !#[trigger] closes_comment(b, k)
            ||| end == b.len() && forall|k: int| i <= k ==> !#[trigger] closes_comment(b, k)
        }),
    decreases b.len() - i,
{
    if i < b.len() && !closes_comment(b, i) {
        block_comments_end_where_they_are_closed(b, i + 1);
    }
}

// ---------------------------------------------------------------------------
// Strings
// ---------------------------------------------------------------------------
/// Of the four digits of an escape, the first that is missing or is none is
/// reported where it should stand.
pub proof fn missing_digits_are_reported(b: Seq<u8>, i: int, k: int)
    requires
        0 <= i,
        0 <= k < 4,
        i + k <= b.len(),
        forall|j: int| i <= j < i + k ==> grammar::hex_digit(#[trigger] b[j]) is Some,
        i + k < b.len() ==> grammar::hex_digit(b[i + k]) is None,
    ensures
        fails(
            grammar::hex_digits(b, i, 4, 0),
            i + k,
            if i + k < b.len() {
                "bad hex digit"@
            } else {
                "short \\u escape"@
            },
        ),
        fails(
            grammar::unicode_escape(b, i),
            i + k,
            if i + k < b.len() {
                "bad hex digit"@
            } else {
                "short \\u escape"@
            },
        ),
{
    reveal_with_fuel(grammar::hex_digits, 5);
    if k > 0 {
        assert(grammar::hex_digit(b[i]) is Some);
    }
    if k > 1 {
        assert(grammar::hex_digit(b[i + 1]) is Some);
    }
    if k > 2 {
        assert(grammar::hex_digit(b[i + 2]) is Some);
    }
}

/// Half of a surrogate pair is no character: a first half must be followed by
/// an escape that is a second half, and a second half cannot stand alone.
pub proof fn lone_surrogates_are_reported(b: Seq<u8>, i: int, first: int)
    requires
        grammar::hex_digits(b, i, 4, 0) == Ok::<_, Fault>((first, i + 4)),
        0 <= i,
    ensures
        0xDC00 <= first < 0xE000 ==> fails(
            grammar::unicode_escape(b, i),
            i + 4,
            "invalid code point"@,
        ),
        0xD800 <= first < 0xDC00 && !(i + 5 < b.len() && b[i + 4] == 0x5c && b[i + 5] == 0x75)
            ==> fails(grammar::unicode_escape(b, i), i + 4, "unpaired high surrogate"@),
        0xD800 <= first < 0xDC00 && i + 5 < b.len() && b[i + 4] == 0x5c && b[i + 5] == 0x75
            ==> match grammar::hex_digits(b, i + 6, 4, 0) {
            Ok((second, _)) => !(0xDC00 <= second < 0xE000) ==> fails(
                grammar::unicode_escape(b, i),
                i + 10,
                "unpaired high surrogate"@,
            ),
            Err(f) => fails(grammar::unicode_escape(b, i), f.at, f.msg),
        },
{
    grammar::lemma_hex_digits(b, i + 6, 4, 0);
}

/// A backslash must be followed by something that can be escaped.
pub proof fn bad_escapes_are_reported(b: Seq<u8>, i: int)
    requires
        0 <= i <= b.len(),
    ensures
        i == b.len() ==> fails(grammar::escape(b, i), i, "unterminated escape"@),
        i < b.len() && grammar::short_escape(b[i]) is None && b[i] != 0x75 ==> fails(
            grammar::escape(b, i),
            i + 1,
            "bad escape "@ + grammar::shown(b[i]),
        ),
        i < b.len() && b[i] == 0x75 ==> grammar::escape(b, i) == grammar::unicode_escape(b, i + 1),
{
}

proof fn lemma_after_pieces(b: Seq<u8>, i: int, pieces: Seq<Piece>)
    requires
        writing::stands(b, i, writing::pieces_bytes(pieces)),
        writing::pieces_ok(pieces),
    ensures
        match grammar::string_body(b, i + writing::pieces_bytes(pieces).len()) {
            Err(f) => grammar::string_body(b, i) == Err::<(Seq<char>, int), _>(f),
            Ok(_) => grammar::string_body(b, i) is Ok,
        },
    decreases pieces.len(),
{
    if pieces.len() > 0 {
        let first = pieces[0].bytes();
        let others = pieces.drop_first();
        writing::lemma_stands_parts(b, i, first, writing::pieces_bytes(others));
        assert(writing::pieces_ok(others)) by {
            assert forall|k: int| 0 <= k < others.len() implies (#[trigger] others[k]).ok() by {
                assert(others[k] == pieces[k + 1]);
            }
        }
        writing::lemma_piece(b, i, pieces[0]);
        lemma_after_pieces(b, i + first.len(), others);
    }
}

/// A string that is not closed is reported at the end of the text, and one with
/// a bad escape where the escape is bad, whatever stands before it.
pub proof fn broken_strings_are_reported(b: Seq<u8>, i: int, pieces: Seq<Piece>)
    requires
        0 <= i,
        writing::stands(b, i, seq![0x22u8] + writing::pieces_bytes(pieces)),
        writing::pieces_ok(pieces),
    ensures
        ({
            let end = i + 1 + writing::pieces_bytes(pieces).len();
            &&& end == b.len() ==> fails(grammar::string_at(b, i), end, "unterminated string"@)
            &&& end < b.len() && b[end] == 0x5c ==> (grammar::escape(b, end + 1) matches Err(f)
                ==> fails(grammar::string_at(b, i), f.at, f.msg))
        }),
{
    let inside = writing::pieces_bytes(pieces);
    writing::lemma_stands_parts(b, i, seq![0x22u8], inside);
    writing::lemma_stands_first(b, i, seq![0x22u8]);
    lemma_after_pieces(b, i + 1, pieces);
}

/// What is no string is not taken for one.
pub proof fn strings_start_with_a_quote(b: Seq<u8>, i: int)
    requires
        0 <= i <= b.len(),
        i < b.len() ==> b[i] != 0x22,
    ensures
        fails(grammar::string_at(b, i), i, "expected '\"'"@),
        fails(grammar::key_at(b, i), i, "expected '\"'"@),
{
    lemma_expected();
}

// ---------------------------------------------------------------------------
// Values, keys and what stands between them
// ---------------------------------------------------------------------------
/// Where a value should stand, the end of the text and a byte that no value
/// starts with are reported.
pub proof fn missing_values_are_reported(b: Seq<u8>, i: int)
    ensures
        ({
            let j = grammar::trivia_end(b, i);
            &&& 0 <= i && j >= b.len() ==> grammar::value_end(b, i) == Err::<int, _>(
                Fault { at: j, msg: "unexpected end of input"@ },
            )
            &&& 0 <= j < b.len() && (b[j] == 0x2c || b[j] == 0x7d || b[j] == 0x5d || b[j] == 0x2f)
                ==> grammar::value_end(b, i) == Err::<int, _>(
                Fault { at: j, msg: "expected a value"@ },
            )
        }),
{
}

proof fn lemma_open_to_the_end(b: Seq<u8>, i: int, depth: int)
    requires
        0 <= i <= b.len(),
        forall|k: int| i <= k < b.len() ==> !grammar::closes(#[trigger] b[k]),
    ensures
        grammar::container_end(b, i, depth) is Err,
    decreases grammar::left(b, i),
{
    let j = grammar::trivia_end(b, i);
    grammar::lemma_trivia_end(b, i);
    if j < b.len() {
        assert(!grammar::closes(b[j]));
        grammar::lemma_string_body(b, j + 1);
        if grammar::opens(b[j]) {
            lemma_open_to_the_end(b, j + 1, depth + 1);
        } else if b[j] == 0x22 {
            if let Ok((_, k)) = grammar::string_at(b, j) {
                lemma_open_to_the_end(b, k, depth);
            }
        } else {
            lemma_open_to_the_end(b, j + 1, depth);
        }
    }
}

/// An object or array that is passed over must be closed: without a bracket
/// that could close it, it is refused.
pub proof fn open_brackets_are_refused(b: Seq<u8>, i: int)
    requires
        0 <= i < b.len(),
        b[i] == 0x7b || b[i] == 0x5b,
        forall|k: int| i < k < b.len() ==> #[trigger] b[k] != 0x7d && b[k] != 0x5d,
    ensures
        grammar::value_end(b, i) is Err,
{
    assert(grammar::trivia_end(b, i) == i);
    assert forall|k: int| i <= k < b.len() implies !grammar::closes(#[trigger] b[k]) by {
        assert(k > i ==> b[k] != 0x7d && b[k] != 0x5d);
    }
    lemma_open_to_the_end(b, i, 0);
}

/// Inside an object or array that is passed over, a bracket that opens goes one
/// deeper and one that closes comes one back up; strings are read, and their
/// faults reported; the end of the text is reported as what it is.
pub proof fn brackets_are_counted(b: Seq<u8>, i: int, depth: int)
    ensures
        ({
            let j = grammar::trivia_end(b, i);
            let r = grammar::container_end(b, i, depth);
            &&& 0 <= i && j >= b.len() ==> r == Err::<int, _>(
                Fault { at: j, msg: "unterminated object or array"@ },
            )
            &&& 0 <= j < b.len() && (b[j] == 0x7b || b[j] == 0x5b) ==> r == grammar::container_end(
                b,
                j + 1,
                depth + 1,
            )
            &&& 0 <= j < b.len() && (b[j] == 0x7d || b[j] == 0x5d) && depth > 1 ==> r
                == grammar::container_end(b, j + 1, depth - 1)
            &&& 0 <= j < b.len() && (b[j] == 0x7d || b[j] == 0x5d) && depth <= 1 ==> r == Ok::<
                _,
                Fault,
            >(j + 1)
            &&& 0 <= j < b.len() && b[j] == 0x22 ==> match grammar::string_at(b, j) {
                Err(f) => r == Err::<int, _>(f),
                Ok((_, k)) => r == grammar::container_end(b, k, depth),
            }
        }),
{
}

/// A key must be followed by a colon.
pub proof fn missing_colons_are_reported(b: Seq<u8>, i: int, key: Seq<char>, end: int)
    requires
        0 <= end,
        grammar::string_at(b, i) == Ok::<_, Fault>((key, end)),
        ({
            let j = grammar::trivia_end(b, end);
            j < b.len() ==> b[j] != 0x3a
        }),
    ensures
        fails(grammar::key_at(b, i), grammar::trivia_end(b, end), "expected ':'"@),
{
    lemma_expected();
    grammar::lemma_trivia_end(b, end);
}

/// After a member there must be a comma or the bracket that closes the whole:
/// the one that fits, and not the other.
pub proof fn missing_commas_are_reported(b: Seq<u8>, i: int)
    requires
        0 <= i,
    ensures
        ({
            let j = grammar::trivia_end(b, i);
            &&& !(j < b.len() && (b[j] == 0x2c || b[j] == 0x7d)) ==> fails(
                grammar::separator(b, i, 0x7d),
                j,
                "expected '}'"@,
            )
            &&& !(j < b.len() && (b[j] == 0x2c || b[j] == 0x5d)) ==> fails(
                grammar::separator(b, i, 0x5d),
                j,
                "expected ']'"@,
            )
            &&& j < b.len() && b[j] == 0x2c ==> grammar::separator(b, i, 0x7d) == Ok::<_, Fault>(
                (true, j + 1),
            ) && grammar::separator(b, i, 0x5d) == Ok::<_, Fault>((true, j + 1))
            &&& j < b.len() && b[j] == 0x7d ==> grammar::separator(b, i, 0x7d) == Ok::<_, Fault>(
                (false, j + 1),
            )
            &&& j < b.len() && b[j] == 0x5d ==> grammar::separator(b, i, 0x5d) == Ok::<_, Fault>(
                (false, j + 1),
            )
        }),
{
    lemma_expected();
    grammar::lemma_trivia_end(b, i);
}

/// The tasks must be an object.
pub proof fn tasks_must_be_an_object(b: Seq<u8>, i: int)
    requires
        0 <= i,
        ({
            let j = grammar::trivia_end(b, i);
            j < b.len() ==> b[j] != 0x7b
        }),
    ensures
        fails(grammar::tasks_at(b, i), grammar::trivia_end(b, i), "expected '{'"@),
{
    lemma_expected();
    grammar::lemma_trivia_end(b, i);
}

/// A manifest must be an object: whatever else its first byte is, apart from
/// whitespace and comments, is reported where it stands.
pub proof fn manifests_must_be_objects(src: Seq<char>, task_key: Seq<char>)
    requires
        ({
            let b = encode_utf8(src);
            let j = grammar::trivia_end(b, 0);
            j < b.len() ==> b[j] != 0x7b
        }),
    ensures
        grammar::document(src, task_key) matches Err(ErrorView::Syntax { at, msg }) && at
            == grammar::trivia_end(encode_utf8(src), 0) && msg == "expected '{'"@,
{
    lemma_expected();
    grammar::lemma_trivia_end(encode_utf8(src), 0);
}

// ---------------------------------------------------------------------------
// The first fault is the one that is reported
// ---------------------------------------------------------------------------
/// A fault in a member of the document is that of the document: in its key, in
/// its value, or after it.
pub proof fn faults_in_a_member_are_reported(
    b: Seq<u8>,
    i: int,
    task_key: Seq<char>,
    m: ManifestView,
    f: Fault,
)
    requires
        0 <= i,
        ({
            let j = grammar::trivia_end(b, i);
            j < b.len() ==> b[j] != 0x7d
        }),
        match grammar::key_at(b, grammar::trivia_end(b, i)) {
            Err(g) => f == g,
            Ok((key, v)) => match grammar::top_member(b, v, key, task_key, m) {
                Err(g) => f == g,
                Ok((now, k)) => match grammar::separator(b, k, 0x7d) {
                    Err(g) => f == g,
                    Ok((more, n)) => more && grammar::top_members(b, n, task_key, now) == Err::<
                        (ManifestView, int),
                        _,
                    >(f),
                },
            },
        },
    ensures
        grammar::top_members(b, i, task_key, m) == Err::<(ManifestView, int), _>(f),
{
    grammar::lemma_trivia_end(b, i);
}

/// A fault in the value of a member is that of the member, whether the value is
/// used or passed over.
pub proof fn faults_in_a_value_are_reported(
    b: Seq<u8>,
    i: int,
    key: Seq<char>,
    task_key: Seq<char>,
    m: ManifestView,
    f: Fault,
)
    requires
        0 <= i < b.len(),
        key == task_key ==> grammar::tasks_at(b, i) == Err::<(Seq<TaskView>, int), _>(f),
        key != task_key && key == "packageManager"@ && b[i] == 0x22 ==> grammar::string_at(b, i)
            == Err::<(Seq<char>, int), _>(f),
        key != task_key && !(key == "packageManager"@ && b[i] == 0x22) ==> grammar::value_end(b, i)
            == Err::<int, _>(f),
    ensures
        grammar::top_member(b, i, key, task_key, m) == Err::<(ManifestView, int), _>(f),
{
}

/// A fault in a task is that of the tasks: in its name, in its value, or after
/// it.
pub proof fn faults_in_a_task_are_reported(
    b: Seq<u8>,
    i: int,
    found: Seq<TaskView>,
    f: Fault,
)
    requires
        0 <= i,
        ({
            let j = grammar::trivia_end(b, i);
            j < b.len() ==> b[j] != 0x7d
        }),
        match grammar::key_at(b, grammar::trivia_end(b, i)) {
            Err(g) => f == g,
            Ok((name, v)) => match grammar::task_at(b, v, name) {
                Err(g) => f == g,
                Ok((t, k)) => match grammar::separator(b, k, 0x7d) {
                    Err(g) => f == g,
                    Ok((more, n)) => more && grammar::entries(
                        b,
                        n,
                        match t {
                            Some(task) => found.push(task),
                            None => found,
                        },
                    ) == Err::<(Seq<TaskView>, int), _>(f),
                },
            },
        },
    ensures
        grammar::entries(b, i, found) == Err::<(Seq<TaskView>, int), _>(f),
{
    grammar::lemma_trivia_end(b, i);
}

/// A fault in the value of a task is that of the task, whether the value is a
/// text, an object, or something that cannot be run.
pub proof fn faults_in_a_task_value_are_reported(b: Seq<u8>, i: int, name: Seq<char>, f: Fault)
    requires
        0 <= i < b.len(),
        b[i] == 0x22 ==> grammar::string_at(b, i) == Err::<(Seq<char>, int), _>(f),
        b[i] == 0x7b ==> forall|d: Draft|
            (d.command.len() == 0 && d.description.len() == 0 && d.dependencies.len() == 0)
                ==> #[trigger] grammar::task_fields(b, i + 1, d) == Err::<(Draft, int), _>(f),
        b[i] != 0x22 && b[i] != 0x7b ==> grammar::value_end(b, i) == Err::<int, _>(f),
    ensures
        grammar::task_at(b, i, name) == Err::<(Option<TaskView>, int), _>(f),
{
}

/// A fault in a field of a task is that of the task: in its key, in its value,
/// or after it.
pub proof fn faults_in_a_field_are_reported(b: Seq<u8>, i: int, draft: Draft, f: Fault)
    requires
        0 <= i,
        ({
            let j = grammar::trivia_end(b, i);
            j < b.len() ==> b[j] != 0x7d
        }),
        match grammar::key_at(b, grammar::trivia_end(b, i)) {
            Err(g) => f == g,
            Ok((key, v)) => match grammar::task_field(b, v, key, draft) {
                Err(g) => f == g,
                Ok((now, k)) => match grammar::separator(b, k, 0x7d) {
                    Err(g) => f == g,
                    Ok((more, n)) => more && grammar::task_fields(b, n, now) == Err::<
                        (Draft, int),
                        _,
                    >(f),
                },
            },
        },
    ensures
        grammar::task_fields(b, i, draft) == Err::<(Draft, int), _>(f),
{
    grammar::lemma_trivia_end(b, i);
}

/// A fault in the value of a field is that of the field, whether the value is
/// used or passed over.
pub proof fn faults_in_a_field_value_are_reported(
    b: Seq<u8>,
    i: int,
    key: Seq<char>,
    draft: Draft,
    f: Fault,
)
    requires
        0 <= i < b.len(),
        ({
            let text = b[i] == 0x22 && (key == "command"@ || key == "description"@);
            let list = b[i] == 0x5b && key == "dependencies"@;
            &&& text ==> grammar::string_at(b, i) == Err::<(Seq<char>, int), _>(f)
            &&& list ==> grammar::items(b, i + 1, draft.dependencies) == Err::<
                (Seq<Seq<char>>, int),
                _,
            >(f)
            &&& !text && !list ==> grammar::value_end(b, i) == Err::<int, _>(f)
        }),
    ensures
        grammar::task_field(b, i, key, draft) == Err::<(Draft, int), _>(f),
{
}

/// A fault in a dependency is that of the list: in the value, or after it.
pub proof fn faults_in_a_dependency_are_reported(
    b: Seq<u8>,
    i: int,
    found: Seq<Seq<char>>,
    f: Fault,
)
    requires
        0 <= i,
        ({
            let j = grammar::trivia_end(b, i);
            let text = j < b.len() && b[j] == 0x22;
            &&& j < b.len() ==> b[j] != 0x5d
            &&& text ==> match grammar::string_at(b, j) {
                Err(g) => f == g,
                Ok((s, k)) => match grammar::separator(b, k, 0x5d) {
                    Err(g) => f == g,
                    Ok((more, n)) => more && grammar::items(b, n, found.push(s)) == Err::<
                        (Seq<Seq<char>>, int),
                        _,
                    >(f),
                },
            }
            &&& !text ==> match grammar::value_end(b, j) {
                Err(g) => f == g,
                Ok(k) => match grammar::separator(b, k, 0x5d) {
                    Err(g) => f == g,
                    Ok((more, n)) => more && grammar::items(b, n, found) == Err::<
                        (Seq<Seq<char>>, int),
                        _,
                    >(f),
                },
            }
        }),
    ensures
        grammar::items(b, i, found) == Err::<(Seq<Seq<char>>, int), _>(f),
{
    grammar::lemma_trivia_end(b, i);
}

/// A fault in the members of a manifest is what reading it comes to.
pub proof fn faults_are_what_reading_comes_to(src: Seq<char>, task_key: Seq<char>, f: Fault)
    requires
        ({
            let b = encode_utf8(src);
            let j = grammar::trivia_end(b, 0);
            &&& j < b.len() && b[j] == 0x7b
            &&& forall|m: ManifestView|
                (m.tasks.len() == 0 && m.package_manager.len() == 0)
                    ==> #[trigger] grammar::top_members(b, j + 1, task_key, m) == Err::<
                    (ManifestView, int),
                    _,
                >(f)
        }),
    ensures
        grammar::document(src, task_key) == Err::<ManifestView, _>(
            ErrorView::Syntax { at: f.at, msg: f.msg },
        ),
{
    grammar::lemma_trivia_end(encode_utf8(src), 0);
}

} // verus!
