//! Small operations on text.

use vstd::prelude::*;
use vstd::string::*;
use vstd::utf8::*;

verus! {

/// Whether two texts are the same, character for character.
pub fn same_text(a: &str, b: &str) -> (r: bool)
    ensures
        r == (a@ == b@),
{
    let x = a.as_bytes();
    let y = b.as_bytes();
    proof {
        encode_utf8_decode_utf8(a@);
        encode_utf8_decode_utf8(b@);
    }
    if x.len() != y.len() {
        return false;
    }
    let mut i: usize = 0;
    while i < x.len()
        invariant
            x@.len() == y@.len(),
            i <= x@.len(),
            x@ == encode_utf8(a@),
            y@ == encode_utf8(b@),
            forall|j: int| 0 <= j < i ==> x@[j] == y@[j],
        decreases x@.len() - i,
    {
        if x[i] != y[i] {
            return false;
        }
        i = i + 1;
    }
    assert(x@ =~= y@);
    true
}

/// What each of the strings holds.
pub open spec fn texts(strings: Seq<String>) -> Seq<Seq<char>> {
    strings.map_values(|s: String| s@)
}

/// Whether one of the strings is `name`.
pub fn lists(strings: &Vec<String>, name: &str) -> (r: bool)
    ensures
        r == texts(strings@).contains(name@),
{
    let mut i: usize = 0;
    while i < strings.len()
        invariant
            i <= strings@.len(),
            forall|j: int| 0 <= j < i ==> strings@[j]@ != name@,
        decreases strings@.len() - i,
    {
        if same_text(strings[i].as_str(), name) {
            assert(texts(strings@)[i as int] == name@);
            return true;
        }
        i = i + 1;
    }
    false
}

/// The texts one after the other, with `sep` between each two.
pub open spec fn joined(texts: Seq<Seq<char>>, sep: Seq<char>) -> Seq<char>
    decreases texts.len(),
{
    if texts.len() == 0 {
        Seq::empty()
    } else if texts.len() == 1 {
        texts[0]
    } else {
        joined(texts.drop_last(), sep) + sep + texts.last()
    }
}

/// Puts the strings one after the other, with `sep` between each two.
pub fn join(strings: &Vec<String>, sep: &str) -> (r: String)
    ensures
        r@ == joined(texts(strings@), sep@),
{
    let mut out = String::new();
    let mut i: usize = 0;
    while i < strings.len()
        invariant
            i <= strings@.len(),
            out@ == joined(texts(strings@).take(i as int), sep@),
        decreases strings@.len() - i,
    {
        if i > 0 {
            out.append(sep);
        }
        out.append(strings[i].as_str());
        proof {
            let now = texts(strings@).take(i + 1);
            assert(now.drop_last() =~= texts(strings@).take(i as int));
            assert(now.last() == strings@[i as int]@);
            if i == 0 {
                assert(out@ =~= now[0]);
            }
        }
        i = i + 1;
    }
    assert(texts(strings@).take(i as int) =~= texts(strings@));
    out
}

/// A number as it is written in decimal.
pub open spec fn decimal(n: nat) -> Seq<char>
    decreases n,
{
    if n < 10 {
        seq![(0x30 + n) as char]
    } else {
        decimal(n / 10).push((0x30 + n % 10) as char)
    }
}

/// Writes a number in decimal at the end of `out`.
pub fn append_decimal(out: &mut String, n: usize)
    ensures
        final(out)@ == old(out)@ + decimal(n as nat),
    decreases n,
{
    if n >= 10 {
        append_decimal(out, n / 10);
    }
    let digit: u8 = 0x30 + (n % 10) as u8;
    out.push(digit as char);
    assert(out@ =~= old(out)@ + decimal(n as nat));
}

/// The text in front of the first `stop`, or all of it where there is none.
pub open spec fn before(s: Seq<char>, stop: char) -> Seq<char> {
    match s.index_of_first(stop) {
        Some(i) => s.take(i),
        None => s,
    }
}

/// The text in front of the first `stop`, or all of it where there is none.
pub fn up_to(s: &str, stop: char) -> (r: String)
    ensures
        r@ == before(s@, stop),
{
    let mut out = String::new();
    for c in it: s.chars()
        invariant
            it.seq() == s@,
            out@ == s@.take(it.index() as int),
            forall|j: int| 0 <= j < it.index() ==> s@[j] != stop,
    {
        if c == stop {
            proof {
                s@.index_of_first_ensures(stop);
            }
            return out;
        }
        out.push(c);
        assert(s@.take(it.index() + 1) =~= s@.take(it.index() as int).push(c));
    }
    proof {
        s@.index_of_first_ensures(stop);
        assert(s@.take(s@.len() as int) =~= s@);
    }
    out
}

/// The pieces of a text between the separators, empty ones among them. There
/// is one piece more than there are separators.
pub open spec fn pieces(s: Seq<char>, sep: char) -> Seq<Seq<char>>
    decreases s.len(),
{
    if s.len() == 0 {
        seq![Seq::empty()]
    } else {
        let before = pieces(s.drop_last(), sep);
        if s.last() == sep {
            before.push(Seq::empty())
        } else {
            before.drop_last().push(before.last().push(s.last()))
        }
    }
}

/// There is always at least one piece.
pub proof fn lemma_pieces_some(s: Seq<char>, sep: char)
    ensures
        pieces(s, sep).len() > 0,
    decreases s.len(),
{
    if s.len() > 0 {
        lemma_pieces_some(s.drop_last(), sep);
    }
}

/// Put together again with the separators between them, the pieces of a text
/// give the text.
pub proof fn pieces_make_up_the_text(s: Seq<char>, sep: char)
    ensures
        joined(pieces(s, sep), seq![sep]) == s,
    decreases s.len(),
{
    if s.len() > 0 {
        let head = s.drop_last();
        let before = pieces(head, sep);
        pieces_make_up_the_text(head, sep);
        lemma_pieces_some(head, sep);
        if s.last() == sep {
            let now = before.push(Seq::empty());
            assert(now.drop_last() =~= before);
            assert(joined(before, seq![sep]) + seq![sep] + Seq::<char>::empty() =~= s);
        } else {
            let now = before.drop_last().push(before.last().push(s.last()));
            assert(now.drop_last() =~= before.drop_last());
            assert(now.last() =~= before.last() + seq![s.last()]);
            assert(joined(now, seq![sep]) =~= joined(before, seq![sep]) + seq![s.last()]);
            assert(head + seq![s.last()] =~= s);
        }
    }
}

/// Whether `s` ends with `tail`.
pub fn ends_with(s: &str, tail: &str) -> (r: bool)
    ensures
        r == tail@.is_suffix_of(s@),
{
    let n: usize = s.unicode_len();
    let m: usize = tail.unicode_len();
    if n < m {
        return false;
    }
    let end = s.substring_char(n - m, n);
    same_text(end, tail)
}

/// A character with its case folded, for ASCII letters only.
pub open spec fn fold(c: char) -> char {
    if 'A' <= c <= 'Z' {
        (c as u32 + 0x20) as char
    } else {
        c
    }
}

/// A text with the case of its ASCII letters folded.
pub open spec fn folded(s: Seq<char>) -> Seq<char> {
    s.map_values(|c: char| fold(c))
}

/// A character with its case folded, for ASCII letters only.
pub fn fold_char(c: char) -> (r: char)
    ensures
        r == fold(c),
{
    if 'A' <= c && c <= 'Z' {
        (c as u8 + 0x20) as char
    } else {
        c
    }
}

/// A text with the case of its ASCII letters folded.
pub fn to_folded(s: &str) -> (r: String)
    ensures
        r@ == folded(s@),
{
    let mut out = String::new();
    for c in it: s.chars()
        invariant
            it.seq() == s@,
            out@ == folded(s@.take(it.index() as int)),
    {
        out.push(fold_char(c));
        assert(folded(s@.take(it.index() + 1)) =~= folded(s@.take(it.index() as int)).push(fold(c)));
    }
    assert(s@.take(s@.len() as int) =~= s@);
    out
}

/// `n` spaces.
pub open spec fn spaces(n: int) -> Seq<char> {
    Seq::new(
        (if n > 0 {
            n
        } else {
            0
        }) as nat,
        |i: int| ' ',
    )
}

/// `s` with spaces after it, up to `width` characters.
pub open spec fn padded(s: Seq<char>, width: int) -> Seq<char> {
    s + spaces(width - s.len())
}

/// Adds what is missing from `have` to `width` in spaces.
pub fn pad_to(out: &mut String, have: usize, width: usize)
    ensures
        final(out)@ == old(out)@ + spaces(width - have),
{
    let mut n: usize = have;
    while n < width
        invariant
            have <= n,
            have <= width ==> n <= width,
            have > width ==> n == have,
            out@ == old(out)@ + spaces(n - have),
        decreases width - n,
    {
        out.push(' ');
        n = n + 1;
        assert(out@ =~= old(out)@ + spaces(n - have));
    }
    assert(out@ =~= old(out)@ + spaces(width - have));
}

/// How many of the first `n` characters end a line.
pub open spec fn line_ends(s: Seq<char>, n: nat) -> int
    decreases n,
{
    if n == 0 {
        0
    } else {
        line_ends(s, (n - 1) as nat) + if s[n - 1] == '\n' {
            1int
        } else {
            0
        }
    }
}

/// How many lines a text takes up when it is written.
pub open spec fn height(s: Seq<char>) -> int {
    line_ends(s, s.len())
}

proof fn lemma_line_ends_front(a: Seq<char>, b: Seq<char>, n: nat)
    requires
        n <= a.len(),
    ensures
        line_ends(a + b, n) == line_ends(a, n),
    decreases n,
{
    if n > 0 {
        lemma_line_ends_front(a, b, (n - 1) as nat);
    }
}

proof fn lemma_line_ends_back(a: Seq<char>, b: Seq<char>, n: nat)
    requires
        n <= b.len(),
    ensures
        line_ends(a + b, a.len() + n) == height(a) + line_ends(b, n),
    decreases n,
{
    if n > 0 {
        lemma_line_ends_back(a, b, (n - 1) as nat);
        assert((a + b)[a.len() + n - 1] == b[n - 1]);
    } else {
        lemma_line_ends_front(a, b, a.len());
    }
}

/// Texts one after the other take up the lines of both.
pub proof fn lemma_height(a: Seq<char>, b: Seq<char>)
    ensures
        height(a + b) == height(a) + height(b),
{
    lemma_line_ends_back(a, b, b.len());
}

/// No text takes up fewer lines than none, or more than it has characters.
pub proof fn lemma_line_ends_bounds(s: Seq<char>, n: nat)
    ensures
        0 <= line_ends(s, n) <= n,
    decreases n,
{
    if n > 0 {
        lemma_line_ends_bounds(s, (n - 1) as nat);
    }
}

/// How many lines a text takes up when it is written.
pub fn count_lines(s: &str) -> (r: usize)
    ensures
        r == height(s@),
{
    let len: usize = s.unicode_len();
    let mut lines: usize = 0;
    for c in it: s.chars()
        invariant
            it.seq() == s@,
            len == s@.len(),
            lines == line_ends(s@, it.index() as nat),
    {
        proof {
            lemma_line_ends_bounds(s@, it.index() as nat);
        }
        if c == '\n' {
            lines = lines + 1;
        }
    }
    lines
}

/// Text put together is encoded as its parts are, put together.
pub proof fn lemma_encode_concat(a: Seq<char>, b: Seq<char>)
    ensures
        encode_utf8(a + b) == encode_utf8(a) + encode_utf8(b),
    decreases a.len(),
{
    if a.len() == 0 {
        assert(a + b =~= b);
        assert(encode_utf8(a) + encode_utf8(b) =~= encode_utf8(b));
    } else {
        assert((a + b).drop_first() =~= a.drop_first() + b);
        lemma_encode_concat(a.drop_first(), b);
        assert(encode_utf8(a + b) =~= encode_utf8(a) + encode_utf8(b));
    }
}

// ---------------------------------------------------------------------------
// What holds of them
// ---------------------------------------------------------------------------
/// What strings hold is taken one by one.
pub proof fn texts_are_taken_one_by_one(strings: Seq<String>)
    ensures
        texts(strings).len() == strings.len(),
        forall|i: int| 0 <= i < strings.len() ==> #[trigger] texts(strings)[i] == strings[i]@,
{
}

/// Folding moves each ASCII capital to its small letter and nothing else.
pub proof fn folding_moves_ascii_capitals_only(s: Seq<char>, i: int)
    requires
        0 <= i < s.len(),
    ensures
        folded(s).len() == s.len(),
        'A' <= s[i] <= 'Z' ==> folded(s)[i] as int == s[i] as int + ('a' as int - 'A' as int),
        !('A' <= s[i] <= 'Z') ==> folded(s)[i] == s[i],
{
}

/// Texts put together fold as their parts do.
pub proof fn folding_keeps_parts(a: Seq<char>, b: Seq<char>)
    ensures
        folded(a + b) == folded(a) + folded(b),
{
    assert(folded(a + b) =~= folded(a) + folded(b));
}

/// Padding leaves the text in front, and adds spaces up to the width and no
/// further.
pub proof fn padding_adds_spaces_up_to_the_width(s: Seq<char>, width: int)
    ensures
        padded(s, width).len() >= s.len(),
        padded(s, width).len() == s.len() || padded(s, width).len() == width,
        padded(s, width).len() >= width,
        s.is_prefix_of(padded(s, width)),
        forall|i: int| s.len() <= i < padded(s, width).len() ==> padded(s, width)[i] == ' ',
{
}

/// The number that decimal digits write.
pub open spec fn decimal_value(digits: Seq<char>) -> int
    decreases digits.len(),
{
    if digits.len() == 0 {
        0
    } else {
        decimal_value(digits.drop_last()) * 10 + (digits.last() as int - '0' as int)
    }
}

/// A number is written in digits, the first of which is zero only for zero, and
/// the digits write that number.
pub proof fn decimals_read_back(n: nat)
    ensures
        decimal_value(decimal(n)) == n,
        decimal(n).len() > 0,
        forall|i: int| 0 <= i < decimal(n).len() ==> '0' <= #[trigger] decimal(n)[i] <= '9',
        decimal(n)[0] == '0' ==> n == 0 && decimal(n).len() == 1,
    decreases n,
{
    if n < 10 {
        assert(decimal(n).drop_last() =~= Seq::<char>::empty());
        reveal_with_fuel(decimal_value, 2);
    } else {
        decimals_read_back(n / 10);
        assert(decimal(n).drop_last() =~= decimal(n / 10));
        assert(decimal(n)[0] == decimal(n / 10)[0]);
    }
}

/// Joining one text gives that text, and joining two lists gives what joining
/// each gives, with the separator between them.
pub proof fn joining_puts_the_separator_between(
    a: Seq<Seq<char>>,
    b: Seq<Seq<char>>,
    one: Seq<char>,
    sep: Seq<char>,
)
    requires
        a.len() > 0,
        b.len() > 0,
    ensures
        joined(Seq::empty(), sep).len() == 0,
        joined(seq![one], sep) == one,
        joined(a + b, sep) == joined(a, sep) + sep + joined(b, sep),
    decreases b.len(),
{
    let all = a + b;
    assert(all.drop_last() =~= a + b.drop_last());
    assert(all.last() == b.last());
    if b.len() == 1 {
        assert(a + b.drop_last() =~= a);
    } else {
        joining_puts_the_separator_between(a, b.drop_last(), one, sep);
        assert(joined(all, sep) =~= joined(a, sep) + sep + joined(b, sep));
    }
}

/// What stands before the first `stop` holds none, starts the text, and is
/// followed by one unless it is the whole text.
pub proof fn cutting_stops_at_the_first(s: Seq<char>, stop: char)
    ensures
        !before(s, stop).contains(stop),
        before(s, stop).is_prefix_of(s),
        before(s, stop).len() < s.len() ==> s[before(s, stop).len() as int] == stop,
{
    s.index_of_first_ensures(stop);
    let head = before(s, stop);
    if head.contains(stop) {
        let i = choose|i: int| 0 <= i < head.len() && head[i] == stop;
        assert(s[i] == stop);
        assert(s.contains(stop));
    }
}

/// No piece holds a separator.
pub proof fn pieces_hold_no_separator(s: Seq<char>, sep: char)
    ensures
        pieces(s, sep).len() > 0,
        forall|i: int| 0 <= i < pieces(s, sep).len() ==> !(#[trigger] pieces(s, sep)[i]).contains(
            sep,
        ),
    decreases s.len(),
{
    if s.len() > 0 {
        let before = pieces(s.drop_last(), sep);
        let now = pieces(s, sep);
        pieces_hold_no_separator(s.drop_last(), sep);
        assert forall|i: int| 0 <= i < now.len() implies !(#[trigger] now[i]).contains(sep) by {
            if i < now.len() - 1 {
                assert(now[i] == before[i]);
            } else if s.last() != sep {
                let piece = before.last();
                assert(!before[before.len() - 1].contains(sep));
                assert forall|x: int| 0 <= x < now[i].len() implies now[i][x] != sep by {
                    if x < piece.len() {
                        assert(piece.contains(piece[x]));
                    }
                }
            }
        }
    }
}

/// Texts without separators come back as the pieces of what joining them gives.
pub proof fn joined_texts_come_back_as_pieces(parts: Seq<Seq<char>>, sep: char)
    requires
        parts.len() > 0,
        forall|i: int| 0 <= i < parts.len() ==> !(#[trigger] parts[i]).contains(sep),
    ensures
        pieces(joined(parts, seq![sep]), sep) == parts,
    decreases parts.len(),
{
    let last = parts.last();
    assert(parts[parts.len() - 1] == last);
    if parts.len() == 1 {
        lemma_pieces_plain(Seq::empty(), last, sep);
        assert(Seq::<char>::empty() + last =~= last);
        assert(pieces(last, sep) =~= parts);
    } else {
        let head = parts.drop_last();
        joined_texts_come_back_as_pieces(head, sep);
        let front = joined(head, seq![sep]) + seq![sep];
        assert(front.drop_last() =~= joined(head, seq![sep]));
        lemma_pieces_plain(front, last, sep);
        assert(pieces(front + last, sep) =~= parts);
    }
}

/// Text without separators goes on with the last piece.
proof fn lemma_pieces_plain(front: Seq<char>, more: Seq<char>, sep: char)
    requires
        !more.contains(sep),
    ensures
        pieces(front + more, sep) == pieces(front, sep).drop_last().push(
            pieces(front, sep).last() + more,
        ),
        pieces(front, sep).len() > 0,
    decreases more.len(),
{
    lemma_pieces_some(front, sep);
    if more.len() == 0 {
        assert(front + more =~= front);
        assert(pieces(front, sep).last() + more =~= pieces(front, sep).last());
        assert(pieces(front, sep).drop_last().push(pieces(front, sep).last()) =~= pieces(
            front,
            sep,
        ));
    } else {
        let less = more.drop_last();
        assert forall|i: int| 0 <= i < less.len() implies less[i] != sep by {
            assert(more.contains(more[i]));
        }
        lemma_pieces_plain(front, less, sep);
        assert(more.contains(more.last()));
        assert((front + more).drop_last() =~= front + less);
        assert((front + more).last() == more.last());
        assert(pieces(front, sep).last() + less.push(more.last()) =~= (pieces(front, sep).last()
            + less).push(more.last()));
        assert(less.push(more.last()) =~= more);
        let x = pieces(front, sep).last() + less;
        assert(pieces(front, sep).drop_last().push(x).drop_last() =~= pieces(
            front,
            sep,
        ).drop_last());
    }
}

/// Every line break is a line, and nothing else is.
pub proof fn line_breaks_are_the_lines(c: char)
    ensures
        height(Seq::empty()) == 0,
        height(seq![c]) == if c == '\n' {
            1int
        } else {
            0
        },
{
    reveal_with_fuel(line_ends, 2);
}

} // verus!
