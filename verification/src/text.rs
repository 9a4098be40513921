//! Facts about UTF-8 text that the lexer and the diagnostics rest on.
//!
//! Positions are byte offsets. A `&str` can only be cut at the start of a
//! character, so every cut made by this crate is shown to fall on one: it is
//! made right before or right after an ASCII byte.

use vstd::prelude::*;
use vstd::string::*;
use vstd::utf8::*;

verus! {

/// The length of `s` in bytes.
pub fn byte_len(s: &str) -> (n: usize)
    ensures
        n == s.spec_bytes().len(),
{
    s.as_bytes().len()
}

/// In well-formed UTF-8 an ASCII byte is a character of its own: one
/// character starts at it, and the next starts (or the text ends) right after
/// it.
pub proof fn lemma_ascii_byte_is_bounded(text: Seq<u8>, i: int)
    requires
        valid_utf8(text),
        0 <= i < text.len(),
        text[i] <= 0x7f,
    ensures
        is_char_boundary(text, i),
        is_char_boundary(text, i + 1),
{
    is_char_boundary_iff_not_is_continuation_byte(text, i);
    if i + 1 == text.len() {
        is_char_boundary_start_end_of_seq(text);
    } else {
        // The text from byte `i` on is well formed and starts with a
        // character of one byte. What follows that character is well formed
        // too, so it starts with a leading byte: byte `i + 1` of the text.
        valid_utf8_split(text, i);
        assert(valid_utf8(pop_first_scalar(text.subrange(i, text.len() as int))));
        is_char_boundary_iff_not_is_continuation_byte(text, i + 1);
    }
}

/// Whether `c` is white space: what `char::is_whitespace` returns for it.
pub uninterp spec fn is_white_space(c: char) -> bool;

/// `s` without the white space that it starts with.
pub open spec fn trimmed_start(s: Seq<char>) -> Seq<char>
    decreases s.len(),
{
    if s.len() > 0 && is_white_space(s[0]) {
        trimmed_start(s.drop_first())
    } else {
        s
    }
}

/// `s` without the white space that it ends with.
pub open spec fn trimmed_end(s: Seq<char>) -> Seq<char>
    decreases s.len(),
{
    if s.len() > 0 && is_white_space(s.last()) {
        trimmed_end(s.drop_last())
    } else {
        s
    }
}

/// `str::trim_start`: the text without the white space that it starts with,
/// white space being what `char::is_whitespace` says it is. What is left
/// does not start with white space.
#[verifier::external_body]
pub(crate) fn trim_start<'a>(s: &'a str) -> (r: &'a str)
    ensures
        r@ == trimmed_start(s@),
        r@.len() > 0 ==> !is_white_space(r@[0]),
{
    s.trim_start()
}

/// `str::trim_end`: the text without the white space that it ends with,
/// white space being what `char::is_whitespace` says it is. What is left
/// does not end with white space.
#[verifier::external_body]
pub(crate) fn trim_end<'a>(s: &'a str) -> (r: &'a str)
    ensures
        r@ == trimmed_end(s@),
        r@.len() > 0 ==> !is_white_space(r@.last()),
{
    s.trim_end()
}

/// Trimming at the start drops characters from the start: as many as there
/// are white space characters before the first character that is none.
pub proof fn lemma_trimmed_start(s: Seq<char>)
    ensures
        trimmed_start(s).len() <= s.len(),
        trimmed_start(s) == s.skip(s.len() - trimmed_start(s).len()),
        forall|i: int| 0 <= i < s.len() - trimmed_start(s).len() ==> is_white_space(s[i]),
        trimmed_start(s).len() > 0 ==> !is_white_space(trimmed_start(s)[0]),
    decreases s.len(),
{
    if s.len() > 0 && is_white_space(s[0]) {
        let rest = s.drop_first();
        lemma_trimmed_start(rest);
        let dropped = rest.len() - trimmed_start(rest).len();
        assert forall|i: int| 0 <= i < dropped + 1 implies is_white_space(s[i]) by {
            if i > 0 {
                assert(s[i] == rest[i - 1]);
            }
        }
    }
}

/// Trimming at the end drops characters from the end: as many as there are
/// white space characters after the last character that is none.
pub proof fn lemma_trimmed_end(s: Seq<char>)
    ensures
        trimmed_end(s).len() <= s.len(),
        trimmed_end(s) == s.take(trimmed_end(s).len() as int),
        forall|i: int| trimmed_end(s).len() <= i < s.len() ==> is_white_space(s[i]),
        trimmed_end(s).len() > 0 ==> !is_white_space(trimmed_end(s).last()),
    decreases s.len(),
{
    if s.len() > 0 && is_white_space(s.last()) {
        let rest = s.drop_last();
        lemma_trimmed_end(rest);
        let kept = trimmed_end(rest).len() as int;
        assert forall|i: int| kept <= i < s.len() implies is_white_space(s[i]) by {
            if i < rest.len() {
                assert(s[i] == rest[i]);
            }
        }
    }
}

/// The bytes of two texts, one after the other, are the bytes of the texts
/// joined.
pub proof fn lemma_encode_utf8_concat(a: Seq<char>, b: Seq<char>)
    ensures
        encode_utf8(a + b) == encode_utf8(a) + encode_utf8(b),
    decreases a.len(),
{
    if a.len() > 0 {
        lemma_encode_utf8_concat(a.drop_first(), b);
        assert((a + b).drop_first() =~= a.drop_first() + b);
    }
}

/// The byte of a line feed, which ends a line.
pub const NEWLINE: u8 = 0x0a;

/// The number of line feeds among the first `end` bytes of `text`.
pub open spec fn newlines_before(text: Seq<u8>, end: int) -> nat
    recommends
        0 <= end <= text.len(),
    decreases end,
{
    if end <= 0 {
        0
    } else if text[end - 1] == NEWLINE {
        newlines_before(text, end - 1) + 1
    } else {
        newlines_before(text, end - 1)
    }
}

/// Where the line that holds byte `at` of `text` starts: right after the
/// last line feed before `at`, or at 0 where there is none.
pub open spec fn line_start(text: Seq<u8>, at: int) -> int
    recommends
        0 <= at <= text.len(),
    decreases at,
{
    if at <= 0 {
        0
    } else if text[at - 1] == NEWLINE {
        at
    } else {
        line_start(text, at - 1)
    }
}

/// Where the line that holds byte `from` of `text` ends: at the first line
/// feed at or after `from`, or at the end of `text` where there is none.
pub open spec fn line_end(text: Seq<u8>, from: int) -> int
    recommends
        0 <= from <= text.len(),
    decreases text.len() - from,
{
    if from >= text.len() {
        text.len() as int
    } else if text[from] == NEWLINE {
        from
    } else {
        line_end(text, from + 1)
    }
}

/// `line_start(text, at)` is the one offset up to `at` that has a line feed
/// or nothing before it and no line feed between it and `at`. Each line feed
/// before it counts as one line, so the count of lines before `at` is at
/// most that offset.
pub proof fn lemma_line_start(text: Seq<u8>, at: int)
    requires
        0 <= at <= text.len(),
    ensures
        0 <= line_start(text, at) <= at,
        line_start(text, at) == 0 || text[line_start(text, at) - 1] == NEWLINE,
        forall|k: int| line_start(text, at) <= k < at ==> text[k] != NEWLINE,
        newlines_before(text, at) == newlines_before(text, line_start(text, at)),
        newlines_before(text, at) <= line_start(text, at),
    decreases at,
{
    if at > 0 {
        lemma_line_start(text, at - 1);
    }
}

/// `line_end(text, from)` is the first offset from `from` on that holds a
/// line feed or is the end of `text`.
pub proof fn lemma_line_end(text: Seq<u8>, from: int)
    requires
        0 <= from <= text.len(),
    ensures
        from <= line_end(text, from) <= text.len(),
        line_end(text, from) == text.len() || text[line_end(text, from)] == NEWLINE,
        forall|k: int| from <= k < line_end(text, from) ==> text[k] != NEWLINE,
    decreases text.len() - from,
{
    if from < text.len() && text[from] != NEWLINE {
        lemma_line_end(text, from + 1);
    }
}

/// Counts the line feeds before byte `at` and finds the start of the line
/// that holds it.
pub fn find_line(text: &[u8], at: usize) -> (r: (usize, usize))
    requires
        at <= text@.len(),
    ensures
        r.0 == newlines_before(text@, at as int),
        r.1 == line_start(text@, at as int),
        r.0 <= r.1 <= at,
{
    let mut line_number: usize = 0;
    let mut start: usize = 0;
    let mut i: usize = 0;
    while i < at
        invariant
            i <= at <= text@.len(),
            line_number == newlines_before(text@, i as int),
            start == line_start(text@, i as int),
            line_number <= start <= i,
        decreases at - i,
    {
        if text[i] == NEWLINE {
            line_number = line_number + 1;
            start = i + 1;
        }
        i = i + 1;
    }
    (line_number, start)
}

/// Finds the end of the line that holds byte `from`.
pub fn find_line_end(text: &[u8], from: usize) -> (end: usize)
    requires
        from <= text@.len(),
    ensures
        end == line_end(text@, from as int),
        from <= end <= text@.len(),
{
    let n: usize = text.len();
    let mut end: usize = from;
    while end < n && text[end] != NEWLINE
        invariant
            n == text@.len(),
            from <= end <= n,
            line_end(text@, from as int) == line_end(text@, end as int),
        decreases n - end,
    {
        end = end + 1;
    }
    end
}

/// The character of a decimal digit.
pub open spec fn digit(d: nat) -> char {
    if d == 0 {
        '0'
    } else if d == 1 {
        '1'
    } else if d == 2 {
        '2'
    } else if d == 3 {
        '3'
    } else if d == 4 {
        '4'
    } else if d == 5 {
        '5'
    } else if d == 6 {
        '6'
    } else if d == 7 {
        '7'
    } else if d == 8 {
        '8'
    } else {
        '9'
    }
}

/// `n` in decimal, without leading zeros.
pub open spec fn decimal(n: nat) -> Seq<char>
    decreases n,
{
    if n < 10 {
        seq![digit(n)]
    } else {
        decimal(n / 10).push(digit(n % 10))
    }
}

/// `n` times the character `c`.
pub open spec fn repeated(c: char, n: nat) -> Seq<char> {
    Seq::new(n, |i: int| c)
}

/// The text of one decimal digit.
fn digit_text(d: u128) -> (s: &'static str)
    requires
        d < 10,
    ensures
        s@ == seq![digit(d as nat)],
{
    proof {
        reveal_strlit("0");
        reveal_strlit("1");
        reveal_strlit("2");
        reveal_strlit("3");
        reveal_strlit("4");
        reveal_strlit("5");
        reveal_strlit("6");
        reveal_strlit("7");
        reveal_strlit("8");
        reveal_strlit("9");
    }
    if d == 0 {
        "0"
    } else if d == 1 {
        "1"
    } else if d == 2 {
        "2"
    } else if d == 3 {
        "3"
    } else if d == 4 {
        "4"
    } else if d == 5 {
        "5"
    } else if d == 6 {
        "6"
    } else if d == 7 {
        "7"
    } else if d == 8 {
        "8"
    } else {
        "9"
    }
}

/// Appends `n` in decimal to `out`.
pub fn append_decimal(out: &mut String, n: u128)
    ensures
        final(out)@ == old(out)@ + decimal(n as nat),
    decreases n,
{
    if n >= 10 {
        append_decimal(out, n / 10);
    }
    out.append(digit_text(n % 10));
}

/// Appends `n` times the one-character text `unit` to `out`.
pub(crate) fn append_repeated(out: &mut String, unit: &str, n: usize)
    requires
        unit@.len() == 1,
    ensures
        final(out)@ == old(out)@ + repeated(unit@[0], n as nat),
{
    let mut i: usize = 0;
    while i < n
        invariant
            i <= n,
            unit@.len() == 1,
            out@ == old(out)@ + repeated(unit@[0], i as nat),
        decreases n - i,
    {
        out.append(unit);
        i = i + 1;
    }
}

} // verus!
