//! Diagnostics: where in the source text an expression failed to lex.
//!
//! A lexer blames a span of bytes. For a reader that span is turned into a
//! line number, the text of that one line, and the columns of the line that
//! the span covers. A span that runs on into later lines is cut at the end of
//! the line in which it starts.

use vstd::prelude::*;
use vstd::string::*;
use vstd::utf8::*;

use crate::lex::{LexError, LexErrorKind};
use crate::text::{
    append_decimal, append_repeated, decimal, find_line, find_line_end, lemma_ascii_byte_is_bounded,
    lemma_line_end, lemma_line_start, line_end, line_start, newlines_before, repeated, NEWLINE,
};

verus! {

/// What a `ParseError` holds, as plain values.
pub struct Diagnostic {
    /// Why the text did not lex.
    pub kind: LexErrorKind,
    /// The line in which the span starts, without its line feed.
    pub line: Seq<char>,
    /// The number of lines before that line.
    pub line_number: nat,
    /// The offset in bytes of the span's start from the start of the line.
    pub span_start: nat,
    /// The length in bytes of the part of the span that lies in the line.
    pub span_len: nat,
}

/// The diagnostic for the span of `len` bytes from offset `start` of `text`.
pub open spec fn locate(text: Seq<u8>, kind: LexErrorKind, start: nat, len: nat) -> Diagnostic {
    let from = line_start(text, start as int);
    let to = line_end(text, from);
    Diagnostic {
        kind,
        line: decode_utf8(text.subrange(from, to)),
        line_number: newlines_before(text, start as int),
        span_start: (start - from) as nat,
        span_len: if len <= to - start {
            len
        } else {
            (to - start) as nat
        },
    }
}

/// The number of carets that mark the span of a diagnostic: one for each
/// byte, and one for a span without bytes.
pub open spec fn carets(d: Diagnostic) -> nat {
    if d.span_len < 1 {
        1
    } else {
        d.span_len
    }
}

/// How a diagnostic is shown: a header with the line and the column, both
/// counted from 1; the line itself; and under the line a row of carets below
/// the span, followed by the message.
pub open spec fn rendered(d: Diagnostic) -> Seq<char> {
    "Filter parsing error ("@ + decimal(d.line_number + 1) + ":"@ + decimal(d.span_start + 1)
        + "):\n"@ + d.line + "\n"@ + repeated(' ', d.span_start) + repeated('^', carets(d)) + " "@
        + d.kind.spec_message() + "\n"@
}

/// A diagnostic shows one line, and its span stays in that line.
///
/// The line of the diagnostic for a span in a text is the stretch of the
/// text from the start of the line in which the span starts to the next
/// line feed. It holds no line feed. The span is cut where the line ends: it
/// ends in the line, it is never longer than it was, and where it was cut
/// it ends with the line. So the carets under a span that has bytes never
/// run past the end of the line.
pub proof fn lemma_span_stays_in_line(text: Seq<u8>, kind: LexErrorKind, start: nat, len: nat)
    requires
        valid_utf8(text),
        start + len <= text.len(),
    ensures
        ({
            let d = locate(text, kind, start, len);
            let line = encode_utf8(d.line);
            let from = line_start(text, start as int);
            &&& 0 <= from <= start
            &&& line == text.subrange(from, line_end(text, from))
            &&& forall|k: int| 0 <= k < line.len() ==> line[k] != NEWLINE
            &&& from + d.span_start == start
            &&& d.span_start + d.span_len <= line.len()
            &&& d.span_len <= len
            &&& d.span_len < len ==> d.span_start + d.span_len == line.len()
            &&& d.span_len >= 1 ==> d.span_start + carets(d) <= line.len()
            &&& d.line_number <= from
        }),
{
    let from = line_start(text, start as int);
    let to = line_end(text, from);
    lemma_line_start(text, start as int);
    lemma_line_end(text, from);
    if to < text.len() {
        lemma_ascii_byte_is_bounded(text, to);
    } else {
        is_char_boundary_start_end_of_seq(text);
    }
    valid_utf8_split(text, to);
    let head = text.subrange(0, to);
    if from > 0 {
        lemma_ascii_byte_is_bounded(head, from - 1);
    }
    valid_utf8_split(head, from);
    assert(head.subrange(from, head.len() as int) =~= text.subrange(from, to));
    decode_utf8_encode_utf8(text.subrange(from, to));
}

/// A lexing error, placed in the text that was parsed.
#[derive(Clone, Copy, Debug)]
pub struct ParseError<'i> {
    kind: LexErrorKind,
    input: &'i str,
    line_number: usize,
    span_start: usize,
    span_len: usize,
}

impl<'i> View for ParseError<'i> {
    type V = Diagnostic;

    closed spec fn view(&self) -> Diagnostic {
        Diagnostic {
            kind: self.kind,
            line: self.input@,
            line_number: self.line_number as nat,
            span_start: self.span_start as nat,
            span_len: self.span_len as nat,
        }
    }
}

impl<'i> ParseError<'i> {
    #[verifier::type_invariant]
    spec fn on_one_line(self) -> bool {
        &&& forall|k: int|
            0 <= k < self.input.spec_bytes().len() ==> self.input.spec_bytes()[k] != NEWLINE
        &&& self.span_start + self.span_len <= self.input.spec_bytes().len()
    }

    /// Places the error `err`, whose span lies in `input`, in `input`: finds
    /// the line in which the span starts, and cuts the span at the end of
    /// that line.
    pub fn new(input: &'i str, err: LexError) -> (e: ParseError<'i>)
        requires
            err.1.start + err.1.len <= input.spec_bytes().len(),
        ensures
            e@ == locate(input.spec_bytes(), err.0, err.1.start as nat, err.1.len as nat),
            e@.span_len <= err.1.len,
            e@.span_start + e@.span_len <= encode_utf8(e@.line).len(),
    {
        let (kind, span) = err;
        let text = input.as_bytes();
        let (line_number, from) = find_line(text, span.start);
        let to = find_line_end(text, from);
        proof {
            encode_utf8_valid_utf8(input@);
            lemma_line_start(text@, span.start as int);
            lemma_line_end(text@, from as int);
            if to < text@.len() {
                lemma_ascii_byte_is_bounded(text@, to as int);
            } else {
                is_char_boundary_start_end_of_seq(text@);
            }
        }
        let (head, _) = input.split_at(to);
        proof {
            encode_utf8_valid_utf8(head@);
            if from > 0 {
                lemma_ascii_byte_is_bounded(head.spec_bytes(), from - 1);
            }
        }
        let (_, line) = head.split_at(from);
        proof {
            encode_utf8_decode_utf8(line@);
            assert(line.spec_bytes() =~= text@.subrange(from as int, to as int));
        }
        let span_len: usize = if span.len <= to - span.start {
            span.len
        } else {
            to - span.start
        };
        ParseError { kind, input: line, line_number, span_start: span.start - from, span_len }
    }

    /// The diagnostic as text, in the form that `rendered` states.
    pub fn render(&self) -> (text: String)
        ensures
            text@ == rendered(self@),
    {
        proof {
            reveal_strlit(" ");
            reveal_strlit("^");
        }
        let mut text = String::from_str("Filter parsing error (");
        append_decimal(&mut text, self.line_number as u128 + 1);
        text.append(":");
        append_decimal(&mut text, self.span_start as u128 + 1);
        text.append("):\n");
        text.append(self.input);
        text.append("\n");
        append_repeated(&mut text, " ", self.span_start);
        let carets: usize = if self.span_len < 1 {
            1
        } else {
            self.span_len
        };
        append_repeated(&mut text, "^", carets);
        text.append(" ");
        let message = self.kind.message();
        text.append(message.as_str());
        text.append("\n");
        text
    }
}

} // verus!
