//! Parsing: from a text to a value, or to a diagnostic.
//!
//! The expression of a text is the text without the white space around it.
//! Parsing lexes the expression in the context of a scheme, wants all of it
//! used, and places any error in the text as it was given.

use vstd::prelude::*;
use vstd::string::*;
use vstd::utf8::*;

use crate::lex::{complete, completed, LexErrorKind, LexResult, LexWith, Lexed, Span};
use crate::parse_error::{locate, Diagnostic, ParseError};
use crate::scheme::Scheme;
use crate::text::{
    byte_len, is_white_space, lemma_encode_utf8_concat, lemma_trimmed_end, lemma_trimmed_start,
    trim_end, trim_start, trimmed_end, trimmed_start,
};

verus! {

/// The expression in `input`: `input` without the white space around it.
pub open spec fn expression(input: Seq<char>) -> Seq<char> {
    trimmed_end(trimmed_start(input))
}

/// The white space that `input` starts with.
pub open spec fn leading_white_space(input: Seq<char>) -> Seq<char> {
    input.take(input.len() - trimmed_start(input).len())
}

/// The byte offset in `input` at which its expression starts: the number of
/// bytes that the white space before it takes. An expression that is empty
/// is taken to stand at offset 0.
pub open spec fn expression_offset(input: Seq<char>) -> nat {
    if expression(input).len() == 0 {
        0
    } else {
        encode_utf8(leading_white_space(input)).len()
    }
}

/// The expression of a text is a stretch of the text. All that comes before
/// it and all that comes after it is white space, and the expression itself
/// neither starts nor ends with white space.
pub proof fn lemma_expression(input: Seq<char>)
    ensures
        ({
            let expr = expression(input);
            let before = leading_white_space(input).len();
            &&& before + expr.len() <= input.len()
            &&& expr == input.subrange(before as int, (before + expr.len()) as int)
            &&& forall|i: int| 0 <= i < before ==> is_white_space(input[i])
            &&& forall|i: int| before + expr.len() <= i < input.len() ==> is_white_space(input[i])
            &&& expr.len() > 0 ==> !is_white_space(expr[0]) && !is_white_space(expr.last())
        }),
{
    let after = trimmed_start(input);
    lemma_trimmed_start(input);
    lemma_trimmed_end(after);
    let expr = expression(input);
    let before = input.len() - after.len();
    assert forall|i: int| before + expr.len() <= i < input.len() implies is_white_space(
        input[i],
    ) by {
        assert(input[i] == after[i - before]);
    }
}

/// In bytes, a text is the white space that it starts with, then its
/// expression, then what was trimmed from its end.
pub proof fn lemma_expression_bytes(input: Seq<char>)
    ensures
        ({
            let before = encode_utf8(leading_white_space(input)).len();
            let expr = encode_utf8(expression(input));
            &&& before + expr.len() <= encode_utf8(input).len()
            &&& expr == encode_utf8(input).subrange(before as int, (before + expr.len()) as int)
            &&& before == encode_utf8(input).len() - encode_utf8(trimmed_start(input)).len()
            &&& expr == encode_utf8(trimmed_start(input)).take(expr.len() as int)
        }),
{
    let lead = leading_white_space(input);
    let after = trimmed_start(input);
    let expr = expression(input);
    lemma_trimmed_start(input);
    lemma_trimmed_end(after);
    let tail = after.skip(expr.len() as int);
    assert(input =~= lead + after);
    assert(after =~= expr + tail);
    lemma_encode_utf8_concat(lead, after);
    lemma_encode_utf8_concat(expr, tail);
    assert(encode_utf8(expr) =~= encode_utf8(input).subrange(
        encode_utf8(lead).len() as int,
        (encode_utf8(lead).len() + encode_utf8(expr).len()) as int,
    ));
}

/// What parsing `input` against `scheme` comes to. The expression is lexed
/// as a `T`, and must be used up by it: text that is left is blamed for not
/// being the end. Any failure is placed in `input` as it was given, white
/// space included.
pub open spec fn parsed<'i, 's, T: LexWith<'i, &'s Scheme>>(
    scheme: &'s Scheme,
    input: Seq<char>,
) -> Result<T, Diagnostic> {
    let text = encode_utf8(input);
    let expr = encode_utf8(expression(input));
    let offset = expression_offset(input);
    match T::lexed(expr, scheme) {
        Lexed::Value { value, consumed } => if consumed >= expr.len() {
            Ok(value)
        } else {
            Err(
                locate(
                    text,
                    LexErrorKind::EndOfInput,
                    offset + consumed,
                    (expr.len() - consumed) as nat,
                ),
            )
        },
        Lexed::Failure { kind, start, len } => Err(
            locate(text, kind, offset + start, len),
        ),
    }
}

/// What parsing makes of the result `res` of lexing an expression of `total`
/// bytes that starts at byte `offset` of `text`. A value counts only if the
/// expression was used up. An error is placed in `text`, its span moved by
/// `offset`.
pub open spec fn finished<T>(text: Seq<u8>, offset: nat, total: nat, res: LexResult<'_, T>) -> Result<
    T,
    Diagnostic,
> {
    match completed(total, res) {
        Lexed::Value { value, consumed } => Ok(value),
        Lexed::Failure { kind, start, len } => Err(locate(text, kind, offset + start, len)),
    }
}

/// Whether `r` is the result of parsing `input` against `scheme`: the value
/// that `parsed` gives, or an error that holds the diagnostic that it gives.
pub open spec fn is_parse_of<'i, 's, T: LexWith<'i, &'s Scheme>>(
    r: Result<T, ParseError<'i>>,
    scheme: &'s Scheme,
    input: Seq<char>,
) -> bool {
    match parsed::<T>(scheme, input) {
        Ok(value) => r is Ok && r->Ok_0 == value,
        Err(diagnostic) => r is Err && r->Err_0@ == diagnostic,
    }
}

/// Finds the expression in `input`: `input` without the white space around
/// it. Returns the expression and the byte offset in `input` at which it
/// starts.
pub fn expression_in<'i>(input: &'i str) -> (r: (&'i str, usize))
    ensures
        r.0@ == expression(input@),
        r.1 == expression_offset(input@),
        r.1 + r.0.spec_bytes().len() <= input.spec_bytes().len(),
        r.0.spec_bytes() == input.spec_bytes().subrange(
            r.1 as int,
            r.1 + r.0.spec_bytes().len(),
        ),
{
    let after = trim_start(input);
    let expr = trim_end(after);
    proof {
        lemma_expression_bytes(input@);
    }
    let offset: usize = if byte_len(expr) == 0 {
        0
    } else {
        byte_len(input) - byte_len(after)
    };
    (expr, offset)
}

/// Turns the result `res` of lexing the expression `expr`, which starts at
/// byte `offset` of `input`, into the result of parsing `input`: the value,
/// if all of the expression was used for it, or else the error, placed in
/// `input`.
pub fn finish<'i, T>(input: &'i str, offset: usize, expr: &'i str, res: LexResult<'i, T>) -> (r:
    Result<T, ParseError<'i>>)
    requires
        offset + expr.spec_bytes().len() <= input.spec_bytes().len(),
        match res {
            Ok((_, rest)) => rest.spec_bytes().len() <= expr.spec_bytes().len(),
            Err((_, span)) => span.start + span.len <= expr.spec_bytes().len(),
        },
    ensures
        match finished(input.spec_bytes(), offset as nat, expr.spec_bytes().len(), res) {
            Ok(value) => r is Ok && r->Ok_0 == value,
            Err(diagnostic) => r is Err && r->Err_0@ == diagnostic,
        },
{
    // The length of `input` is a machine number, so every offset into it is
    // one, the moved span's too.
    let _ = byte_len(input);
    match complete(expr, res) {
        Ok(value) => Ok(value),
        Err((kind, span)) => Err(
            ParseError::new(input, (kind, Span { start: offset + span.start, len: span.len })),
        ),
    }
}

impl Scheme {
    /// Parses `input` as a `T` in the context of this scheme. White space
    /// around the expression is skipped; positions in an error count it.
    pub fn parse<'s, 'i, T: LexWith<'i, &'s Scheme>>(&'s self, input: &'i str) -> (r: Result<
        T,
        ParseError<'i>,
    >)
        ensures
            is_parse_of(r, self, input@),
    {
        let (expr, offset) = expression_in(input);
        finish(input, offset, expr, T::lex_with(expr, self))
    }
}

/// Parsing is a function of the scheme and the text: any two results of
/// parsing one text against one scheme are both the same value, or both
/// errors with the same diagnostic.
pub proof fn lemma_parse_is_repeatable<'i, 's, T: LexWith<'i, &'s Scheme>>(
    scheme: &'s Scheme,
    input: Seq<char>,
    once: Result<T, ParseError<'i>>,
    again: Result<T, ParseError<'i>>,
)
    requires
        is_parse_of(once, scheme, input),
        is_parse_of(again, scheme, input),
    ensures
        once is Ok <==> again is Ok,
        once is Ok ==> once->Ok_0 == again->Ok_0,
        once is Err ==> once->Err_0@ == again->Err_0@,
{
}

} // verus!
