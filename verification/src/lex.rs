//! The vocabulary of lexing: spans, error kinds, results, and the scanner for
//! dotted names.
//!
//! A lexer reads a value from the front of a text and hands back the value
//! with the text that is left, or an error kind with the span of the text
//! that is to blame. Spans are byte offsets into the text that the lexer was
//! given.

use vstd::prelude::*;
use vstd::string::*;

use crate::scheme::UnknownFieldError;
use crate::text::byte_len;

verus! {

/// A stretch of a text: `len` bytes from byte offset `start`.
#[derive(Clone, Copy, Debug, PartialEq, Eq, Structural)]
pub struct Span {
    pub start: usize,
    pub len: usize,
}

/// Why a text did not lex.
#[derive(Clone, Copy, Debug, PartialEq, Eq)]
pub enum LexErrorKind {
    /// A character of the named class was expected.
    ExpectedName(&'static str),
    /// The given literal was expected.
    ExpectedLiteral(&'static str),
    /// The name is well formed, but the scheme has no such field.
    UnknownField(UnknownFieldError),
    /// A value was read, and text is left behind it.
    EndOfInput,
}

impl LexErrorKind {
    /// The message of an error kind, as `message` returns it.
    pub open spec fn spec_message(self) -> Seq<char> {
        match self {
            LexErrorKind::ExpectedName(name) => "expected "@ + name@,
            LexErrorKind::ExpectedLiteral(literal) => "expected literal \""@ + literal@ + "\""@,
            LexErrorKind::UnknownField(_) => "unknown field"@,
            LexErrorKind::EndOfInput => "expected end of input"@,
        }
    }

    /// What went wrong, in words.
    pub fn message(&self) -> (text: String)
        ensures
            text@ == self.spec_message(),
    {
        match self {
            LexErrorKind::ExpectedName(name) => String::from_str("expected ").concat(name),
            LexErrorKind::ExpectedLiteral(literal) => String::from_str("expected literal \"").concat(
                literal,
            ).concat("\""),
            LexErrorKind::UnknownField(_) => String::from_str("unknown field"),
            LexErrorKind::EndOfInput => String::from_str("expected end of input"),
        }
    }
}

/// An error kind with the span that it is about.
pub type LexError = (LexErrorKind, Span);

/// A value with the text left behind it, or an error.
pub type LexResult<'i, T> = Result<(T, &'i str), LexError>;

/// What lexing a text comes to, with positions as numbers. Contracts state
/// results in this form.
pub enum Lexed<T> {
    /// `value` was read from the first `consumed` bytes.
    Value { value: T, consumed: nat },
    /// The text did not lex, and bytes `start .. start + len` are to blame.
    Failure { kind: LexErrorKind, start: nat, len: nat },
}

/// Whether the result `r` of lexing `input` is what `outcome` describes: the
/// same value or error, the rest being `input` without its consumed bytes.
pub open spec fn agrees<T>(r: LexResult<'_, T>, input: &str, outcome: Lexed<T>) -> bool {
    match outcome {
        Lexed::Value { value, consumed } => {
            &&& consumed <= input.spec_bytes().len()
            &&& r is Ok
            &&& r->Ok_0.0 == value
            &&& r->Ok_0.1.spec_bytes() == input.spec_bytes().skip(consumed as int)
        },
        Lexed::Failure { kind, start, len } => {
            &&& start + len <= input.spec_bytes().len()
            &&& r is Err
            &&& r->Err_0.0 == kind
            &&& r->Err_0.1.start == start
            &&& r->Err_0.1.len == len
        },
    }
}

/// A type whose values are lexed from text in a context of type `E`.
pub trait LexWith<'i, E>: Sized {
    /// What lexing the bytes `text` in the context `ctx` comes to. A lexer
    /// that does not say so is taken to compute some function of the two.
    open spec fn lexed(text: Seq<u8>, ctx: E) -> Lexed<Self> {
        let some_function: spec_fn(Seq<u8>, E) -> Lexed<Self> = arbitrary();
        some_function(text, ctx)
    }

    /// Reads a value from the front of `input`.
    fn lex_with(input: &'i str, ctx: E) -> (r: LexResult<'i, Self>)
        ensures
            agrees(r, input, Self::lexed(input.spec_bytes(), ctx)),
    ;
}

/// What `complete` makes of a result `res` of lexing a text of `total`
/// bytes. A value stands only if no text is left behind it, and then all
/// `total` bytes were consumed. Text that is left is blamed, all of it, for
/// not being the end. An error stays as it is.
pub open spec fn completed<T>(total: nat, res: LexResult<'_, T>) -> Lexed<T> {
    match res {
        Ok((value, rest)) => {
            let left = rest.spec_bytes().len();
            if left == 0 {
                Lexed::Value { value, consumed: total }
            } else {
                Lexed::Failure {
                    kind: LexErrorKind::EndOfInput,
                    start: (total - left) as nat,
                    len: left,
                }
            }
        },
        Err((kind, span)) => Lexed::Failure {
            kind,
            start: span.start as nat,
            len: span.len as nat,
        },
    }
}

/// Accepts a lexed value only if no text is left behind it. Text that is
/// left is reported as `EndOfInput`, the span being all of that text. An
/// error passes through unchanged.
pub fn complete<'i, T>(input: &'i str, res: LexResult<'i, T>) -> (r: Result<T, LexError>)
    requires
        res matches Ok((_, rest)) ==> rest.spec_bytes().len() <= input.spec_bytes().len(),
    ensures
        match completed(input.spec_bytes().len(), res) {
            Lexed::Value { value, consumed } => r == Ok::<T, LexError>(value),
            Lexed::Failure { kind, start, len } => {
                &&& r is Err
                &&& r->Err_0.0 == kind
                &&& r->Err_0.1.start == start
                &&& r->Err_0.1.len == len
            },
        },
{
    match res {
        Ok((value, rest)) => {
            let left: usize = byte_len(rest);
            if left == 0 {
                Ok(value)
            } else {
                Err((LexErrorKind::EndOfInput, Span { start: byte_len(input) - left, len: left }))
            }
        },
        Err(e) => Err(e),
    }
}

/// The byte of a full stop, which joins the parts of a dotted name.
pub const DOT: u8 = 0x2e;

/// An ASCII letter (`a` to `z`, `A` to `Z`), an ASCII digit or an underscore.
pub open spec fn is_identifier_byte(b: u8) -> bool {
    (0x61 <= b <= 0x7a) || (0x41 <= b <= 0x5a) || (0x30 <= b <= 0x39) || b == 0x5f
}

/// Tests a byte for `is_identifier_byte`.
pub fn identifier_byte(b: u8) -> (r: bool)
    ensures
        r == is_identifier_byte(b),
{
    (0x61 <= b && b <= 0x7a) || (0x41 <= b && b <= 0x5a) || (0x30 <= b && b <= 0x39) || b == 0x5f
}

/// Where a scan for a dotted name stopped.
pub enum DottedName {
    /// A name was read: it ends before byte `end`.
    Ends { end: int },
    /// An identifier byte was needed at byte `at`, and there was none.
    Stuck { at: int },
}

/// Scans `text` from byte `at` for a dotted name: runs of identifier bytes
/// with one dot between each two. A run takes every identifier byte there
/// is; a dot after a run is always taken, and must be followed by a run.
/// `fresh` is true where a run has to start: at the beginning and after a
/// dot.
pub open spec fn dotted_name(text: Seq<u8>, at: int, fresh: bool) -> DottedName
    decreases text.len() - at,
{
    if 0 <= at < text.len() && is_identifier_byte(text[at]) {
        dotted_name(text, at + 1, false)
    } else if fresh {
        DottedName::Stuck { at }
    } else if 0 <= at < text.len() && text[at] == DOT {
        dotted_name(text, at + 1, true)
    } else {
        DottedName::Ends { end: at }
    }
}

/// An identifier byte or a dot: a byte that a dotted name can hold.
pub open spec fn is_name_byte(b: u8) -> bool {
    is_identifier_byte(b) || b == DOT
}

/// Byte `k` of `text` is a dot.
pub open spec fn is_dot_at(text: Seq<u8>, k: int) -> bool {
    text[k] == DOT
}

/// In `text[from..to)` an identifier byte follows every dot.
pub open spec fn dots_are_followed(text: Seq<u8>, from: int, to: int) -> bool {
    forall|k: int|
        from <= k < to && #[trigger] is_dot_at(text, k) ==> k + 1 < to && is_identifier_byte(
            text[k + 1],
        )
}

/// What a scan from `at` finds, for either state of the scanner.
proof fn lemma_dotted_name_from(text: Seq<u8>, at: int, fresh: bool)
    requires
        0 <= at <= text.len(),
    ensures
        match dotted_name(text, at, fresh) {
            DottedName::Ends { end } => {
                &&& at <= end <= text.len()
                &&& forall|k: int| at <= k < end ==> is_name_byte(text[k])
                &&& dots_are_followed(text, at, end)
                &&& end == text.len() || !is_name_byte(text[end])
                &&& fresh ==> at < end && is_identifier_byte(text[at])
                &&& at < end ==> is_identifier_byte(text[end - 1])
            },
            DottedName::Stuck { at: stuck } => {
                &&& at <= stuck <= text.len()
                &&& forall|k: int| at <= k < stuck ==> is_name_byte(text[k])
                &&& dots_are_followed(text, at, stuck - 1)
                &&& stuck == text.len() || !is_identifier_byte(text[stuck])
                &&& at < stuck ==> text[stuck - 1] == DOT
                &&& at == stuck ==> fresh
            },
        },
    decreases text.len() - at,
{
    if at < text.len() && is_identifier_byte(text[at]) {
        lemma_dotted_name_from(text, at + 1, false);
    } else if fresh {
    } else if at < text.len() && text[at] == DOT {
        lemma_dotted_name_from(text, at + 1, true);
    }
}

/// What the scan for a dotted name finds, said without the scanner.
///
/// A name that was read is not empty, is made of identifier bytes and dots,
/// starts and ends with an identifier byte and has an identifier byte after
/// each dot; and it is greedy: no identifier byte and no dot comes after it.
///
/// Where the scan is stuck, the text up to there is made of identifier
/// bytes and dots, an identifier byte follows each dot but the last, and the
/// place is the start of the text or comes right after a dot, yet holds no
/// identifier byte.
pub proof fn lemma_dotted_name(text: Seq<u8>)
    ensures
        match dotted_name(text, 0, true) {
            DottedName::Ends { end } => {
                &&& 0 < end <= text.len()
                &&& forall|k: int| 0 <= k < end ==> is_name_byte(text[k])
                &&& is_identifier_byte(text[0])
                &&& is_identifier_byte(text[end - 1])
                &&& dots_are_followed(text, 0, end)
                &&& end == text.len() || !is_name_byte(text[end])
            },
            DottedName::Stuck { at } => {
                &&& 0 <= at <= text.len()
                &&& forall|k: int| 0 <= k < at ==> is_name_byte(text[k])
                &&& dots_are_followed(text, 0, at - 1)
                &&& at == 0 || text[at - 1] == DOT
                &&& at == text.len() || !is_identifier_byte(text[at])
            },
        },
{
    lemma_dotted_name_from(text, 0, true);
}

/// Scans `text` from its first byte for a dotted name. Returns the offset at
/// which the name ends, or as an error the offset at which an identifier
/// byte is missing.
pub fn scan_dotted_name(text: &[u8]) -> (r: Result<usize, usize>)
    ensures
        match r {
            Ok(end) => {
                &&& dotted_name(text@, 0, true) == DottedName::Ends { end: end as int }
                &&& 0 < end <= text@.len()
                &&& is_identifier_byte(text@[end - 1])
            },
            Err(at) => {
                &&& dotted_name(text@, 0, true) == DottedName::Stuck { at: at as int }
                &&& at <= text@.len()
            },
        },
{
    let n: usize = text.len();
    let mut at: usize = 0;
    let mut fresh: bool = true;
    loop
        invariant
            n == text@.len(),
            at <= n,
            dotted_name(text@, 0, true) == dotted_name(text@, at as int, fresh),
            !fresh ==> at > 0 && is_identifier_byte(text@[at - 1]),
        decreases n - at,
    {
        if at < n && identifier_byte(text[at]) {
            at = at + 1;
            fresh = false;
        } else if fresh {
            return Err(at);
        } else if at < n && text[at] == DOT {
            at = at + 1;
            fresh = true;
        } else {
            return Ok(at);
        }
    }
}

} // verus!
