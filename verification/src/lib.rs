//! Field schemes for a filter-expression language.
//!
//! A host declares the fields that filter expressions may name, each with a
//! type: the [`Scheme`]. Text is then parsed in the context of the scheme.
//! Wherever the text names a field, the dotted name is read and looked up in
//! the scheme, which gives a [`Field`]. A text that does not lex gives a
//! [`ParseError`]: the line and the columns that are to blame, ready to be
//! shown.
//!
//! - [`scheme`]: the registry of fields, and the fields found in it.
//! - [`lex`]: spans, error kinds, lexing results, the scanner for dotted
//!   names.
//! - [`parse`]: from a text to a value or a diagnostic.
//! - [`parse_error`]: diagnostics and how they are shown.
//! - [`text`]: lines, white space and character boundaries in UTF-8 text.
//! - [`registry`]: the ordered map that a scheme keeps its fields in.
//! - [`types`]: the types that a field can have.

pub mod lex;
pub mod parse;
pub mod parse_error;
pub mod registry;
pub mod scheme;
pub mod text;
pub mod types;

pub use lex::{LexError, LexErrorKind, LexResult, LexWith, Span};
pub use parse_error::ParseError;
pub use scheme::{Field, Scheme, UnknownFieldError};
pub use types::Type;
