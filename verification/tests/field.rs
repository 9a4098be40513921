use std::collections::hash_map::DefaultHasher;
use std::hash::{Hash, Hasher};

use filter_scheme::lex::{identifier_byte, scan_dotted_name, LexErrorKind, LexWith, Span};
use filter_scheme::scheme::{Field, Scheme, UnknownFieldError};
use filter_scheme::types::Type;

fn sample_scheme() -> Scheme {
    Scheme::from_iter(vec![
        ("x".to_owned(), Type::Bytes),
        ("x.y.z0".to_owned(), Type::Unsigned),
        ("is_TCP".to_owned(), Type::Bool),
    ])
}

fn blamed(input: &str, span: Span) -> &str {
    &input[span.start..span.start + span.len]
}

fn hash_of(field: &Field) -> u64 {
    let mut hasher = DefaultHasher::new();
    field.hash(&mut hasher);
    hasher.finish()
}

#[test]
fn test_field() {
    let scheme = &sample_scheme();

    assert_eq!(
        Field::lex_with("x;", scheme),
        Ok((scheme.get_field_index("x").unwrap(), ";"))
    );

    assert_eq!(
        Field::lex_with("x.y.z0-", scheme),
        Ok((scheme.get_field_index("x.y.z0").unwrap(), "-"))
    );

    assert_eq!(
        Field::lex_with("is_TCP", scheme),
        Ok((scheme.get_field_index("is_TCP").unwrap(), ""))
    );

    let (kind, span) = Field::lex_with("x..y", scheme).unwrap_err();
    assert_eq!(kind, LexErrorKind::ExpectedName("identifier character"));
    assert_eq!(blamed("x..y", span), ".y");

    let (kind, span) = Field::lex_with("x.#", scheme).unwrap_err();
    assert_eq!(kind, LexErrorKind::ExpectedName("identifier character"));
    assert_eq!(blamed("x.#", span), "#");

    let (kind, span) = Field::lex_with("x.y.z;", scheme).unwrap_err();
    assert_eq!(kind, LexErrorKind::UnknownField(UnknownFieldError));
    assert_eq!(blamed("x.y.z;", span), "x.y.z");
}

#[test]
fn lexed_field_is_the_registered_one() {
    let scheme = &sample_scheme();
    let (field, rest) = Field::lex_with("x.y.z0-", scheme).unwrap();
    assert_eq!(field.name(), "x.y.z0");
    assert_eq!(field.index(), 1);
    assert_eq!(field.get_type(), Type::Unsigned);
    assert!(std::ptr::eq(field.scheme(), scheme));
    assert_eq!(rest, "-");
}

#[test]
fn error_spans_are_byte_offsets() {
    let scheme = &sample_scheme();
    assert_eq!(
        Field::lex_with("x..y", scheme),
        Err((
            LexErrorKind::ExpectedName("identifier character"),
            Span { start: 2, len: 2 }
        ))
    );
    assert_eq!(
        Field::lex_with("x.#", scheme),
        Err((
            LexErrorKind::ExpectedName("identifier character"),
            Span { start: 2, len: 1 }
        ))
    );
    assert_eq!(
        Field::lex_with("x.y.z;", scheme),
        Err((
            LexErrorKind::UnknownField(UnknownFieldError),
            Span { start: 0, len: 5 }
        ))
    );
}

#[test]
fn name_must_start_with_an_identifier_character() {
    let scheme = &sample_scheme();
    for input in [".x", "#x", " x", "-", "é"] {
        assert_eq!(
            Field::lex_with(input, scheme),
            Err((
                LexErrorKind::ExpectedName("identifier character"),
                Span { start: 0, len: input.len() }
            ))
        );
    }
}

#[test]
fn empty_text_has_no_name() {
    let scheme = &sample_scheme();
    assert_eq!(
        Field::lex_with("", scheme),
        Err((
            LexErrorKind::ExpectedName("identifier character"),
            Span { start: 0, len: 0 }
        ))
    );
}

#[test]
fn dot_at_the_end_needs_a_name_after_it() {
    let scheme = &sample_scheme();
    assert_eq!(
        Field::lex_with("x.", scheme),
        Err((
            LexErrorKind::ExpectedName("identifier character"),
            Span { start: 2, len: 0 }
        ))
    );
}

#[test]
fn shorter_registered_name_is_not_tried() {
    let scheme = &sample_scheme();
    // "x" is registered, but the whole run "x.y" is the only candidate.
    let (kind, span) = Field::lex_with("x.y ", scheme).unwrap_err();
    assert_eq!(kind, LexErrorKind::UnknownField(UnknownFieldError));
    assert_eq!(blamed("x.y ", span), "x.y");

    // A prefix of a longer registered name is not that name.
    let (kind, span) = Field::lex_with("x.y.z", scheme).unwrap_err();
    assert_eq!(kind, LexErrorKind::UnknownField(UnknownFieldError));
    assert_eq!(blamed("x.y.z", span), "x.y.z");
}

#[test]
fn name_ends_before_text_that_is_not_ascii() {
    let scheme = &sample_scheme();
    let (field, rest) = Field::lex_with("xé.y", scheme).unwrap();
    assert_eq!(field.name(), "x");
    assert_eq!(rest, "é.y");

    let (field, rest) = Field::lex_with("is_TCP\u{3000}", scheme).unwrap();
    assert_eq!(field.name(), "is_TCP");
    assert_eq!(rest, "\u{3000}");
}

#[test]
fn identifier_bytes_are_ascii_letters_digits_and_underscore() {
    for b in 0..=255u8 {
        let expected = (b as char).is_ascii_alphanumeric() || b == b'_';
        assert_eq!(identifier_byte(b), expected, "byte {}", b);
    }
}

#[test]
fn scan_reports_where_a_name_ends_or_is_stuck() {
    assert_eq!(scan_dotted_name(b"x;"), Ok(1));
    assert_eq!(scan_dotted_name(b"x.y.z0-"), Ok(6));
    assert_eq!(scan_dotted_name(b"is_TCP"), Ok(6));
    assert_eq!(scan_dotted_name(b"a.b.c"), Ok(5));
    assert_eq!(scan_dotted_name(b"x..y"), Err(2));
    assert_eq!(scan_dotted_name(b"x.#"), Err(2));
    assert_eq!(scan_dotted_name(b"x."), Err(2));
    assert_eq!(scan_dotted_name(b""), Err(0));
    assert_eq!(scan_dotted_name(b".x"), Err(0));
    assert_eq!(scan_dotted_name(b"a.b.."), Err(4));
}

#[test]
fn new_scheme_is_empty() {
    let scheme = Scheme::new();
    assert_eq!(scheme.get_field_count(), 0);
    assert_eq!(scheme.get_field_index("x").unwrap_err(), UnknownFieldError);

    let scheme = Scheme::default();
    assert_eq!(scheme.get_field_count(), 0);
}

#[test]
fn fields_get_slots_in_order_of_registration() {
    let mut scheme = Scheme::new();
    scheme.add_field("ip.src".to_owned(), Type::Bytes);
    assert_eq!(scheme.get_field_count(), 1);
    scheme.add_field("tcp.port".to_owned(), Type::Unsigned);
    assert_eq!(scheme.get_field_count(), 2);
    scheme.add_field("ssl".to_owned(), Type::Bool);
    assert_eq!(scheme.get_field_count(), 3);

    assert_eq!(scheme.get_field_index("ip.src").unwrap().index(), 0);
    assert_eq!(scheme.get_field_index("tcp.port").unwrap().index(), 1);
    assert_eq!(scheme.get_field_index("ssl").unwrap().index(), 2);
}

#[test]
fn distinct_names_get_distinct_slots() {
    let mut scheme = sample_scheme();
    scheme.add_field("n1".to_owned(), Type::Bool);
    scheme.add_field("n2".to_owned(), Type::Bool);
    let first = scheme.get_field_index("n1").unwrap();
    let second = scheme.get_field_index("n2").unwrap();
    assert_ne!(first, second);
    assert_ne!(first.index(), second.index());
    assert_eq!(first.index(), 3);
    assert_eq!(second.index(), 4);
}

#[test]
fn slots_stay_when_fields_are_added() {
    let mut scheme = sample_scheme();
    let before: Vec<usize> = ["x", "x.y.z0", "is_TCP"]
        .iter()
        .map(|name| scheme.get_field_index(name).unwrap().index())
        .collect();
    scheme.add_field("later".to_owned(), Type::Bytes);
    let after: Vec<usize> = ["x", "x.y.z0", "is_TCP"]
        .iter()
        .map(|name| scheme.get_field_index(name).unwrap().index())
        .collect();
    assert_eq!(before, vec![0, 1, 2]);
    assert_eq!(after, before);
    assert_eq!(scheme.get_field_index("x").unwrap().get_type(), Type::Bytes);
}

#[test]
fn registered_name_is_taken() {
    let mut scheme = Scheme::new();
    assert!(scheme.get_field_index("x").is_err());
    scheme.add_field("x".to_owned(), Type::Bytes);
    // What a caller tests before it registers a name: this one is taken,
    // whatever type it would be given.
    assert!(scheme.get_field_index("x").is_ok());
    scheme.add_field("y".to_owned(), Type::Bytes);
    assert!(scheme.get_field_index("x").is_ok());
    assert_eq!(scheme.get_field_index("x").unwrap().get_type(), Type::Bytes);
    assert_eq!(scheme.get_field_count(), 2);
}

#[test]
fn lookup_round_trip() {
    let scheme = sample_scheme();
    for (name, ty) in [("x", Type::Bytes), ("x.y.z0", Type::Unsigned), ("is_TCP", Type::Bool)] {
        let field = scheme.get_field_index(name).unwrap();
        assert_eq!(field.name(), name);
        assert_eq!(field.get_type(), ty);
        assert!(std::ptr::eq(field.scheme(), &scheme));
    }
}

#[test]
fn lookup_takes_the_whole_name() {
    let scheme = sample_scheme();
    assert_eq!(scheme.get_field_index("x.y").unwrap_err(), UnknownFieldError);
    assert_eq!(scheme.get_field_index("x.y.z").unwrap_err(), UnknownFieldError);
    assert_eq!(scheme.get_field_index("x.y.z0.").unwrap_err(), UnknownFieldError);
    assert_eq!(scheme.get_field_index("").unwrap_err(), UnknownFieldError);
    assert_eq!(scheme.get_field_index("X").unwrap_err(), UnknownFieldError);
}

#[test]
fn schemes_are_equal_only_to_themselves() {
    let one = sample_scheme();
    let other = sample_scheme();
    assert!(one == one);
    assert!(one != other);
    assert!(Scheme::new() != Scheme::new());
}

#[test]
fn fields_compare_by_scheme_and_slot_and_hash_by_name() {
    let one = sample_scheme();
    let other = sample_scheme();
    let a = one.get_field_index("x").unwrap();
    let b = one.get_field_index("x").unwrap();
    let c = one.get_field_index("is_TCP").unwrap();
    let d = other.get_field_index("x").unwrap();
    assert_eq!(a, b);
    assert_ne!(a, c);
    // Same name and slot, another scheme: not equal, yet the same hash.
    assert_ne!(a, d);
    assert_eq!(hash_of(&a), hash_of(&d));
    assert_eq!(hash_of(&a), hash_of(&b));
    assert_ne!(hash_of(&a), hash_of(&c));

    let mut hasher = DefaultHasher::new();
    "x".hash(&mut hasher);
    assert_eq!(hash_of(&a), hasher.finish());
}
