//! The scheme: a registry of named, typed fields, and the fields resolved
//! against it.
//!
//! A scheme is modelled by the sequence of its `(name, type)` pairs in the
//! order of registration. The position of a pair is the slot of its field:
//! registration appends, so a slot, once given, stays.

use fnv::FnvBuildHasher;
use indexmap::IndexMap;
use vstd::prelude::*;
use vstd::string::*;
use vstd::utf8::*;

use crate::lex::{
    dotted_name, lemma_dotted_name, scan_dotted_name, DottedName, LexErrorKind, LexResult,
    LexWith, Lexed, Span,
};
use crate::registry::{
    entries, registry_get_full, registry_get_index, registry_insert, registry_len, registry_new,
};
use crate::text::lemma_ascii_byte_is_bounded;
use crate::types::Type;

verus! {

/// What a scheme holds: its `(name, type)` pairs in the order of
/// registration. The position of a pair is the slot of its field.
pub type Registry = Seq<(Seq<char>, Type)>;

/// No two pairs of `reg` have the same name.
pub open spec fn names_distinct(reg: Registry) -> bool {
    forall|i: int, j: int| 0 <= i < j < reg.len() ==> reg[i].0 != reg[j].0
}

/// What holds of the pairs of every scheme: no name comes twice, and every
/// slot is a machine number.
pub open spec fn is_registry(reg: Registry) -> bool {
    names_distinct(reg) && reg.len() <= usize::MAX
}

/// Some pair of `reg` has the name `name`.
pub open spec fn has_name(reg: Registry, name: Seq<char>) -> bool {
    exists|i: int| 0 <= i < reg.len() && (#[trigger] reg[i]).0 == name
}

/// The position in `reg` of a pair named `name`, where there is one.
pub open spec fn slot_of(reg: Registry, name: Seq<char>) -> int {
    choose|i: int| 0 <= i < reg.len() && (#[trigger] reg[i]).0 == name
}

/// The pairs of a list as a scheme holds them: each name as its characters.
pub open spec fn named(pairs: Seq<(String, Type)>) -> Registry {
    Seq::new(pairs.len(), |i: int| (pairs[i].0@, pairs[i].1))
}

/// A registered name is found in the slot of its pair, and nowhere else.
pub proof fn lemma_slot_of_pair(reg: Registry, i: int)
    requires
        names_distinct(reg),
        0 <= i < reg.len(),
    ensures
        has_name(reg, reg[i].0),
        slot_of(reg, reg[i].0) == i,
{
}

/// Registration appends: every field that a scheme had keeps its pair and
/// its slot when another field is registered, and the new field gets the
/// next slot.
pub proof fn lemma_slots_are_stable(reg: Registry, name: Seq<char>, ty: Type, i: int)
    requires
        names_distinct(reg),
        !has_name(reg, name),
        0 <= i < reg.len(),
    ensures
        names_distinct(reg.push((name, ty))),
        reg.push((name, ty))[i] == reg[i],
        slot_of(reg.push((name, ty)), reg[i].0) == i,
        slot_of(reg.push((name, ty)), name) == reg.len(),
{
    let after = reg.push((name, ty));
    lemma_slot_of_pair(after, i);
    lemma_slot_of_pair(after, reg.len() as int);
}

/// Two different names, registered one after the other in a scheme that
/// has neither, both register, and their fields get different slots: the
/// next free one and the one after it.
pub proof fn lemma_distinct_names_distinct_slots(
    reg: Registry,
    first: Seq<char>,
    first_ty: Type,
    second: Seq<char>,
    second_ty: Type,
)
    requires
        names_distinct(reg),
        !has_name(reg, first),
        !has_name(reg, second),
        first != second,
    ensures
        !has_name(reg.push((first, first_ty)), second),
        ({
            let after = reg.push((first, first_ty)).push((second, second_ty));
            &&& names_distinct(after)
            &&& has_name(after, first)
            &&& has_name(after, second)
            &&& slot_of(after, first) == reg.len()
            &&& slot_of(after, second) == reg.len() + 1
            &&& slot_of(after, first) != slot_of(after, second)
        }),
{
    let between = reg.push((first, first_ty));
    let after = between.push((second, second_ty));
    lemma_slot_of_pair(after, reg.len() as int);
    lemma_slot_of_pair(after, reg.len() as int + 1);
}

/// Once a name is registered it is taken: the scheme has it, whatever is
/// registered later, so it cannot be registered again, with the same type or
/// with another.
pub proof fn lemma_registered_name_is_taken(reg: Registry, name: Seq<char>, ty: Type, later: Registry)
    ensures
        has_name(reg.push((name, ty)) + later, name),
{
    let after = reg.push((name, ty)) + later;
    assert(after[reg.len() as int].0 == name);
}

/// Looking up the name of a registered pair gives the field of that pair:
/// the field found has the name that was looked up and the type that the
/// name was registered with.
pub proof fn lemma_lookup_round_trip(scheme: &Scheme, i: int)
    requires
        is_registry(scheme@),
        0 <= i < scheme@.len(),
    ensures
        has_name(scheme@, scheme@[i].0),
        ({
            let field = Field::at(scheme, slot_of(scheme@, scheme@[i].0));
            &&& field.spec_scheme() == scheme
            &&& field.spec_index() == i
            &&& field.spec_name() == scheme@[i].0
            &&& field.spec_type() == scheme@[i].1
        }),
{
}

/// What lexing a field comes to, said of the result. A field that is read
/// belongs to the scheme and bears the name that was read: the dotted name
/// that the text starts with, all of it. A failure blames that name for
/// being unknown, or the rest of the text for not starting an identifier.
/// Its span lies in the text.
pub proof fn lemma_lexed_field<'i, 's>(text: Seq<u8>, scheme: &'s Scheme)
    requires
        is_registry(scheme@),
    ensures
        match <Field<'s> as LexWith<'i, &'s Scheme>>::lexed(text, scheme) {
            Lexed::Value { value, consumed } => {
                &&& dotted_name(text, 0, true) == DottedName::Ends { end: consumed as int }
                &&& 0 < consumed <= text.len()
                &&& value.spec_scheme() == scheme
                &&& value.spec_index() < scheme@.len()
                &&& value.spec_name() == decode_utf8(text.subrange(0, consumed as int))
            },
            Lexed::Failure { kind, start, len } => {
                &&& start + len <= text.len()
                &&& match dotted_name(text, 0, true) {
                    DottedName::Ends { end } => {
                        &&& kind == LexErrorKind::UnknownField(UnknownFieldError)
                        &&& start == 0
                        &&& len == end
                        &&& !has_name(scheme@, decode_utf8(text.subrange(0, end)))
                    },
                    DottedName::Stuck { at } => {
                        &&& kind == LexErrorKind::ExpectedName("identifier character")
                        &&& start == at
                        &&& start + len == text.len()
                    },
                }
            },
        },
{
    lemma_dotted_name(text);
}

/// The scheme has no field of the name that was looked up.
#[derive(Clone, Copy, Debug, PartialEq, Eq, Structural)]
pub struct UnknownFieldError;

/// A set of named, typed fields. Names are unique, fields are only ever
/// added, and each field keeps the slot that it was given.
#[derive(Debug)]
pub struct Scheme {
    fields: IndexMap<String, Type, FnvBuildHasher>,
}

impl View for Scheme {
    type V = Registry;

    /// The `(name, type)` pairs in the order of registration.
    closed spec fn view(&self) -> Registry {
        entries(&self.fields)
    }
}

/// One field of a scheme: the scheme and the field's slot in it.
#[derive(Clone, Copy, Debug)]
pub struct Field<'s> {
    scheme: &'s Scheme,
    index: usize,
}

impl Scheme {
    #[verifier::type_invariant]
    spec fn holds_registry(self) -> bool {
        is_registry(self@)
    }

    /// A scheme without fields.
    pub fn new() -> (scheme: Scheme)
        ensures
            scheme@ == Registry::empty(),
    {
        Scheme { fields: registry_new() }
    }

    /// The scheme that holds the fields of `pairs`, in that order. No name
    /// may come twice.
    pub fn from_iter(pairs: Vec<(String, Type)>) -> (scheme: Scheme)
        requires
            names_distinct(named(pairs@)),
        ensures
            scheme@ == named(pairs@),
    {
        let mut scheme = Scheme::new();
        let mut i: usize = 0;
        while i < pairs.len()
            invariant
                i <= pairs@.len(),
                names_distinct(named(pairs@)),
                scheme@ == named(pairs@).take(i as int),
            decreases pairs@.len() - i,
        {
            let name = pairs[i].0.clone();
            let ty = pairs[i].1;
            assert forall|k: int| 0 <= k < scheme@.len() implies (#[trigger] scheme@[k]).0
                != name@ by {
                assert(named(pairs@)[k].0 != named(pairs@)[i as int].0);
            }
            scheme.add_field(name, ty);
            i = i + 1;
        }
        scheme
    }

    /// Registers the field `name` with type `ty` in the next free slot. The
    /// name must be new to the scheme.
    pub fn add_field(&mut self, name: String, ty: Type)
        requires
            !has_name(old(self)@, name@),
        ensures
            final(self)@ == old(self)@.push((name@, ty)),
            is_registry(final(self)@),
    {
        proof {
            use_type_invariant(&*self);
        }
        // The map is taken out while it changes, so that the scheme holds
        // distinct names at every moment.
        let mut fields = registry_new();
        core::mem::swap(&mut fields, &mut self.fields);
        let _ = registry_insert(&mut fields, name, ty);
        // The map counts its pairs in a `usize`: the count shows that the
        // new slot is a machine number.
        let _ = registry_len(&fields);
        self.fields = fields;
    }

    /// Looks `name` up as it stands, dots and all.
    pub fn get_field_index<'s>(&'s self, name: &str) -> (r: Result<Field<'s>, UnknownFieldError>)
        ensures
            match r {
                Ok(field) => has_name(self@, name@) && field == Field::at(
                    self,
                    slot_of(self@, name@),
                ),
                Err(_) => !has_name(self@, name@),
            },
            is_registry(self@),
    {
        proof {
            use_type_invariant(self);
        }
        match registry_get_full(&self.fields, name) {
            Some((index, _)) => Ok(Field { scheme: self, index }),
            None => Err(UnknownFieldError),
        }
    }

    /// The number of fields.
    pub fn get_field_count(&self) -> (n: usize)
        ensures
            n == self@.len(),
            is_registry(self@),
    {
        proof {
            use_type_invariant(self);
        }
        registry_len(&self.fields)
    }
}

impl Default for Scheme {
    fn default() -> (scheme: Scheme)
        ensures
            scheme@ == Registry::empty(),
    {
        Scheme::new()
    }
}

/// `std::ptr::eq`: whether `a` and `b` are one and the same scheme, at one
/// place in memory. What is one scheme has one value.
#[verifier::external_body]
fn same_scheme(a: &Scheme, b: &Scheme) -> (same: bool)
    ensures
        same ==> a == b,
{
    core::ptr::eq(a, b)
}

/// Two schemes are equal only where they are the same scheme: schemes are
/// never compared by what they hold.
impl PartialEq for Scheme {
    fn eq(&self, other: &Scheme) -> (r: bool)
        ensures
            r ==> self == other,
    {
        same_scheme(self, other)
    }
}

impl Eq for Scheme {

}

impl vstd::std_specs::cmp::PartialEqSpecImpl for Scheme {
    /// Equality of schemes is identity, which no value shows: contracts do
    /// not speak of it.
    open spec fn obeys_eq_spec() -> bool {
        false
    }

    open spec fn eq_spec(&self, other: &Scheme) -> bool {
        self == other
    }
}

/// Two fields are equal where they belong to the same scheme and have the
/// same slot.
impl<'s> PartialEq for Field<'s> {
    fn eq(&self, other: &Field<'s>) -> (r: bool)
        ensures
            r ==> self == other,
    {
        same_scheme(self.scheme, other.scheme) && self.index == other.index
    }
}

impl<'s> Eq for Field<'s> {

}

impl<'s> vstd::std_specs::cmp::PartialEqSpecImpl for Field<'s> {
    /// The scheme of a field is compared by identity, which no value shows:
    /// contracts do not speak of the equality of fields.
    open spec fn obeys_eq_spec() -> bool {
        false
    }

    open spec fn eq_spec(&self, other: &Field<'s>) -> bool {
        self == other
    }
}

/// `Hash::hash` of `str`: feeds the text to the hasher.
#[verifier::external_body]
fn hash_text<H: core::hash::Hasher>(text: &str, state: &mut H) {
    core::hash::Hash::hash(text, state)
}

/// A field is hashed by its name, not by its slot.
impl<'s> core::hash::Hash for Field<'s> {
    fn hash<H: core::hash::Hasher>(&self, state: &mut H) {
        hash_text(self.name(), state)
    }
}

impl<'s> Field<'s> {
    #[verifier::type_invariant]
    spec fn in_scheme(self) -> bool {
        self.index < self.scheme@.len()
    }

    /// The field of `scheme` in slot `index`.
    pub closed spec fn at(scheme: &'s Scheme, index: int) -> Field<'s> {
        Field { scheme, index: index as usize }
    }

    /// The scheme that the field belongs to.
    pub closed spec fn spec_scheme(&self) -> &'s Scheme {
        self.scheme
    }

    /// The field's slot.
    pub closed spec fn spec_index(&self) -> usize {
        self.index
    }

    /// The name under which the field was registered.
    pub open spec fn spec_name(&self) -> Seq<char> {
        self.spec_scheme()@[self.spec_index() as int].0
    }

    /// The type with which the field was registered.
    pub open spec fn spec_type(&self) -> Type {
        self.spec_scheme()@[self.spec_index() as int].1
    }

    /// The name under which the field was registered.
    pub fn name(&self) -> (name: &'s str)
        ensures
            name@ == self.spec_name(),
    {
        proof {
            use_type_invariant(self);
        }
        registry_get_index(&self.scheme.fields, self.index).unwrap().0.as_str()
    }

    /// The field's slot: the number of fields registered before it.
    #[verifier::when_used_as_spec(spec_index)]
    pub fn index(&self) -> (index: usize)
        ensures
            index == self.spec_index(),
            index < self.spec_scheme()@.len(),
    {
        proof {
            use_type_invariant(self);
        }
        self.index
    }

    /// The scheme that the field belongs to.
    #[verifier::when_used_as_spec(spec_scheme)]
    pub fn scheme(&self) -> (scheme: &'s Scheme)
        ensures
            scheme == self.spec_scheme(),
    {
        self.scheme
    }

    /// The type with which the field was registered.
    pub fn get_type(&self) -> (ty: Type)
        ensures
            ty == self.spec_type(),
    {
        proof {
            use_type_invariant(self);
        }
        registry_get_index(&self.scheme.fields, self.index).unwrap().1
    }
}

impl<'i, 's> LexWith<'i, &'s Scheme> for Field<'s> {
    /// A field is written as a dotted name. The name is read greedily, and
    /// all of it is looked up as one key: a shorter registered name does not
    /// count. Where no name can be read, the rest of the text from the
    /// byte that should have been an identifier byte is to blame; where the
    /// name is not registered, the name is.
    open spec fn lexed(text: Seq<u8>, scheme: &'s Scheme) -> Lexed<Field<'s>> {
        match dotted_name(text, 0, true) {
            DottedName::Stuck { at } => Lexed::Failure {
                kind: LexErrorKind::ExpectedName("identifier character"),
                start: at as nat,
                len: (text.len() - at) as nat,
            },
            DottedName::Ends { end } => {
                let name = decode_utf8(text.subrange(0, end));
                if has_name(scheme@, name) {
                    Lexed::Value {
                        value: Field::at(scheme, slot_of(scheme@, name)),
                        consumed: end as nat,
                    }
                } else {
                    Lexed::Failure {
                        kind: LexErrorKind::UnknownField(UnknownFieldError),
                        start: 0,
                        len: end as nat,
                    }
                }
            },
        }
    }

    fn lex_with(input: &'i str, scheme: &'s Scheme) -> (r: LexResult<'i, Field<'s>>) {
        let text = input.as_bytes();
        match scan_dotted_name(text) {
            Err(at) => Err(
                (
                    LexErrorKind::ExpectedName("identifier character"),
                    Span { start: at, len: text.len() - at },
                ),
            ),
            Ok(end) => {
                proof {
                    encode_utf8_valid_utf8(input@);
                    lemma_ascii_byte_is_bounded(input.spec_bytes(), end - 1);
                }
                let (name, rest) = input.split_at(end);
                proof {
                    encode_utf8_decode_utf8(name@);
                }
                match scheme.get_field_index(name) {
                    Ok(field) => Ok((field, rest)),
                    Err(e) => Err((LexErrorKind::UnknownField(e), Span { start: 0, len: end })),
                }
            },
        }
    }
}

} // verus!
