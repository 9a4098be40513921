//! The static type of a field.

use vstd::prelude::*;

verus! {

/// The kind of data a field holds. The scheme only stores and returns it.
#[derive(Clone, Copy, Debug, PartialEq, Eq, Hash, Structural)]
pub enum Type {
    /// A byte string.
    Bytes,
    /// An unsigned integer.
    Unsigned,
    /// A boolean flag.
    Bool,
}

} // verus!
