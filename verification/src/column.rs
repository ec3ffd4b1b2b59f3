//! What the codec needs to know of a column's type.

use vstd::prelude::*;

verus! {

/// The type of a column, as far as the decimal codec tells types apart.
#[derive(Debug)]
pub enum ColumnKind {
    /// The CQL type `decimal`.
    Decimal,
    /// Any other type, with the name to show for it.
    Other(String),
}

/// The detail of a type mismatch: the type expected, then the type found.
pub open spec fn mismatch_detail(found: Seq<char>) -> Seq<char> {
    "Expected Decimal, got "@ + found
}

} // verus!
