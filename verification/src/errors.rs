//! Configuration faults: everything that makes one declared conversion
//! impossible to generate. Each is found at generation time and aborts
//! only the conversion it belongs to; locations are indices into the
//! declaration handed in.

use vstd::prelude::*;

verus! {

/// A configuration fault in one declared conversion.
#[derive(Debug, PartialEq, Eq, Structural, Clone, Copy)]
pub enum ConvError {
    /// More than one path-scoped directive on the field matches the other
    /// type of this conversion.
    DuplicatePathDirective { field: usize },
    /// More than one directive on the field is scoped to this conversion's
    /// direction without a path.
    DuplicateDirectionDirective { field: usize },
    /// The field asks for `unwrap` and `unwrap_or_default` at once.
    UnwrapConflict { field: usize },
    /// The field asks for an unwrap, is not optional, and this side is the
    /// source: there is nothing to unwrap into.
    UnwrapNonOptional { field: usize },
    /// A validation hook is declared on an infallible direction.
    ValidateOnInfallible { conversion: usize },
    /// The plan fills remaining fields with defaults, but the target shape
    /// is positional.
    DefaultOnPositional,
    /// The declaration is a unit-shaped aggregate, which cannot take part
    /// in conversion.
    UnitShape,
    /// The variant has no counterpart of its mapped name on the other side.
    MissingCounterpart { variant: usize },
    /// A variant of the other side is the image of no variant here.
    UnmatchedVariant { other: usize },
}

} // verus!
