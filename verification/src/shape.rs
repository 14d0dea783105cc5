//! The closed container-shape vocabulary in which a field's declared type is
//! described: a plain named type, or one container layer (optional, ordered
//! sequence, keyed mapping) around further shapes.

use vstd::prelude::*;

verus! {

/// A field's declared type, as handed over by the type-description facility.
///
/// Anything that is not one of the three recognized containers arrives as
/// `Named` and takes part in conversion as one opaque plain value.
#[derive(Debug, PartialEq, Eq)]
pub enum DeclaredType {
    /// A non-container type, carried by name.
    Named(String),
    /// An optional value of the inner type.
    Optional(Box<DeclaredType>),
    /// An ordered, owned sequence of the inner type.
    Sequence(Box<DeclaredType>),
    /// A keyed mapping with unique keys; insertion order is irrelevant.
    Mapping(Box<DeclaredType>, Box<DeclaredType>),
}

impl DeclaredType {
    /// Holds when the outermost layer of the declared type is optional.
    pub open spec fn spec_is_optional(&self) -> bool {
        self is Optional
    }

    /// Whether the outermost layer of the declared type is optional.
    #[verifier::when_used_as_spec(spec_is_optional)]
    pub fn is_optional(&self) -> (r: bool)
        ensures
            r == self.spec_is_optional(),
    {
        match self {
            DeclaredType::Optional(_) => true,
            _ => false,
        }
    }

    /// The type inside an outermost optional layer, if there is one.
    pub fn optional_inner(&self) -> (r: Option<&DeclaredType>)
        ensures
            match r {
                Some(inner) => self matches DeclaredType::Optional(t) && inner == &**t,
                None => !(self is Optional),
            },
    {
        match self {
            DeclaredType::Optional(inner) => Some(inner),
            _ => None,
        }
    }
}

} // verus!
