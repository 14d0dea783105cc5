//! The conversion-strategy tree and its resolver: from a field's declared
//! type (and its unwrap directives) to the plan the synthesizer walks.

use vstd::prelude::*;
use crate::shape::DeclaredType;

verus! {

/// A conversion strategy: one node per container layer of the declared
/// type, with the unwrap-related wrappers inserted at most once, at the
/// field's outermost optional position.
#[derive(Debug, PartialEq, Eq)]
pub enum ConversionStrategy {
    /// Convert one opaque plain value through its declared conversion.
    Plain,
    /// Convert inside an optional, keeping the optional layer.
    Optional(Box<ConversionStrategy>),
    /// Convert each element of an ordered sequence.
    Sequence(Box<ConversionStrategy>),
    /// Convert each key and each value of a keyed mapping.
    Mapping(Box<ConversionStrategy>, Box<ConversionStrategy>),
    /// Demand the optional be present, then convert what it holds.
    UnwrapOptional(Box<ConversionStrategy>),
    /// Take what the optional holds, or the zero value when empty.
    UnwrapOrDefault(Box<ConversionStrategy>),
    /// Convert, then wrap the result in a present optional.
    WrapSome(Box<ConversionStrategy>),
}

/// A fault found while resolving a field's unwrap directives.
#[derive(Debug, PartialEq, Eq, Structural)]
pub enum UnwrapFault {
    /// `unwrap` and `unwrap_or_default` were both requested.
    Conflict,
    /// An unwrap was requested where nothing can be unwrapped: the field is
    /// not optional, and the direction reads this side as the source.
    NotOptional,
}

/// The strategy a declared type resolves to when no unwrap directive is
/// set: one node per recognized container layer, `Plain` at everything
/// else.
pub open spec fn spec_resolve(t: DeclaredType) -> ConversionStrategy
    decreases t,
{
    match t {
        DeclaredType::Named(_) => ConversionStrategy::Plain,
        DeclaredType::Optional(inner) => ConversionStrategy::Optional(
            Box::new(spec_resolve(*inner)),
        ),
        DeclaredType::Sequence(inner) => ConversionStrategy::Sequence(
            Box::new(spec_resolve(*inner)),
        ),
        DeclaredType::Mapping(key, value) => ConversionStrategy::Mapping(
            Box::new(spec_resolve(*key)),
            Box::new(spec_resolve(*value)),
        ),
    }
}

/// The strategy a declared type resolves to under the given unwrap
/// directives, or the fault that makes the directives unusable.
pub open spec fn spec_resolve_with_unwrap(
    t: DeclaredType,
    is_from: bool,
    unwrap: bool,
    unwrap_or_default: bool,
) -> Result<ConversionStrategy, UnwrapFault> {
    if unwrap && unwrap_or_default {
        Err(UnwrapFault::Conflict)
    } else if !unwrap && !unwrap_or_default {
        Ok(spec_resolve(t))
    } else {
        match t {
            DeclaredType::Optional(inner) => if is_from {
                Ok(ConversionStrategy::WrapSome(Box::new(spec_resolve(*inner))))
            } else if unwrap {
                Ok(ConversionStrategy::UnwrapOptional(Box::new(spec_resolve(*inner))))
            } else {
                Ok(ConversionStrategy::UnwrapOrDefault(Box::new(spec_resolve(*inner))))
            },
            _ => if is_from {
                if unwrap {
                    Ok(ConversionStrategy::UnwrapOptional(Box::new(spec_resolve(t))))
                } else {
                    Ok(ConversionStrategy::UnwrapOrDefault(Box::new(spec_resolve(t))))
                }
            } else {
                Err(UnwrapFault::NotOptional)
            },
        }
    }
}

/// Resolves a declared type into its conversion strategy by peeling one
/// recognized container layer at a time; anything else is `Plain`.
pub fn resolve_strategy(t: &DeclaredType) -> (r: ConversionStrategy)
    ensures
        r == spec_resolve(*t),
    decreases *t,
{
    match t {
        DeclaredType::Named(_) => ConversionStrategy::Plain,
        DeclaredType::Optional(inner) => ConversionStrategy::Optional(
            Box::new(resolve_strategy(inner)),
        ),
        DeclaredType::Sequence(inner) => ConversionStrategy::Sequence(
            Box::new(resolve_strategy(inner)),
        ),
        DeclaredType::Mapping(key, value) => ConversionStrategy::Mapping(
            Box::new(resolve_strategy(key)),
            Box::new(resolve_strategy(value)),
        ),
    }
}

/// Resolves a declared type under the field's effective unwrap directives.
///
/// With no unwrap directive set this is plain resolution. With one set,
/// the outermost optional layer decides: a field that is itself optional
/// is unwrapped (or wrapped back into a present optional when the other
/// side is the source); a field that is not optional can only stand for
/// the other side's optional when the other side is the source.
pub fn resolve_with_unwrap(
    t: &DeclaredType,
    is_from: bool,
    unwrap: bool,
    unwrap_or_default: bool,
) -> (r: Result<ConversionStrategy, UnwrapFault>)
    ensures
        r == spec_resolve_with_unwrap(*t, is_from, unwrap, unwrap_or_default),
{
    if unwrap && unwrap_or_default {
        return Err(UnwrapFault::Conflict);
    }
    if !unwrap && !unwrap_or_default {
        return Ok(resolve_strategy(t));
    }
    match t {
        DeclaredType::Optional(inner) => {
            let inner_strategy = resolve_strategy(inner);
            if is_from {
                Ok(ConversionStrategy::WrapSome(Box::new(inner_strategy)))
            } else if unwrap {
                Ok(ConversionStrategy::UnwrapOptional(Box::new(inner_strategy)))
            } else {
                Ok(ConversionStrategy::UnwrapOrDefault(Box::new(inner_strategy)))
            }
        },
        _ => {
            if is_from {
                let whole = resolve_strategy(t);
                if unwrap {
                    Ok(ConversionStrategy::UnwrapOptional(Box::new(whole)))
                } else {
                    Ok(ConversionStrategy::UnwrapOrDefault(Box::new(whole)))
                }
            } else {
                Err(UnwrapFault::NotOptional)
            }
        },
    }
}

/// Holds when a strategy is made of container layers and plain leaves
/// only, with no unwrap-related wrapper anywhere.
pub open spec fn container_only(s: ConversionStrategy) -> bool
    decreases s,
{
    match s {
        ConversionStrategy::Plain => true,
        ConversionStrategy::Optional(inner) => container_only(*inner),
        ConversionStrategy::Sequence(inner) => container_only(*inner),
        ConversionStrategy::Mapping(key, value) => container_only(*key) && container_only(*value),
        ConversionStrategy::UnwrapOptional(_) => false,
        ConversionStrategy::UnwrapOrDefault(_) => false,
        ConversionStrategy::WrapSome(_) => false,
    }
}

/// A strategy resolved without unwrap directives has container layers and
/// plain leaves only.
pub proof fn lemma_resolve_container_only(t: DeclaredType)
    ensures
        container_only(spec_resolve(t)),
    decreases t,
{
    match t {
        DeclaredType::Named(_) => {},
        DeclaredType::Optional(inner) => lemma_resolve_container_only(*inner),
        DeclaredType::Sequence(inner) => lemma_resolve_container_only(*inner),
        DeclaredType::Mapping(key, value) => {
            lemma_resolve_container_only(*key);
            lemma_resolve_container_only(*value);
        },
    }
}

} // verus!
