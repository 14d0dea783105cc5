//! A type-directed conversion generator: given the declared shape of a data
//! type (struct or enum) and a set of per-type and per-field directives, it
//! builds conversion routines between structurally similar types, in both
//! infallible (`into`/`from`) and fallible (`try_into`/`try_from`) forms.
//!
//! The crate models declared field types as a closed container-shape tree
//! (`shape`), normalizes directives into one effective plan per field
//! (`meta`, `field`, `variant`), resolves each field into a conversion
//! strategy (`strategy`), and assembles the per-field strategies into one
//! routine per declared conversion (`routine`). The run-time meaning of a
//! routine is realized by verified interpreters over a modelled value space
//! (`value`, `convert`, `fallible`, `runner`), so the behaviour of every
//! generated conversion is stated and proved here; the engine-wide
//! guarantees live in `laws`.

pub mod convert;
pub mod errors;
pub mod fallible;
pub mod field;
pub mod laws;
pub mod message;
pub mod meta;
pub mod routine;
pub mod runner;
pub mod shape;
pub mod strategy;
pub mod value;
pub mod variant;
