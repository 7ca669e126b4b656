//! A type checker for a small expression language with refinement types:
//! bounded integer ranges, pattern-constrained strings and function arrows,
//! with unification-based inference and let-polymorphism.
//!
//! [`typeck`] takes a set of declarations and returns the same program with
//! every expression annotated by an interned, variable-free type.

pub mod error;
pub mod hir;
pub mod intern;
pub mod laws;
pub mod mir;
pub mod model;
pub mod names;
pub mod regex;
pub mod typeck;
pub mod types;

pub use crate::error::TypeError;
pub use crate::regex::Regex;
pub use crate::typeck::typeck;
