//! A pattern engine for tagged unions: validates the variants of an
//! enum-like declaration against shape patterns, unifies pattern-level
//! type variables with concrete field types, propagates trait bounds
//! into the declaration's where-clause, and plans dispatch
//! implementations for traits marked dispatchable (`^`).
//!
//! - `text` holds the token splitter and the canonical text of a type:
//!   two types are equal to the engine iff their canonical texts are.
//! - `model` is the syntax model; `parse` builds it from source text.
//! - `comparable` decides shape compatibility, `polym` keeps the
//!   variable-to-type bindings, `registry` the dispatchable traits,
//!   `dispatch` the planned implementation blocks.
//! - `penum` is the engine itself: `assemble_spec` specifies the whole
//!   pass and `Penum::assemble` is proved to compute it; `emit`
//!   renders the enriched declaration and the blocks.
//! - `laws` proves the engine's invariants: shape and type soundness,
//!   binding and dispatch coverage, re-validation stability, and that
//!   diagnostics are never dropped.

pub mod comparable;
pub mod dispatch;
pub mod emit;
pub mod error;
pub mod laws;
pub mod model;
pub mod parse;
pub mod penum;
pub mod polym;
pub mod registry;
pub mod text;
pub mod traits;

pub use error::ErrorStash;
pub use error::Span;
pub use model::PenumExpr;
pub use model::Subject;
pub use penum::Assembled;
pub use penum::expand;
pub use penum::Penum;
pub use penum::Unassembled;
pub use parse::parse_pattern;
pub use parse::parse_pattern_fragment;
pub use registry::TraitRegistry;
