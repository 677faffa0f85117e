//! A minimal Lisp: a reader that turns text into a tree of tagged values and
//! an evaluator that interprets that tree against a chain of binding frames.
//!
//! Every value of the language is an [`types::Element`]; its mathematical
//! model is [`semantics::Val`].  The evaluator itself is specified by a
//! spec-level interpreter in [`semantics`], and the executable evaluator in
//! [`eval`] is proved to compute exactly what that interpreter says.

pub mod eval;
pub mod functypes;
pub mod laws;
pub mod primitives;
pub mod semantics;
pub mod strutil;
pub mod tokenizer;
pub mod types;
