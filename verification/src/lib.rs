//! Evaluation runtime of a small lazy, dynamically typed expression language:
//! values and their forcing, call-site argument bundles, signature binding,
//! persistent lists and dictionaries, with the surface parser and the
//! expression compiler that feed it.

pub mod ast;
pub mod compile;
pub mod parse;
pub mod runtime;
