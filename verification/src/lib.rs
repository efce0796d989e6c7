//! Deterministic single-tape Turing machines: a definition-language parser,
//! a step-wise execution engine over a sparse tape, and combinators that
//! splice machine definitions into new, namespace-consistent definitions.

pub mod compose;
pub mod error;
pub mod grammar;
pub mod laws;
pub mod machine;
pub mod parts;
pub mod token;
