//! A verified infix arithmetic pipeline: a tokenizer that turns text into a
//! token sequence, a shunting-yard converter that reorders it into postfix
//! form, and a stack evaluator that reduces a postfix sequence to one value.
//!
//! The numeric payload of a token is an arbitrary `Copy` type: the pipeline
//! never inspects a number's value, so scanning, reordering and stack
//! discipline are verified once for every payload. Callers supply the payload
//! operations (parsing a literal, the arithmetic) as closures; each contract
//! pins the result down in terms of those operations.

pub mod evaluator;
pub mod helpers;
pub mod laws;
pub mod round_trip;
pub mod shunting_yard;
pub mod tokenizer;
