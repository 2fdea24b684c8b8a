//! A calculator language whose values can be time-varying signals.
//!
//! The crate holds the tokenizer, the parser, the evaluator, the signal
//! algebra and the sample-stream engine of the language, and a small
//! notation for scores.
//!
//! Real numbers are carried as IEEE-754 binary64 bit patterns. The library
//! inspects their bits - it negates, compares and converts them - and asks
//! a caller-supplied arithmetic service for every sum, product and
//! transcendental function, one operation at a time. What a function
//! computes is therefore stated relative to that service: each contract
//! says which operations are asked, on which operands, and what is done
//! with their answers.

pub mod pos;
pub mod number;
pub mod function;
pub mod value;
pub mod sound;
pub mod stream;
pub mod ast;
pub mod error;
pub mod environment;
pub mod evaluate;
pub mod token;
pub mod slicer;
pub mod lexer;
pub mod parser;
pub mod laws;
pub mod determined;
pub mod score;
