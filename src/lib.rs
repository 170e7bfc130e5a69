//! An interpreter for a small Forth dialect: a data stack, a dictionary of
//! built-in and user-defined words, a compiler that turns `: name ... ;`
//! definitions into stored instruction sequences, and an execution engine
//! whose behaviour is stated by a specification-level interpreter.

pub mod compiler;
pub mod dictionary;
pub mod instructions;
pub mod laws;
pub mod machine;
pub mod text;
pub mod tokenizer;
pub mod value;

pub use dictionary::{Dictionary, Function, Primitive};
pub use machine::Machine;
pub use tokenizer::tokenize_input;
pub use value::{ErrorType, Output, Value};
