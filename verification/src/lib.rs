//! A small interpreted scripting language: source text is tokenized, parsed
//! into a syntax tree, lowered to stack-machine instructions and executed.
//!
//! Every stage is a verified function whose contract is stated over a
//! mathematical model of its input and output:
//!
//! - [`lexer::tokenize`] computes [`lexer::lex`],
//! - [`parser::Parser::parse`] computes [`parser::statements`],
//! - [`compiler::compile`] computes [`compiler::lower`],
//! - [`vm::VM::run`] and [`vm::VM::resume`] compute [`vm::launch`] and
//!   [`vm::answer`].
//!
//! [`balance`] proves that what parses runs with a balanced stack, and
//! [`literals`] that integer literals keep their value through lexing and
//! writing.
//!
//! Floating-point numbers never enter the library as hardware values. A float
//! literal travels as the text that was written, a float value as its IEEE-754
//! binary64 bit pattern, and every floating-point operation is handed to the
//! caller as a [`vm::FloatJob`]; the machine goes on once the answer is in.

pub mod chars;
pub mod decimal;
pub mod arith;
pub mod float;
pub mod value;
pub mod error;
pub mod lexer;
pub mod ast;
pub mod parser;
pub mod ir;
pub mod compiler;
pub mod vm;
pub mod balance;
pub mod literals;
