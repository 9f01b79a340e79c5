//! A miniature expression compiler: a tokenizer and a recursive-descent parser
//! for arithmetic over the digits `0`, `1` and `2`, `+`, `*` and parentheses;
//! an expression tree that evaluates, prints and compiles itself; and a small
//! stack machine that runs the compiled code.
//!
//! Every operation is stated over spec functions: `ast::value`,
//! `ast::full_text`, `ast::minimal_text` and `ast::code_of` for trees,
//! `parser::parse_text` for the grammar and `vm::run_result` for the machine.
pub mod ast;
pub mod decimal;
pub mod parser;
pub mod round_trip;
pub mod tokenizer;
pub mod vm;
