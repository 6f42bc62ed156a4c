//! A verified truth-table generator for single boolean-algebra statements.
//!
//! One input line such as `c = a * b + !a;` is tokenized, parsed into an
//! expression tree, analyzed for the variables it reads, and enumerated over
//! every combination of truth values of those variables, yielding one table
//! row per combination.

pub mod token_type;
pub mod token;
pub mod expr;
pub mod stmt;
pub mod environment;
pub mod lexer;
pub mod parser;
pub mod interpreter;
pub mod assign_parser;
pub mod sorting;
pub mod truth_table_printer;
