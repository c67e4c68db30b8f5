//! A small language for writing input/output tests of programs: its lexer,
//! parser, type checker and interpreter.

pub mod text;
pub mod binary;
pub mod cli;
pub mod environment;
pub mod error;
pub mod instruction;
pub mod interpreter;
pub mod lexer;
pub mod operators;
pub mod parser;
pub mod process;
pub mod regex;
pub mod report;
pub mod token;
pub mod type_checker;
pub mod types;
pub mod values;
pub mod variable;
