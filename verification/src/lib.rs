//! A small job-running shell: reading a command line, expanding its variables,
//! and deciding what the process has to do next.

pub mod cd;
pub mod combinators;
pub mod command;
pub mod grammar;
pub mod laws;
pub mod parser;
pub mod shell;
pub mod text;
pub mod token;
pub mod variables;
