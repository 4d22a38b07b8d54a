//! A small interpreter for a Lisp-like expression language.
pub mod evaluator;
pub mod lexzer;
pub mod meta;
pub mod object;
pub mod parser;
pub mod text;
pub mod theorems;
