//! The front end and execution core of a small dynamically-typed
//! scripting language: a scanner from source text to tokens, a
//! recursive-descent parser from tokens to statements, and a
//! tree-walking evaluator with lexical scoping, closures, and a
//! pluggable module-import mechanism. Every stage carries a
//! mathematical model and is proved to compute exactly what the model
//! says.

pub mod num;
pub mod token;
pub mod ast;
pub mod lexer;
pub mod parser;
pub mod value;
pub mod interp;
pub mod builtins;
pub mod utils;
pub mod cli;
