//! A small imperative language: integer algebra, lexer, parser, name
//! resolution, bytecode lowering and a stack machine, with machine-checked
//! contracts.

pub mod ast;
pub mod bytecode;
pub mod cache;
pub mod codegen;
pub mod correctness;
pub mod executor;
pub mod interpreter;
pub mod lexer;
pub mod literals;
pub mod machine;
pub mod memory;
pub mod names;
pub mod order;
pub mod parser;
pub mod plugin;
pub mod profiler;
pub mod rule_processor;
pub mod semantic;
pub mod text;
pub mod types;
