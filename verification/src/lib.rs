//! A small bytecode language: a scanner, a single-pass compiler to bytecode,
//! and a stack-based virtual machine, with their behaviour stated and proved.

pub mod chunk_values;
pub mod text;
pub mod scanner;
pub mod table;
pub mod debug;
pub mod vm;
pub mod compiler;
pub mod grammar;
pub mod laws;
pub mod behaviour;
