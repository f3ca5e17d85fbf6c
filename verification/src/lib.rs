pub mod access;
pub mod stack;
pub mod rand;
pub mod error;
pub mod errors;
pub mod memory;
pub mod encoding;
pub mod ascii85;
pub mod hex;
pub mod map;
pub mod container;
pub mod operators;
pub mod name;
pub mod object;
pub mod operator;
pub mod interpreter;
pub mod token;
pub mod file;
pub mod traits;
pub mod number;
pub mod scanner;
pub mod tokenizer;
pub mod execution;
pub mod evaluator;
