//! An arithmetic expression engine for graph nodes: a tokenizer and parser,
//! the ordered free-variable list of an expression, a postfix evaluation
//! program, and the reconciliation of a node's input slots when its
//! expression text changes.

pub mod ast;
pub mod bindings;
pub mod chars;
pub mod error;
pub mod grammar;
pub mod node;
pub mod nodes;
pub mod parser;
pub mod printing;
pub mod program;
pub mod reconcile;
pub mod token;
