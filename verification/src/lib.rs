//! A small Scheme-like language: a reader, source-to-AST rewriting passes,
//! a `syntax-rules` macro expander, a tree-walking evaluator with proper
//! tail calls, and a host-embedding facade.
//!
//! Every data structure carries a mathematical view (`Seq`/`Map`-based), and
//! the evaluator is specified against a fuel-indexed big-step interpreter
//! over those views.

pub mod ast;
pub mod engine;
pub mod env;
pub mod evaluator;
pub mod expander;
pub mod primitives;
pub mod errors;
pub mod parser;
pub mod rewriter;
pub mod stack;
pub mod stdlib;
pub mod values;

use vstd::prelude::*;

verus! {

} // verus!
