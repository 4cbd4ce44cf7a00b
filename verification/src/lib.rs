//! Evaluation core for a declarative filter/query language over structured
//! document records: a lexer, a recursive-descent parser, a tree-walking
//! evaluator, and a boolean filter-tree combinator.

pub mod base;
pub mod eval;
pub mod filter;
pub mod lexer;
pub mod note;
pub mod num;
pub mod parser;
pub mod props;
pub mod text;
pub mod value;

pub use value::Val;
