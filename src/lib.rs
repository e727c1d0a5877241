//! Execution core of a small SQL-like query language: tokenizer, expression
//! evaluator and statement pipeline over text-valued records.
pub mod diagnostic;
pub mod expression;
pub mod object;
pub mod statement;
pub mod text;
pub mod tokenizer;
