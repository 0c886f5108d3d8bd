//! Semantic analysis helpers of a Solidity compiler: source locations and
//! diagnostics, source files, string literal escapes, format strings,
//! integer type coercion and literal resolution.

pub mod arithmetic;
pub mod assign;
pub mod constructor;
pub mod ast;
pub mod diagnostics;
pub mod expression;
pub mod file;
pub mod integers;
pub mod literals;
pub mod format;
pub mod function_annotation;
pub mod function_call;
pub mod namespace;
pub mod number;
pub mod pt;
pub mod strings;
pub mod text;
pub mod types;
pub mod utf8;
