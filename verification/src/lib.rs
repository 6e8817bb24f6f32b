//! A parser and evaluator for an ASCII/Unicode-grapheme encoding of the
//! untyped lambda calculus, extended with curried-abstraction shorthand,
//! splice slots that insert already-built terms at parse time, and explicit
//! hygiene-scope markers that force fresh variable naming.
//!
//! Source text flows through bracket segmentation, tokenization and AST
//! construction into the [`term::Lambda`] type; evaluation alpha-renames the
//! term so that no two binders collide, reduces it to normal form in
//! normal order, and alpha-renames the result again.

pub mod alphabet;
pub mod error;
pub mod hygiene;
pub mod laws;
pub mod outside;
pub mod parse;
pub mod reduce;
pub mod render;
pub mod term;
