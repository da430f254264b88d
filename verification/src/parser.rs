//! The lifters: source text to IR.
//!
//! Two independent strategies produce the same IR: a character-level scanner
//! over the raw text, and a walk over an owned concrete syntax tree.

pub mod ast_lifter;
pub mod syntax_tree;
pub mod vhdl;

pub use vhdl::VHDLParser;


