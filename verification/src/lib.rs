//! Translates a register-transfer-level hardware description from its source
//! language (entities, architectures, signals, processes) into two target
//! dialects (modules, always blocks, continuous assignments), through an
//! owned, language-neutral intermediate representation.

pub mod agent;
pub mod errors;
pub mod ir;
pub mod laws;
pub mod parser;
pub mod text;
pub mod tools;

pub use ir::{Entity, Port, PortDirection, VHDLType};
