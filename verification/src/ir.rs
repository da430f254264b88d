//! The language-neutral intermediate representation: entities, ports,
//! generics, architectures, signals and processes, together with the two
//! target-dialect generators that render it.

pub mod gen;
pub mod model;
pub mod systemverilog_gen;
pub mod verilog_gen;

pub use systemverilog_gen::SystemVerilogGenerator;
pub use verilog_gen::VerilogGenerator;
pub use model::{Architecture, Entity, Generic, Port, PortDirection, Process, Signal, VHDLType,
    VectorRange};
