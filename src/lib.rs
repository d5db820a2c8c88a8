//! An interpreter for the CHIP-8 virtual machine: the model of its state and
//! the semantics of each instruction (`state`), the executable machine proved
//! against that model (`machine`), and laws that hold of the instruction set (`laws`).

pub mod state;
pub mod machine;
pub mod laws;
