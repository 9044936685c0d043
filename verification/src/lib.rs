//! An emulator for the LC-3, a small 16-bit register machine: ten registers,
//! a flat 64K-word memory with a memory-mapped keyboard device, and sixteen
//! fixed-encoding instructions interpreted one word at a time.

pub mod bits;
pub mod error;
pub mod host;
pub mod machine;
pub mod memory;
pub mod ops;
pub mod register;
pub mod terminal;

pub use error::VMError;
pub use machine::VM;
pub use memory::Memory;
pub use ops::OpCode;
pub use register::Register;
pub use terminal::{NoopTerminal, TerminalInterface};
