//! The register file: eight general-purpose registers, the program counter,
//! and the condition-flag register, addressed by index 0 through 9.

use vstd::prelude::*;

verus! {

/// How many register slots a machine has (R0..R7, PC, COND).
pub const REGISTER_COUNT: usize = 10;

/// Index of the program counter in the register file.
pub const R_PC: usize = 8;

/// Index of the condition-flag register in the register file.
pub const R_COND: usize = 9;

/// Condition flag: the last written value was positive.
pub const FL_POS: u16 = 1;

/// Condition flag: the last written value was zero.
pub const FL_ZRO: u16 = 2;

/// Condition flag: the last written value was negative (high bit set).
pub const FL_NEG: u16 = 4;

/// A named register slot.
#[derive(Clone, Copy, Debug, PartialEq, Eq, Structural)]
pub enum Register {
    R0,
    R1,
    R2,
    R3,
    R4,
    R5,
    R6,
    R7,
    PC,
    COND,
}

impl Register {
    /// The slot this register occupies in the register file.
    pub open spec fn index_spec(self) -> int {
        match self {
            Register::R0 => 0,
            Register::R1 => 1,
            Register::R2 => 2,
            Register::R3 => 3,
            Register::R4 => 4,
            Register::R5 => 5,
            Register::R6 => 6,
            Register::R7 => 7,
            Register::PC => 8,
            Register::COND => 9,
        }
    }

    /// The slot this register occupies in the register file.
    pub fn index(self) -> (i: usize)
        ensures
            i == self.index_spec(),
            i < REGISTER_COUNT,
    {
        match self {
            Register::R0 => 0,
            Register::R1 => 1,
            Register::R2 => 2,
            Register::R3 => 3,
            Register::R4 => 4,
            Register::R5 => 5,
            Register::R6 => 6,
            Register::R7 => 7,
            Register::PC => 8,
            Register::COND => 9,
        }
    }

    /// The register that occupies slot `index`, if any: defined exactly for
    /// indices 0 through 9.
    pub fn from_index(index: usize) -> (r: Option<Register>)
        ensures
            index < REGISTER_COUNT ==> (r matches Some(reg) && reg.index_spec() == index),
            index >= REGISTER_COUNT ==> r is None,
    {
        match index {
            0 => Some(Register::R0),
            1 => Some(Register::R1),
            2 => Some(Register::R2),
            3 => Some(Register::R3),
            4 => Some(Register::R4),
            5 => Some(Register::R5),
            6 => Some(Register::R6),
            7 => Some(Register::R7),
            8 => Some(Register::PC),
            9 => Some(Register::COND),
            _ => None,
        }
    }
}

} // verus!
