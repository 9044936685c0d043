//! The instruction decoder: the 4-bit opcode field selects one of sixteen
//! operation variants, two of which (RTI and RES) are architecturally
//! reserved and always invalid in this profile.

use vstd::prelude::*;

verus! {

/// Trap vector: read one character, no echo.
pub const TRAP_GETC: u16 = 0x20;

/// Trap vector: write one character.
pub const TRAP_OUT: u16 = 0x21;

/// Trap vector: write a word string (one character per word).
pub const TRAP_PUTS: u16 = 0x22;

/// Trap vector: prompt, read one character, echo it.
pub const TRAP_IN: u16 = 0x23;

/// Trap vector: write a byte string (two packed characters per word).
pub const TRAP_PUTSP: u16 = 0x24;

/// Trap vector: halt the program.
pub const TRAP_HALT: u16 = 0x25;

/// One of the sixteen operations the 4-bit opcode field can select.
#[derive(Clone, Copy, Debug, PartialEq, Eq, Structural)]
pub enum OpCode {
    /// Conditional branch.
    BR,
    /// Addition.
    ADD,
    /// Load.
    LD,
    /// Store.
    ST,
    /// Jump to subroutine.
    JSR,
    /// Bitwise and.
    AND,
    /// Load base+offset.
    LDR,
    /// Store base+offset.
    STR,
    /// Return from interrupt: reserved, always invalid here.
    RTI,
    /// Bitwise complement.
    NOT,
    /// Load indirect.
    LDI,
    /// Store indirect.
    STI,
    /// Jump.
    JMP,
    /// Reserved, always invalid here.
    RES,
    /// Load effective address.
    LEA,
    /// System call.
    TRAP,
}

impl OpCode {
    /// The numeric value of this opcode in the instruction encoding.
    pub open spec fn code_spec(self) -> u16 {
        match self {
            OpCode::BR => 0,
            OpCode::ADD => 1,
            OpCode::LD => 2,
            OpCode::ST => 3,
            OpCode::JSR => 4,
            OpCode::AND => 5,
            OpCode::LDR => 6,
            OpCode::STR => 7,
            OpCode::RTI => 8,
            OpCode::NOT => 9,
            OpCode::LDI => 10,
            OpCode::STI => 11,
            OpCode::JMP => 12,
            OpCode::RES => 13,
            OpCode::LEA => 14,
            OpCode::TRAP => 15,
        }
    }

    /// The numeric value of this opcode in the instruction encoding.
    pub fn code(self) -> (c: u16)
        ensures
            c == self.code_spec(),
    {
        match self {
            OpCode::BR => 0,
            OpCode::ADD => 1,
            OpCode::LD => 2,
            OpCode::ST => 3,
            OpCode::JSR => 4,
            OpCode::AND => 5,
            OpCode::LDR => 6,
            OpCode::STR => 7,
            OpCode::RTI => 8,
            OpCode::NOT => 9,
            OpCode::LDI => 10,
            OpCode::STI => 11,
            OpCode::JMP => 12,
            OpCode::RES => 13,
            OpCode::LEA => 14,
            OpCode::TRAP => 15,
        }
    }

    /// Decode an opcode value: total over the representable 4-bit range
    /// (every value 0 through 15 decodes, reserved codes included), and
    /// undefined beyond it.
    pub fn from_u16(value: u16) -> (r: Option<OpCode>)
        ensures
            value < 16 ==> (r matches Some(op) && op.code_spec() == value),
            value >= 16 ==> r is None,
    {
        match value {
            0 => Some(OpCode::BR),
            1 => Some(OpCode::ADD),
            2 => Some(OpCode::LD),
            3 => Some(OpCode::ST),
            4 => Some(OpCode::JSR),
            5 => Some(OpCode::AND),
            6 => Some(OpCode::LDR),
            7 => Some(OpCode::STR),
            8 => Some(OpCode::RTI),
            9 => Some(OpCode::NOT),
            10 => Some(OpCode::LDI),
            11 => Some(OpCode::STI),
            12 => Some(OpCode::JMP),
            13 => Some(OpCode::RES),
            14 => Some(OpCode::LEA),
            15 => Some(OpCode::TRAP),
            _ => None,
        }
    }
}

} // verus!
