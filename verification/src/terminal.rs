//! The terminal capability boundary: a machine needs exactly two operations
//! from its host — enter raw (unbuffered, unechoed) input mode, and restore
//! the original mode — invoked once each at run start and run end. Hosts
//! implement this per platform; nothing is assumed of the implementations.

use vstd::prelude::*;

use crate::error::VMError;

verus! {

/// What a host must offer so a machine can run: raw input mode on, raw
/// input mode off.
pub trait TerminalInterface {
    /// Put the host's input into raw mode: no line buffering, no echo.
    fn disable_input_buffering(&mut self) -> Result<(), VMError>;

    /// Restore the input mode that held before raw mode was entered.
    fn restore_input_buffering(&self) -> Result<(), VMError>;
}

/// A terminal whose two operations do nothing and always succeed: for hosts
/// whose input needs no mode change, and for exercising a machine without
/// touching the terminal.
pub struct NoopTerminal;

impl TerminalInterface for NoopTerminal {
    fn disable_input_buffering(&mut self) -> Result<(), VMError> {
        Ok(())
    }

    fn restore_input_buffering(&self) -> Result<(), VMError> {
        Ok(())
    }
}

} // verus!
