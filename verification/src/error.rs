//! The error model: every failure is terminal for the run. An I/O failure
//! wraps the rendered cause, an invalid opcode carries the offending
//! numeric code, and a malformed program image is rejected at load time.

use vstd::prelude::*;

verus! {

/// Why a run (or a load) was aborted.
#[derive(Debug)]
pub enum VMError {
    /// A read, write, flush or terminal-mode change failed; carries the
    /// rendered cause.
    IO(String),
    /// Decode or trap dispatch met a value with no defined handler;
    /// carries the offending code.
    InvalidOpCode(u16),
    /// The program image was structurally malformed or does not fit in
    /// memory.
    InvalidProgram,
}

} // verus!
