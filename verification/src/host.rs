//! The character-stream boundary: thin trusted calls into the host process's
//! standard input and output. Each function wraps one outside call; what a
//! read returns depends on the terminal, so nothing is promised of the bytes
//! themselves and every caller states what holds of any outcome.

use vstd::prelude::*;

use crate::error::VMError;

verus! {

/// Relies on nix's select with a zero timeout: reports how many of the
/// watched descriptors (here only standard input) are ready, without
/// blocking. The outcome depends on the terminal, so nothing is promised
/// of it.
#[verifier::external_body]
pub(crate) fn select_stdin_ready() -> (r: Result<i32, ()>) {
    let mut readfds = nix::sys::select::FdSet::new();
    readfds.insert(0);
    let mut timeout = nix::sys::time::TimeVal::new(0, 0);
    match nix::sys::select::select(1, Some(&mut readfds), None, None, Some(&mut timeout)) {
        Ok(n) => Ok(n),
        Err(_) => Err(()),
    }
}

/// Relies on std's Read::read on standard input: fills at most one byte of
/// the zero-initialized buffer, so the result is the next input byte, or 0
/// at end of input or on failure. Which byte arrives depends on the
/// terminal, so nothing is promised of it.
#[verifier::external_body]
pub(crate) fn read_stdin_byte_or_zero() -> (r: u8) {
    let mut buf = [0u8; 1];
    let _ = std::io::Read::read(&mut std::io::stdin(), &mut buf);
    buf[0]
}

/// Relies on std's Read::read_exact on standard input: blocks until one
/// byte arrives and returns it, or reports the underlying failure. Which
/// byte arrives depends on the terminal, so nothing is promised of it.
#[verifier::external_body]
pub(crate) fn read_stdin_blocking() -> (r: Result<u8, VMError>)
    ensures
        r matches Err(e) ==> e is IO,
{
    let mut buf = [0u8; 1];
    match std::io::Read::read_exact(&mut std::io::stdin(), &mut buf) {
        Ok(()) => Ok(buf[0]),
        Err(e) => Err(VMError::IO(format!("{}", e))),
    }
}

/// Relies on std's Write::write_all on standard output: writes the one
/// byte or reports the underlying failure.
#[verifier::external_body]
pub(crate) fn write_stdout_byte(b: u8) -> (r: Result<(), VMError>)
    ensures
        r matches Err(e) ==> e is IO,
{
    match std::io::Write::write_all(&mut std::io::stdout(), &[b]) {
        Ok(()) => Ok(()),
        Err(e) => Err(VMError::IO(format!("{}", e))),
    }
}

/// Relies on std's Write::flush on standard output: forces buffered output
/// out or reports the underlying failure.
#[verifier::external_body]
pub(crate) fn flush_stdout() -> (r: Result<(), VMError>)
    ensures
        r matches Err(e) ==> e is IO,
{
    match std::io::Write::flush(&mut std::io::stdout()) {
        Ok(()) => Ok(()),
        Err(e) => Err(VMError::IO(format!("{}", e))),
    }
}

} // verus!
