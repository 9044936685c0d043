//! The memory: a flat address space of 65536 words with one injected side
//! effect — a read of the keyboard-status address first refreshes the two
//! device registers from the host's input, so that read is never pure.

use vstd::prelude::*;

use crate::host;

verus! {

/// Number of memory cells: one per 16-bit address.
pub const MEMORY_MAX: usize = 0x10000;

/// Address of the memory-mapped keyboard status register.
pub const MR_KBSR: u16 = 0xFE00;

/// Address of the memory-mapped keyboard data register.
pub const MR_KBDR: u16 = 0xFE02;

/// The device-register contents after one keyboard poll: a freshly
/// available character sets the status register's high bit and lands in the
/// data register; no character clears the status register.
pub open spec fn kb_update(mem: Seq<u16>, key: Option<u8>) -> Seq<u16> {
    match key {
        Some(c) => mem.update(MR_KBSR as int, 0x8000u16).update(MR_KBDR as int, c as u16),
        None => mem.update(MR_KBSR as int, 0u16),
    }
}

/// What one memory read does: a read of the keyboard-status address first
/// applies some poll outcome to the device registers; every other read
/// leaves memory untouched. The value returned is always the cell's
/// content after the read.
pub open spec fn read_rel(m0: Seq<u16>, m1: Seq<u16>, address: u16, v: u16) -> bool {
    &&& if address == MR_KBSR {
        exists|key: Option<u8>| m1 == kb_update(m0, key)
    } else {
        m1 == m0
    }
    &&& v == m1[address as int]
}

/// Linear 16-bit-addressed storage with the keyboard device mapped into it.
pub struct Memory {
    cells: Vec<u16>,
}

impl Memory {
    /// The 65536 words this memory holds, by address.
    pub closed spec fn view(&self) -> Seq<u16> {
        self.cells@
    }

    /// A memory is well formed when it holds one cell per address.
    pub open spec fn wf(&self) -> bool {
        self@.len() == MEMORY_MAX
    }

    /// A fresh, zero-initialized memory.
    pub fn new() -> (m: Memory)
        ensures
            m.wf(),
            forall|a: int| 0 <= a < MEMORY_MAX ==> m@[a] == 0u16,
    {
        let mut cells: Vec<u16> = Vec::new();
        while cells.len() < MEMORY_MAX
            invariant
                cells@.len() <= MEMORY_MAX,
                forall|a: int| 0 <= a < cells@.len() ==> cells@[a] == 0u16,
            decreases MEMORY_MAX - cells@.len(),
        {
            cells.push(0u16);
        }
        Memory { cells }
    }

    /// The raw content of the cell at `address`, with no device side
    /// effect: an observer, not the machine's read.
    pub fn cell(&self, address: u16) -> (v: u16)
        requires
            self.wf(),
        ensures
            v == self@[address as int],
    {
        self.cells[address as usize]
    }

    /// Store `value` at `address`, unconditionally: writing a device
    /// register merely overwrites the cell.
    pub fn write(&mut self, address: u16, value: u16)
        requires
            old(self).wf(),
        ensures
            final(self).wf(),
            final(self)@ == old(self)@.update(address as int, value),
    {
        self.cells[address as usize] = value;
    }

    /// Apply one keyboard poll outcome to the device registers: `key` is
    /// the freshly available character, if any.
    pub fn apply_key_event(&mut self, key: Option<u8>)
        requires
            old(self).wf(),
        ensures
            final(self).wf(),
            final(self)@ == kb_update(old(self)@, key),
    {
        match key {
            Some(c) => {
                self.cells[MR_KBSR as usize] = 0x8000u16;
                self.cells[MR_KBDR as usize] = c as u16;
            },
            None => {
                self.cells[MR_KBSR as usize] = 0u16;
            },
        }
    }

    /// Read the cell at `address`. A read of the keyboard-status address
    /// first polls the host for an available character — without blocking —
    /// and refreshes both device registers; every other read is pure.
    pub fn read(&mut self, address: u16) -> (v: u16)
        requires
            old(self).wf(),
        ensures
            final(self).wf(),
            read_rel(old(self)@, final(self)@, address, v),
    {
        if address == MR_KBSR {
            let key: Option<u8> = if check_key() {
                Some(host::read_stdin_byte_or_zero())
            } else {
                None
            };
            self.apply_key_event(key);
            proof {
                assert(exists|k: Option<u8>| self@ == kb_update(old(self)@, k)) by {
                    assert(self@ == kb_update(old(self)@, key));
                }
            }
        }
        self.cells[address as usize]
    }

    /// Copy `program` into memory starting at `origin`; the caller
    /// guarantees that the image fits.
    pub fn load_image(&mut self, origin: u16, program: &[u16])
        requires
            old(self).wf(),
            origin as int + program@.len() <= MEMORY_MAX,
        ensures
            final(self).wf(),
            forall|k: int|
                0 <= k < program@.len() ==> final(self)@[origin as int + k] == program@[k],
            forall|a: int|
                0 <= a < MEMORY_MAX && !(origin as int <= a < origin as int + program@.len())
                    ==> final(self)@[a] == old(self)@[a],
    {
        let mut i: usize = 0;
        while i < program.len()
            invariant
                self.wf(),
                0 <= i <= program@.len(),
                origin as int + program@.len() <= MEMORY_MAX,
                forall|k: int| 0 <= k < i ==> self@[origin as int + k] == program@[k],
                forall|a: int|
                    0 <= a < MEMORY_MAX && !(origin as int <= a < origin as int + i)
                        ==> self@[a] == old(self)@[a],
            decreases program@.len() - i,
        {
            self.cells[origin as usize + i] = program[i];
            i = i + 1;
        }
    }
}

/// A read of the status address is never idempotent with respect to device
/// state: a poll that found no character leaves the status register 0 — as
/// does any number of such polls in a row — while a poll that found
/// character `c` sets the status register's ready bit and puts `c` in the
/// data register, and the next empty poll clears the status register
/// again.
pub proof fn lemma_keyboard_poll(mem: Seq<u16>, c: u8)
    requires
        mem.len() == MEMORY_MAX,
    ensures
        kb_update(mem, None)[MR_KBSR as int] == 0,
        kb_update(kb_update(mem, None), None)[MR_KBSR as int] == 0,
        kb_update(mem, Some(c))[MR_KBSR as int] == 0x8000,
        kb_update(mem, Some(c))[MR_KBDR as int] == c as u16,
        kb_update(kb_update(mem, Some(c)), None)[MR_KBSR as int] == 0,
{
}

/// Report whether a key press is waiting on the host's input, without
/// blocking: true exactly when the non-blocking readiness poll reports at
/// least one ready descriptor.
fn check_key() -> bool {
    match host::select_stdin_ready() {
        Ok(n) => n > 0,
        Err(_) => false,
    }
}

} // verus!
