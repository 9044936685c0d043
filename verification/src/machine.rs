//! The execution engine: a machine owns the memory, the register file and a
//! terminal capability, and interprets instructions one word at a time until
//! a HALT trap moves it to its terminal Halted state.

use vstd::prelude::*;

use crate::bits::{flag_for, sign_extend, sign_extend_spec, word_of_bytes, wrap_add};
use crate::error::VMError;
use crate::host;
use crate::memory::{kb_update, read_rel, Memory, MEMORY_MAX, MR_KBDR, MR_KBSR};
use crate::ops::{OpCode, TRAP_GETC, TRAP_HALT, TRAP_IN, TRAP_OUT, TRAP_PUTS, TRAP_PUTSP};
use crate::register::{Register, FL_NEG, FL_POS, FL_ZRO, REGISTER_COUNT, R_COND, R_PC};
use crate::terminal::TerminalInterface;

verus! {

/// Address at which execution starts.
pub const PC_START: u16 = 0x3000;

/// The destination-register field, bits 11 through 9.
pub open spec fn dst_of(instr: u16) -> int {
    ((instr >> 9) & 0x7) as int
}

/// The first source-register field, bits 8 through 6.
pub open spec fn src1_of(instr: u16) -> int {
    ((instr >> 6) & 0x7) as int
}

/// The second source-register field, bits 2 through 0.
pub open spec fn src2_of(instr: u16) -> int {
    (instr & 0x7) as int
}

/// The second ALU operand: a sign-extended 5-bit immediate when bit 5 is
/// set, the second source register otherwise.
pub open spec fn alu_operand(regs: Seq<u16>, instr: u16) -> u16 {
    if (instr >> 5) & 1 != 0 {
        sign_extend_spec(instr & 0x1F, 5)
    } else {
        regs[src2_of(instr)]
    }
}

/// Write `v` to the destination register and re-derive the condition flag
/// from it: the common tail of every register-writing operation.
pub open spec fn loaded(regs: Seq<u16>, instr: u16, v: u16) -> Seq<u16> {
    regs.update(dst_of(instr), v).update(R_COND as int, flag_for(v))
}

/// The register file after an ADD: destination takes the wrapped sum,
/// flags follow.
pub open spec fn add_result(regs: Seq<u16>, instr: u16) -> Seq<u16> {
    loaded(regs, instr, wrap_add(regs[src1_of(instr)], alu_operand(regs, instr)))
}

/// The register file after an AND: destination takes the bitwise and,
/// flags follow.
pub open spec fn and_result(regs: Seq<u16>, instr: u16) -> Seq<u16> {
    loaded(regs, instr, regs[src1_of(instr)] & alu_operand(regs, instr))
}

/// The register file after a NOT: destination takes the complement of the
/// first source register, flags follow.
pub open spec fn not_result(regs: Seq<u16>, instr: u16) -> Seq<u16> {
    loaded(regs, instr, !regs[src1_of(instr)])
}

/// The register file after a BR: the program counter moves by the
/// sign-extended 9-bit offset exactly when the instruction's condition
/// mask intersects the current flag.
pub open spec fn branch_result(regs: Seq<u16>, instr: u16) -> Seq<u16> {
    if ((instr >> 9) & 0x7) & regs[R_COND as int] != 0 {
        regs.update(
            R_PC as int,
            wrap_add(regs[R_PC as int], sign_extend_spec(instr & 0x1FF, 9)),
        )
    } else {
        regs
    }
}

/// The register file after a JMP: the program counter takes the base
/// register's value.
pub open spec fn jump_result(regs: Seq<u16>, instr: u16) -> Seq<u16> {
    regs.update(R_PC as int, regs[src1_of(instr)])
}

/// The register file after a JSR/JSRR: the program counter is saved into
/// the link register, then moves by the sign-extended 11-bit offset (long
/// form) or to the base register's value as of after the save (short
/// form).
pub open spec fn jsr_result(regs: Seq<u16>, instr: u16) -> Seq<u16> {
    let saved = regs.update(7, regs[R_PC as int]);
    if (instr >> 11) & 1 != 0 {
        saved.update(
            R_PC as int,
            wrap_add(regs[R_PC as int], sign_extend_spec(instr & 0x7FF, 11)),
        )
    } else {
        saved.update(R_PC as int, saved[src1_of(instr)])
    }
}

/// The register file after a LEA: destination takes the program counter
/// plus the sign-extended 9-bit offset — an address computation, no memory
/// access — and flags follow.
pub open spec fn lea_result(regs: Seq<u16>, instr: u16) -> Seq<u16> {
    loaded(regs, instr, wrap_add(regs[R_PC as int], sign_extend_spec(instr & 0x1FF, 9)))
}

/// The program-counter-relative address: PC plus the sign-extended 9-bit
/// offset, wrapping.
pub open spec fn pc_rel_target(regs: Seq<u16>, instr: u16) -> u16 {
    wrap_add(regs[R_PC as int], sign_extend_spec(instr & 0x1FF, 9))
}

/// The base+offset address: the base register plus the sign-extended
/// 6-bit offset, wrapping.
pub open spec fn base_rel_target(regs: Seq<u16>, instr: u16) -> u16 {
    wrap_add(regs[src1_of(instr)], sign_extend_spec(instr & 0x3F, 6))
}

/// What an LD leaves behind: one (possibly device-polling) read at the
/// PC-relative address, whose value lands in the destination register with
/// flags re-derived.
pub open spec fn ld_post(regs0: Seq<u16>, mem0: Seq<u16>, regs1: Seq<u16>, mem1: Seq<u16>, instr: u16) -> bool {
    exists|v: u16|
        read_rel(mem0, mem1, pc_rel_target(regs0, instr), v) && regs1 == loaded(regs0, instr, v)
}

/// What an LDR leaves behind: like LD, at the base+offset address.
pub open spec fn ldr_post(regs0: Seq<u16>, mem0: Seq<u16>, regs1: Seq<u16>, mem1: Seq<u16>, instr: u16) -> bool {
    exists|v: u16|
        read_rel(mem0, mem1, base_rel_target(regs0, instr), v) && regs1 == loaded(regs0, instr, v)
}

/// What an LDI leaves behind: a first read at the PC-relative address
/// yields the indirect address, a second read there yields the value for
/// the destination register.
pub open spec fn ldi_post(regs0: Seq<u16>, mem0: Seq<u16>, regs1: Seq<u16>, mem1: Seq<u16>, instr: u16) -> bool {
    exists|m: Seq<u16>, a: u16, v: u16|
        read_rel(mem0, m, pc_rel_target(regs0, instr), a) && read_rel(m, mem1, a, v) && regs1
            == loaded(regs0, instr, v)
}

/// What an STI leaves behind: a read at the PC-relative address yields the
/// indirect address, where the source register's value is then stored.
pub open spec fn sti_post(regs0: Seq<u16>, mem0: Seq<u16>, mem1: Seq<u16>, instr: u16) -> bool {
    exists|m: Seq<u16>, a: u16|
        read_rel(mem0, m, pc_rel_target(regs0, instr), a) && mem1 == m.update(
            a as int,
            regs0[dst_of(instr)],
        )
}

/// Memory unchanged except, possibly, the two keyboard device registers —
/// all that a string-printing trap may touch, by polling while it walks
/// the string.
pub open spec fn non_device_unchanged(m0: Seq<u16>, m1: Seq<u16>) -> bool {
    &&& m1.len() == m0.len()
    &&& forall|a: int|
        0 <= a < m0.len() && a != MR_KBSR as int && a != MR_KBDR as int ==> m1[a] == m0[a]
}

/// The 8-bit trap vector of a TRAP instruction.
pub open spec fn trap_vector(instr: u16) -> u16 {
    instr & 0xFF
}

/// Whether a trap vector names one of the six system routines.
pub open spec fn known_trap_vector(vect: u16) -> bool {
    ||| vect == TRAP_GETC
    ||| vect == TRAP_OUT
    ||| vect == TRAP_PUTS
    ||| vect == TRAP_IN
    ||| vect == TRAP_PUTSP
    ||| vect == TRAP_HALT
}

/// The prompt the IN trap writes before reading: "Enter a character: ".
pub open spec fn input_prompt() -> Seq<u8> {
    seq![69u8, 110u8, 116u8, 101u8, 114u8, 32u8, 97u8, 32u8, 99u8, 104u8, 97u8, 114u8, 97u8, 99u8, 116u8, 101u8, 114u8, 58u8, 32u8]
}

/// The visible halt notice: "HALT" and a newline.
pub open spec fn halt_notice() -> Seq<u8> {
    seq![72u8, 65u8, 76u8, 84u8, 10u8]
}

/// Whether the string walk from `a0` reaches a zero word within `fuel`
/// reads without ever reading the keyboard-status address: only such a
/// walk is free of device polls.
pub open spec fn walk_is_clean(mem: Seq<u16>, a0: u16, fuel: nat) -> bool
    decreases fuel,
{
    if a0 == MR_KBSR {
        false
    } else if fuel == 0 {
        false
    } else if mem[a0 as int] == 0 {
        true
    } else {
        walk_is_clean(mem, wrap_add(a0, 1), (fuel - 1) as nat)
    }
}

/// The low bytes of the words from `a0` up to the first zero word,
/// reading at most `fuel` words: what PUTS writes.
pub open spec fn word_string_bytes(mem: Seq<u16>, a0: u16, fuel: nat) -> Seq<u8>
    decreases fuel,
{
    if fuel == 0 || mem[a0 as int] == 0 {
        Seq::<u8>::empty()
    } else {
        seq![(mem[a0 as int] & 0xFF) as u8] + word_string_bytes(mem, wrap_add(a0, 1), (fuel - 1) as nat)
    }
}

/// The packed bytes of the words from `a0` up to the first zero word,
/// reading at most `fuel` words: for each word the low byte, then the
/// high byte only if it is nonzero — what PUTSP writes.
pub open spec fn packed_string_bytes(mem: Seq<u16>, a0: u16, fuel: nat) -> Seq<u8>
    decreases fuel,
{
    if fuel == 0 || mem[a0 as int] == 0 {
        Seq::<u8>::empty()
    } else {
        let w = mem[a0 as int];
        (if w >> 8 == 0 {
            seq![(w & 0xFF) as u8]
        } else {
            seq![(w & 0xFF) as u8, (w >> 8) as u8]
        }) + packed_string_bytes(mem, wrap_add(a0, 1), (fuel - 1) as nat)
    }
}

/// What a TRAP instruction leaves behind, by vector, including the bytes
/// it hands to the output stream (`out0` grows to `out1`; a byte is
/// logged exactly when its write succeeded). The program counter is
/// always saved into register 7 first. GETC and IN store the byte the
/// blocking read returned into register 0 with flags re-derived, IN
/// writing the prompt and the echoed byte around the read; OUT writes
/// the low byte of register 0; PUTS and PUTSP write the walked string —
/// when the walk ends at a zero word without ever reading the
/// keyboard-status address, memory is untouched and the bytes written
/// are exactly the string's; otherwise only the device registers may
/// change, by polling. HALT writes the halt notice and moves the machine
/// to Halted, come what may of that write; an unknown vector is an
/// invalid-opcode error carrying it and writes nothing. Every error is
/// the underlying I/O failure, except for the unknown vector.
pub open spec fn trap_post(
    regs0: Seq<u16>,
    mem0: Seq<u16>,
    halted0: bool,
    out0: Seq<u8>,
    regs1: Seq<u16>,
    mem1: Seq<u16>,
    halted1: bool,
    out1: Seq<u8>,
    instr: u16,
    r: Result<(), VMError>,
) -> bool {
    let vect = trap_vector(instr);
    let saved = regs0.update(7, regs0[R_PC as int]);
    &&& (vect == TRAP_GETC ==> {
        &&& (r is Ok ==> exists|b: u8|
            regs1 == saved.update(0, b as u16).update(R_COND as int, #[trigger] flag_for(b as u16)))
        &&& (r is Err ==> regs1 == saved)
        &&& mem1 == mem0
        &&& out1 == out0
    })
    &&& (vect == TRAP_IN ==> {
        &&& (r is Ok ==> exists|b: u8|
            regs1 == saved.update(0, b as u16).update(R_COND as int, #[trigger] flag_for(b as u16))
                && out1 == out0 + input_prompt() + seq![b])
        &&& (r is Err ==> regs1 == saved)
        &&& mem1 == mem0
    })
    &&& (vect == TRAP_OUT ==> {
        &&& regs1 == saved
        &&& mem1 == mem0
        &&& (r is Ok ==> out1 == out0.push((regs0[0] & 0xFF) as u8))
    })
    &&& (vect == TRAP_PUTS ==> {
        &&& regs1 == saved
        &&& non_device_unchanged(mem0, mem1)
        &&& (walk_is_clean(mem0, regs0[0], MEMORY_MAX as nat) ==> {
            &&& mem1 == mem0
            &&& (r is Ok ==> out1 == out0 + word_string_bytes(mem0, regs0[0], MEMORY_MAX as nat))
        })
    })
    &&& (vect == TRAP_PUTSP ==> {
        &&& regs1 == saved
        &&& non_device_unchanged(mem0, mem1)
        &&& (walk_is_clean(mem0, regs0[0], MEMORY_MAX as nat) ==> {
            &&& mem1 == mem0
            &&& (r is Ok ==> out1 == out0 + packed_string_bytes(mem0, regs0[0], MEMORY_MAX as nat))
        })
    })
    &&& (vect == TRAP_HALT ==> {
        &&& regs1 == saved
        &&& mem1 == mem0
        &&& halted1
        &&& (r is Ok ==> out1 == out0 + halt_notice())
    })
    &&& (!known_trap_vector(vect) ==> r == Err::<(), VMError>(VMError::InvalidOpCode(vect))
        && regs1 == saved && mem1 == mem0 && out1 == out0)
    &&& (vect != TRAP_HALT ==> halted1 == halted0)
    &&& (r matches Err(e) ==> (e is IO || !known_trap_vector(vect)))
}

/// One executed instruction, as a relation between engine states:
/// exactly what dispatching `op` on `instr` promises of the machine,
/// with `r` the handler's outcome. The reserved opcodes RTI and RES
/// always fail with an invalid-opcode error carrying their numeric
/// value, whatever the remaining instruction bits hold, and leave the
/// state untouched; the Halted state is entered exactly by a HALT trap.
pub open spec fn instruction_rel(
    s0: EngineState,
    s1: EngineState,
    op: OpCode,
    instr: u16,
    r: Result<(), VMError>,
) -> bool {
    &&& ((op is RTI || op is RES) ==> r == Err::<(), VMError>(
        VMError::InvalidOpCode(op.code_spec()),
    ) && s1 == s0)
    &&& s1.halted == (s0.halted || (op is TRAP && trap_vector(instr) == TRAP_HALT))
    &&& (op is ADD ==> r is Ok && s1.mem == s0.mem && s1.out == s0.out && s1.regs == add_result(
        s0.regs,
        instr,
    ))
    &&& (op is AND ==> r is Ok && s1.mem == s0.mem && s1.out == s0.out && s1.regs == and_result(
        s0.regs,
        instr,
    ))
    &&& (op is NOT ==> r is Ok && s1.mem == s0.mem && s1.out == s0.out && s1.regs == not_result(
        s0.regs,
        instr,
    ))
    &&& (op is BR ==> r is Ok && s1.mem == s0.mem && s1.out == s0.out && s1.regs == branch_result(
        s0.regs,
        instr,
    ))
    &&& (op is JMP ==> r is Ok && s1.mem == s0.mem && s1.out == s0.out && s1.regs == jump_result(
        s0.regs,
        instr,
    ))
    &&& (op is JSR ==> r is Ok && s1.mem == s0.mem && s1.out == s0.out && s1.regs == jsr_result(
        s0.regs,
        instr,
    ))
    &&& (op is LEA ==> r is Ok && s1.mem == s0.mem && s1.out == s0.out && s1.regs == lea_result(
        s0.regs,
        instr,
    ))
    &&& (op is LD ==> r is Ok && s1.out == s0.out && ld_post(s0.regs, s0.mem, s1.regs, s1.mem, instr))
    &&& (op is LDR ==> r is Ok && s1.out == s0.out && ldr_post(
        s0.regs,
        s0.mem,
        s1.regs,
        s1.mem,
        instr,
    ))
    &&& (op is LDI ==> r is Ok && s1.out == s0.out && ldi_post(
        s0.regs,
        s0.mem,
        s1.regs,
        s1.mem,
        instr,
    ))
    &&& (op is ST ==> r is Ok && s1.out == s0.out && s1.regs == s0.regs && s1.mem
        == s0.mem.update(pc_rel_target(s0.regs, instr) as int, s0.regs[dst_of(instr)]))
    &&& (op is STI ==> r is Ok && s1.out == s0.out && s1.regs == s0.regs && sti_post(
        s0.regs,
        s0.mem,
        s1.mem,
        instr,
    ))
    &&& (op is STR ==> r is Ok && s1.out == s0.out && s1.regs == s0.regs && s1.mem
        == s0.mem.update(base_rel_target(s0.regs, instr) as int, s0.regs[dst_of(instr)]))
    &&& (op is TRAP ==> trap_post(
        s0.regs,
        s0.mem,
        s0.halted,
        s0.out,
        s1.regs,
        s1.mem,
        s1.halted,
        s1.out,
        instr,
        r,
    ))
}

/// The machine state at the top of the first cycle: the program counter
/// at the start address and the condition flag ZERO, everything else as
/// loaded.
pub open spec fn reset_state(s: EngineState) -> EngineState {
    EngineState {
        regs: s.regs.update(R_PC as int, PC_START).update(R_COND as int, FL_ZRO),
        mem: s.mem,
        halted: s.halted,
        out: s.out,
    }
}

/// One full cycle of a Running machine: fetch the word at the program
/// counter — a read that may poll the keyboard device — advance the
/// counter, decode the four opcode bits (always possible), and execute
/// the decoded instruction; `r` is the cycle's outcome.
pub open spec fn cycle_rel(s0: EngineState, s1: EngineState, r: Result<(), VMError>) -> bool {
    exists|m: Seq<u16>, instr: u16|
        #[trigger] read_rel(s0.mem, m, s0.regs[R_PC as int], instr) && exists|op: OpCode|
            (#[trigger] op.code_spec()) == instr >> 12 && instruction_rel(
                EngineState {
                    regs: s0.regs.update(
                        R_PC as int,
                        wrap_add(s0.regs[R_PC as int], 1),
                    ),
                    mem: m,
                    halted: s0.halted,
                    out: s0.out,
                },
                s1,
                op,
                instr,
                r,
            )
}

/// `s1` is what `n` completed cycles make of `s0`. Every intermediate
/// machine is still Running when its cycle starts, so nothing is fetched
/// once the Halted state is reached.
pub open spec fn reaches(s0: EngineState, s1: EngineState, n: nat) -> bool
    decreases n,
{
    if n == 0 {
        s1 == s0
    } else {
        exists|mid: EngineState|
            reaches(s0, mid, (n - 1) as nat) && !mid.halted && #[trigger] cycle_rel(
                mid,
                s1,
                Ok(()),
            )
    }
}

/// What executing from reset leaves behind. On normal return the machine
/// halted, and its state is what some number of completed cycles make of
/// the reset state. On an error, some prefix of cycles completed from the
/// reset state, and either the next cycle faulted with exactly the
/// surfaced error — no later instruction ran — or, infeasibly, the
/// engine's step budget was spent with the machine still running, which
/// is surfaced as an I/O failure with the state as the completed cycles
/// left it.
pub open spec fn execute_post(s0: EngineState, s1: EngineState, r: Result<(), VMError>) -> bool {
    &&& (r is Ok ==> s1.halted && exists|n: nat| #[trigger] reaches(reset_state(s0), s1, n))
    &&& (r matches Err(e) ==> exists|n: nat, mid: EngineState|
        #[trigger] reaches(reset_state(s0), mid, n) && !mid.halted && (cycle_rel(mid, s1, Err(e))
            || (s1 == mid && e is IO)))
}

/// The origin address of a program image: its first two bytes, big endian.
pub open spec fn image_origin(image: Seq<u8>) -> u16
    recommends
        image.len() >= 2,
{
    word_of_bytes(image[0], image[1])
}

/// The instruction words of a program image: each big-endian byte pair
/// after the origin gives one word; a trailing odd byte is ignored.
pub open spec fn image_words(image: Seq<u8>) -> Seq<u16>
    recommends
        image.len() >= 2,
{
    Seq::new(
        (((image.len() - 2) / 2) as nat),
        |k: int| word_of_bytes(image[2 + 2 * k], image[3 + 2 * k]),
    )
}

/// Whether a program image fits in memory at its origin.
pub open spec fn image_fits(image: Seq<u8>) -> bool
    recommends
        image.len() >= 2,
{
    image_origin(image) as int + image_words(image).len() <= MEMORY_MAX
}

/// The Halted state is reached exactly through the HALT vector and is
/// terminal: across any trap, a HALT always leaves the machine Halted —
/// whatever its final output did — and no trap ever moves a Halted
/// machine back.
pub proof fn lemma_halt_transition(
    regs0: Seq<u16>,
    mem0: Seq<u16>,
    halted0: bool,
    out0: Seq<u8>,
    regs1: Seq<u16>,
    mem1: Seq<u16>,
    halted1: bool,
    out1: Seq<u8>,
    instr: u16,
    r: Result<(), VMError>,
)
    requires
        trap_post(regs0, mem0, halted0, out0, regs1, mem1, halted1, out1, instr, r),
    ensures
        trap_vector(instr) == TRAP_HALT ==> halted1,
        trap_vector(instr) != TRAP_HALT ==> halted1 == halted0,
        halted0 ==> halted1,
{
}

/// The two packed bytes of a word are bytes.
pub proof fn lemma_byte_fields(x: u16)
    by (bit_vector)
    ensures
        x & 0xFF < 256,
        x >> 8 < 256,
{
}

/// Every instruction field is in range for its purpose: register fields
/// select one of eight registers, immediates fit their width, the opcode
/// field is four bits.
pub proof fn lemma_fields_bounded(instr: u16)
    by (bit_vector)
    ensures
        (instr >> 9) & 0x7 < 8,
        (instr >> 6) & 0x7 < 8,
        instr & 0x7 < 8,
        instr & 0x1F < 32,
        instr & 0x3F < 64,
        instr & 0x1FF < 512,
        instr & 0x7FF < 2048,
        instr & 0xFF < 256,
        instr >> 12 < 16,
{
}

/// A machine state as the contracts see it: the register file, the
/// memory, whether the terminal Halted state has been reached, and the
/// log of bytes handed to the output stream so far.
#[verifier::ext_equal]
pub struct EngineState {
    /// The register file.
    pub regs: Seq<u16>,
    /// The memory contents, by address.
    pub mem: Seq<u16>,
    /// Whether the Halted state has been reached.
    pub halted: bool,
    /// The bytes handed to the output stream, in order.
    pub out: Seq<u8>,
}

/// A machine: memory, register file, terminal capability, whether the
/// terminal Halted state has been reached, and a ghost log of the bytes
/// its traps have handed to the output stream.
pub struct VM<T: TerminalInterface> {
    memory: Memory,
    registers: Vec<u16>,
    terminal: T,
    halted: bool,
    out: Ghost<Seq<u8>>,
}

impl<T: TerminalInterface> VM<T> {
    /// The register file: slots 0 through 7 are general purpose, 8 the
    /// program counter, 9 the condition flag.
    pub closed spec fn regs(&self) -> Seq<u16> {
        self.registers@
    }

    /// The memory contents, by address.
    pub closed spec fn mem(&self) -> Seq<u16> {
        self.memory@
    }

    /// Whether the machine has reached its terminal Halted state.
    pub closed spec fn halted(&self) -> bool {
        self.halted
    }

    /// The bytes this machine has handed to the output stream, in order;
    /// a byte is logged exactly when its write succeeded.
    pub closed spec fn output(&self) -> Seq<u8> {
        self.out@
    }

    /// This machine's state as one value, for the cycle relation.
    pub open spec fn state(&self) -> EngineState {
        EngineState { regs: self.regs(), mem: self.mem(), halted: self.halted(), out: self.output() }
    }

    /// A machine is well formed when it holds ten register slots and one
    /// memory cell per 16-bit address.
    pub open spec fn wf(&self) -> bool {
        &&& self.regs().len() == REGISTER_COUNT
        &&& self.mem().len() == MEMORY_MAX
    }

    /// A fresh machine around the given terminal capability: all registers
    /// and all memory zero, not halted.
    pub fn new(terminal: T) -> (vm: VM<T>)
        ensures
            vm.wf(),
            forall|i: int| 0 <= i < REGISTER_COUNT ==> vm.regs()[i] == 0u16,
            forall|a: int| 0 <= a < MEMORY_MAX ==> vm.mem()[a] == 0u16,
            !vm.halted(),
            vm.output() == Seq::<u8>::empty(),
    {
        let mut registers: Vec<u16> = Vec::new();
        while registers.len() < REGISTER_COUNT
            invariant
                registers@.len() <= REGISTER_COUNT,
                forall|i: int| 0 <= i < registers@.len() ==> registers@[i] == 0u16,
            decreases REGISTER_COUNT - registers@.len(),
        {
            registers.push(0u16);
        }
        VM { memory: Memory::new(), registers, terminal, halted: false, out: Ghost(Seq::empty()) }
    }

    /// Whether the machine has reached its terminal Halted state.
    pub fn is_halted(&self) -> (h: bool)
        ensures
            h == self.halted(),
    {
        self.halted
    }

    /// The current value of a register.
    pub fn reg(&self, r: Register) -> (v: u16)
        requires
            self.wf(),
        ensures
            v == self.regs()[r.index_spec()],
    {
        self.registers[r.index()]
    }

    /// Overwrite one register.
    pub fn set_reg(&mut self, r: Register, v: u16)
        requires
            old(self).wf(),
        ensures
            final(self).wf(),
            final(self).regs() == old(self).regs().update(r.index_spec(), v),
            final(self).mem() == old(self).mem(),
            final(self).halted() == old(self).halted(),
            final(self).output() == old(self).output(),
    {
        let i = r.index();
        self.registers[i] = v;
    }

    /// Read one memory cell through the machine, with the device side
    /// effect a read of the keyboard-status address carries.
    pub fn read_memory(&mut self, address: u16) -> (v: u16)
        requires
            old(self).wf(),
        ensures
            final(self).wf(),
            read_rel(old(self).mem(), final(self).mem(), address, v),
            final(self).regs() == old(self).regs(),
            final(self).halted() == old(self).halted(),
            final(self).output() == old(self).output(),
    {
        self.memory.read(address)
    }

    /// Overwrite one memory cell.
    pub fn write_memory(&mut self, address: u16, value: u16)
        requires
            old(self).wf(),
        ensures
            final(self).wf(),
            final(self).mem() == old(self).mem().update(address as int, value),
            final(self).regs() == old(self).regs(),
            final(self).halted() == old(self).halted(),
            final(self).output() == old(self).output(),
    {
        self.memory.write(address, value);
    }

    /// Re-derive the condition flag from register `r`, just written:
    /// ZERO for 0, NEGATIVE when the high bit is set, POSITIVE otherwise.
    pub fn update_flags(&mut self, r: u16)
        requires
            old(self).wf(),
            r < 8,
        ensures
            final(self).wf(),
            final(self).regs() == old(self).regs().update(
                R_COND as int,
                flag_for(old(self).regs()[r as int]),
            ),
            final(self).mem() == old(self).mem(),
            final(self).halted() == old(self).halted(),
            final(self).output() == old(self).output(),
    {
        let val = self.registers[r as usize];
        let flag = if val == 0 {
            FL_ZRO
        } else if (val >> 15) != 0 {
            FL_NEG
        } else {
            FL_POS
        };
        self.registers[R_COND] = flag;
    }

    /// ADD: destination takes source one plus the second operand, with
    /// 16-bit wraparound; flags follow the written value.
    pub fn add_op(&mut self, instr: u16) -> (r: Result<(), VMError>)
        requires
            old(self).wf(),
        ensures
            final(self).wf(),
            r is Ok,
            final(self).regs() == add_result(old(self).regs(), instr),
            final(self).mem() == old(self).mem(),
            final(self).halted() == old(self).halted(),
            final(self).output() == old(self).output(),
    {
        proof {
            lemma_fields_bounded(instr);
        }
        let r0 = (instr >> 9) & 0x7;
        let r1 = (instr >> 6) & 0x7;
        let imm_flag = (instr >> 5) & 0x1;

        let v = if imm_flag != 0 {
            let imm5 = sign_extend(instr & 0x1F, 5);
            self.registers[r1 as usize].wrapping_add(imm5)
        } else {
            let r2 = instr & 0x7;
            self.registers[r1 as usize].wrapping_add(self.registers[r2 as usize])
        };
        self.registers[r0 as usize] = v;
        self.update_flags(r0);
        Ok(())
    }

    /// AND: destination takes the bitwise and of source one and the second
    /// operand; flags follow the written value.
    pub fn and_op(&mut self, instr: u16) -> (r: Result<(), VMError>)
        requires
            old(self).wf(),
        ensures
            final(self).wf(),
            r is Ok,
            final(self).regs() == and_result(old(self).regs(), instr),
            final(self).mem() == old(self).mem(),
            final(self).halted() == old(self).halted(),
            final(self).output() == old(self).output(),
    {
        proof {
            lemma_fields_bounded(instr);
        }
        let r0 = (instr >> 9) & 0x7;
        let r1 = (instr >> 6) & 0x7;
        let imm_flag = (instr >> 5) & 0x1;

        let v = if imm_flag != 0 {
            let imm5 = sign_extend(instr & 0x1F, 5);
            self.registers[r1 as usize] & imm5
        } else {
            let r2 = instr & 0x7;
            self.registers[r1 as usize] & self.registers[r2 as usize]
        };
        self.registers[r0 as usize] = v;
        self.update_flags(r0);
        Ok(())
    }

    /// NOT: destination takes the bitwise complement of source one; flags
    /// follow the written value.
    pub fn not_op(&mut self, instr: u16) -> (r: Result<(), VMError>)
        requires
            old(self).wf(),
        ensures
            final(self).wf(),
            r is Ok,
            final(self).regs() == not_result(old(self).regs(), instr),
            final(self).mem() == old(self).mem(),
            final(self).halted() == old(self).halted(),
            final(self).output() == old(self).output(),
    {
        proof {
            lemma_fields_bounded(instr);
        }
        let r0 = (instr >> 9) & 0x7;
        let r1 = (instr >> 6) & 0x7;

        let v = !self.registers[r1 as usize];
        self.registers[r0 as usize] = v;
        self.update_flags(r0);
        Ok(())
    }

    /// BR: when the instruction's condition mask intersects the current
    /// flag, the program counter moves by the sign-extended 9-bit offset.
    pub fn branch_op(&mut self, instr: u16) -> (r: Result<(), VMError>)
        requires
            old(self).wf(),
        ensures
            final(self).wf(),
            r is Ok,
            final(self).regs() == branch_result(old(self).regs(), instr),
            final(self).mem() == old(self).mem(),
            final(self).halted() == old(self).halted(),
            final(self).output() == old(self).output(),
    {
        proof {
            lemma_fields_bounded(instr);
        }
        let pc_offset = sign_extend(instr & 0x1FF, 9);
        let cond_flag = (instr >> 9) & 0x7;

        if (cond_flag & self.registers[R_COND]) != 0 {
            let pc = self.registers[R_PC];
            self.registers[R_PC] = pc.wrapping_add(pc_offset);
        }
        Ok(())
    }

    /// JMP: the program counter takes the base register's value (a JMP
    /// through register 7 acts as a normal return).
    pub fn jump_op(&mut self, instr: u16) -> (r: Result<(), VMError>)
        requires
            old(self).wf(),
        ensures
            final(self).wf(),
            r is Ok,
            final(self).regs() == jump_result(old(self).regs(), instr),
            final(self).mem() == old(self).mem(),
            final(self).halted() == old(self).halted(),
            final(self).output() == old(self).output(),
    {
        proof {
            lemma_fields_bounded(instr);
        }
        let r1 = (instr >> 6) & 0x7;
        let v = self.registers[r1 as usize];
        self.registers[R_PC] = v;
        Ok(())
    }

    /// JSR/JSRR: the program counter is saved into register 7, then moves
    /// by the sign-extended 11-bit offset (long form, bit 11 set) or to
    /// the base register's value as of after the save (short form).
    pub fn jsr_op(&mut self, instr: u16) -> (r: Result<(), VMError>)
        requires
            old(self).wf(),
        ensures
            final(self).wf(),
            r is Ok,
            final(self).regs() == jsr_result(old(self).regs(), instr),
            final(self).mem() == old(self).mem(),
            final(self).halted() == old(self).halted(),
            final(self).output() == old(self).output(),
    {
        proof {
            lemma_fields_bounded(instr);
        }
        let long_flag = (instr >> 11) & 1;
        let pc = self.registers[R_PC];
        self.registers[7] = pc;

        if long_flag != 0 {
            let long_pc_offset = sign_extend(instr & 0x7FF, 11);
            self.registers[R_PC] = pc.wrapping_add(long_pc_offset);
        } else {
            let r1 = (instr >> 6) & 0x7;
            let v = self.registers[r1 as usize];
            self.registers[R_PC] = v;
        }
        Ok(())
    }

    /// LEA: destination takes the PC-relative address itself — no memory
    /// access; flags follow the written value.
    pub fn load_effective_address_op(&mut self, instr: u16) -> (r: Result<(), VMError>)
        requires
            old(self).wf(),
        ensures
            final(self).wf(),
            r is Ok,
            final(self).regs() == lea_result(old(self).regs(), instr),
            final(self).mem() == old(self).mem(),
            final(self).halted() == old(self).halted(),
            final(self).output() == old(self).output(),
    {
        proof {
            lemma_fields_bounded(instr);
        }
        let r0 = (instr >> 9) & 0x7;
        let pc_offset = sign_extend(instr & 0x1FF, 9);

        let v = self.registers[R_PC].wrapping_add(pc_offset);
        self.registers[r0 as usize] = v;
        self.update_flags(r0);
        Ok(())
    }

    /// LD: destination takes the word read at the PC-relative address;
    /// flags follow. Reading the keyboard-status address polls the device.
    pub fn load_op(&mut self, instr: u16) -> (r: Result<(), VMError>)
        requires
            old(self).wf(),
        ensures
            final(self).wf(),
            r is Ok,
            ld_post(old(self).regs(), old(self).mem(), final(self).regs(), final(self).mem(), instr),
            final(self).halted() == old(self).halted(),
            final(self).output() == old(self).output(),
    {
        proof {
            lemma_fields_bounded(instr);
        }
        let r0 = (instr >> 9) & 0x7;
        let pc_offset = sign_extend(instr & 0x1FF, 9);
        let addr = self.registers[R_PC].wrapping_add(pc_offset);

        let v = self.memory.read(addr);
        self.registers[r0 as usize] = v;
        self.update_flags(r0);
        proof {
            assert(ld_post(
                old(self).regs(),
                old(self).mem(),
                self.regs(),
                self.mem(),
                instr,
            )) by {
                assert(read_rel(old(self).mem(), self.mem(), pc_rel_target(old(self).regs(), instr), v));
                assert(self.regs() == loaded(old(self).regs(), instr, v));
            }
        }
        Ok(())
    }

    /// LDR: destination takes the word read at the base+offset address;
    /// flags follow. Reading the keyboard-status address polls the device.
    pub fn load_register_op(&mut self, instr: u16) -> (r: Result<(), VMError>)
        requires
            old(self).wf(),
        ensures
            final(self).wf(),
            r is Ok,
            ldr_post(old(self).regs(), old(self).mem(), final(self).regs(), final(self).mem(), instr),
            final(self).halted() == old(self).halted(),
            final(self).output() == old(self).output(),
    {
        proof {
            lemma_fields_bounded(instr);
        }
        let r0 = (instr >> 9) & 0x7;
        let r1 = (instr >> 6) & 0x7;
        let offset = sign_extend(instr & 0x3F, 6);

        let addr = self.registers[r1 as usize].wrapping_add(offset);
        let v = self.memory.read(addr);
        self.registers[r0 as usize] = v;
        self.update_flags(r0);
        proof {
            assert(ldr_post(
                old(self).regs(),
                old(self).mem(),
                self.regs(),
                self.mem(),
                instr,
            )) by {
                assert(read_rel(old(self).mem(), self.mem(), base_rel_target(old(self).regs(), instr), v));
                assert(self.regs() == loaded(old(self).regs(), instr, v));
            }
        }
        Ok(())
    }

    /// LDI: the word at the PC-relative address names a second address,
    /// whose word lands in the destination register; flags follow. Either
    /// read of the keyboard-status address polls the device.
    pub fn load_indirect_op(&mut self, instr: u16) -> (r: Result<(), VMError>)
        requires
            old(self).wf(),
        ensures
            final(self).wf(),
            r is Ok,
            ldi_post(old(self).regs(), old(self).mem(), final(self).regs(), final(self).mem(), instr),
            final(self).halted() == old(self).halted(),
            final(self).output() == old(self).output(),
    {
        proof {
            lemma_fields_bounded(instr);
        }
        let r0 = (instr >> 9) & 0x7;
        let pc_offset = sign_extend(instr & 0x1FF, 9);
        let first = self.registers[R_PC].wrapping_add(pc_offset);

        let indirect_addr = self.memory.read(first);
        let ghost mid = self.memory@;
        let v = self.memory.read(indirect_addr);
        self.registers[r0 as usize] = v;
        self.update_flags(r0);
        proof {
            assert(ldi_post(
                old(self).regs(),
                old(self).mem(),
                self.regs(),
                self.mem(),
                instr,
            )) by {
                assert(read_rel(old(self).mem(), mid, pc_rel_target(old(self).regs(), instr), indirect_addr));
                assert(read_rel(mid, self.mem(), indirect_addr, v));
                assert(self.regs() == loaded(old(self).regs(), instr, v));
            }
        }
        Ok(())
    }

    /// ST: the source register's value is stored at the PC-relative
    /// address. No read happens, so no device poll.
    pub fn store_op(&mut self, instr: u16) -> (r: Result<(), VMError>)
        requires
            old(self).wf(),
        ensures
            final(self).wf(),
            r is Ok,
            final(self).regs() == old(self).regs(),
            final(self).mem() == old(self).mem().update(
                pc_rel_target(old(self).regs(), instr) as int,
                old(self).regs()[dst_of(instr)],
            ),
            final(self).halted() == old(self).halted(),
            final(self).output() == old(self).output(),
    {
        proof {
            lemma_fields_bounded(instr);
        }
        let r0 = (instr >> 9) & 0x7;
        let pc_offset = sign_extend(instr & 0x1FF, 9);
        let addr = self.registers[R_PC].wrapping_add(pc_offset);

        let v = self.registers[r0 as usize];
        self.memory.write(addr, v);
        Ok(())
    }

    /// STI: the word read at the PC-relative address names a second
    /// address, where the source register's value is stored. The read may
    /// poll the device.
    pub fn store_indirect_op(&mut self, instr: u16) -> (r: Result<(), VMError>)
        requires
            old(self).wf(),
        ensures
            final(self).wf(),
            r is Ok,
            final(self).regs() == old(self).regs(),
            sti_post(old(self).regs(), old(self).mem(), final(self).mem(), instr),
            final(self).halted() == old(self).halted(),
            final(self).output() == old(self).output(),
    {
        proof {
            lemma_fields_bounded(instr);
        }
        let r0 = (instr >> 9) & 0x7;
        let pc_offset = sign_extend(instr & 0x1FF, 9);
        let first = self.registers[R_PC].wrapping_add(pc_offset);

        let indirect_addr = self.memory.read(first);
        let ghost mid = self.memory@;
        let v = self.registers[r0 as usize];
        self.memory.write(indirect_addr, v);
        proof {
            assert(sti_post(old(self).regs(), old(self).mem(), self.mem(), instr)) by {
                assert(read_rel(old(self).mem(), mid, pc_rel_target(old(self).regs(), instr), indirect_addr));
                assert(self.mem() == mid.update(indirect_addr as int, old(self).regs()[dst_of(instr)]));
            }
        }
        Ok(())
    }

    /// STR: the source register's value is stored at the base+offset
    /// address. No read happens, so no device poll.
    pub fn store_register_op(&mut self, instr: u16) -> (r: Result<(), VMError>)
        requires
            old(self).wf(),
        ensures
            final(self).wf(),
            r is Ok,
            final(self).regs() == old(self).regs(),
            final(self).mem() == old(self).mem().update(
                base_rel_target(old(self).regs(), instr) as int,
                old(self).regs()[dst_of(instr)],
            ),
            final(self).halted() == old(self).halted(),
            final(self).output() == old(self).output(),
    {
        proof {
            lemma_fields_bounded(instr);
        }
        let r0 = (instr >> 9) & 0x7;
        let r1 = (instr >> 6) & 0x7;
        let offset = sign_extend(instr & 0x3F, 6);

        let addr = self.registers[r1 as usize].wrapping_add(offset);
        let v = self.registers[r0 as usize];
        self.memory.write(addr, v);
        Ok(())
    }

    /// Hand one byte to the output stream and log it: the log grows by
    /// exactly the bytes whose write succeeded.
    fn emit_byte(&mut self, b: u8) -> (r: Result<(), VMError>)
        ensures
            final(self).regs() == old(self).regs(),
            final(self).mem() == old(self).mem(),
            final(self).halted() == old(self).halted(),
            r is Ok ==> final(self).output() == old(self).output().push(b),
            r matches Err(e) ==> e is IO && final(self).output() == old(self).output(),
    {
        match host::write_stdout_byte(b) {
            Ok(_) => {
                self.out = Ghost(self.out@.push(b));
                Ok(())
            },
            Err(e) => Err(e),
        }
    }

    /// Hand a sequence of bytes to the output stream in order, logging
    /// each byte whose write succeeded.
    fn emit_bytes(&mut self, bytes: &[u8]) -> (r: Result<(), VMError>)
        ensures
            final(self).regs() == old(self).regs(),
            final(self).mem() == old(self).mem(),
            final(self).halted() == old(self).halted(),
            r is Ok ==> final(self).output() == old(self).output() + bytes@,
            r matches Err(e) ==> e is IO,
    {
        let mut i: usize = 0;
        proof {
            assert(self.output() =~= old(self).output() + bytes@.subrange(0, 0));
        }
        while i < bytes.len()
            invariant
                i <= bytes@.len(),
                self.regs() == old(self).regs(),
                self.mem() == old(self).mem(),
                self.halted() == old(self).halted(),
                self.output() == old(self).output() + bytes@.subrange(0, i as int),
            decreases bytes@.len() - i,
        {
            match self.emit_byte(bytes[i]) {
                Ok(_) => {},
                Err(e) => {
                    return Err(e);
                },
            }
            proof {
                assert(self.output() =~= old(self).output() + bytes@.subrange(0, i + 1));
            }
            i = i + 1;
        }
        proof {
            assert(old(self).output() + bytes@.subrange(0, bytes@.len() as int) =~= old(self).output()
                + bytes@);
        }
        Ok(())
    }

    /// Store one input byte into register 0 and re-derive the condition
    /// flag from it: how GETC and IN hand a byte read from the input
    /// stream to the program. The high byte is zero, so the flag is ZERO
    /// exactly for the zero byte and POSITIVE otherwise, never NEGATIVE.
    pub fn set_input_byte(&mut self, b: u8)
        requires
            old(self).wf(),
        ensures
            final(self).wf(),
            final(self).regs() == old(self).regs().update(0, b as u16).update(
                R_COND as int,
                flag_for(b as u16),
            ),
            final(self).mem() == old(self).mem(),
            final(self).halted() == old(self).halted(),
            final(self).output() == old(self).output(),
    {
        self.registers[0] = b as u16;
        self.update_flags(0);
    }

    /// TRAP: save the program counter into register 7, then dispatch on
    /// the low byte to one of the six system routines; an unknown vector
    /// is an invalid-opcode error carrying it. HALT moves the machine to
    /// its terminal Halted state before its output is attempted. A string
    /// that no zero word ends is abandoned after one pass over the
    /// address space, so the walk always terminates.
    pub fn trap_op(&mut self, instr: u16) -> (r: Result<(), VMError>)
        requires
            old(self).wf(),
        ensures
            final(self).wf(),
            trap_post(
                old(self).regs(),
                old(self).mem(),
                old(self).halted(),
                old(self).output(),
                final(self).regs(),
                final(self).mem(),
                final(self).halted(),
                final(self).output(),
                instr,
                r,
            ),
    {
        proof {
            lemma_fields_bounded(instr);
        }
        let pc = self.registers[R_PC];
        self.registers[7] = pc;
        let ghost saved = old(self).regs().update(7, old(self).regs()[R_PC as int]);

        let vect = instr & 0xFF;
        if vect == TRAP_GETC {
            match host::read_stdin_blocking() {
                Ok(b) => {
                    self.set_input_byte(b);
                    proof {
                        assert(exists|c: u8|
                            self.regs() == saved.update(0, c as u16).update(
                                R_COND as int,
                                #[trigger] flag_for(c as u16),
                            )) by {
                            assert(self.regs() == saved.update(0, b as u16).update(
                                R_COND as int,
                                flag_for(b as u16),
                            ));
                        }
                    }
                    Ok(())
                },
                Err(e) => Err(e),
            }
        } else if vect == TRAP_OUT {
            let rv = self.registers[0];
            proof {
                lemma_byte_fields(rv);
            }
            let low = rv & 0xFF;
            self.emit_byte(low as u8)?;
            host::flush_stdout()?;
            Ok(())
        } else if vect == TRAP_PUTS {
            let mut addr = self.registers[0];
            let mut remaining: usize = MEMORY_MAX;
            loop
                invariant
                    vect == trap_vector(instr),
                    saved == old(self).regs().update(7, old(self).regs()[R_PC as int]),
                    vect == TRAP_PUTS,
                    self.wf(),
                    self.regs() == saved,
                    non_device_unchanged(old(self).mem(), self.mem()),
                    self.halted() == old(self).halted(),
                    walk_is_clean(old(self).mem(), old(self).regs()[0], MEMORY_MAX as nat) ==> {
                        &&& self.mem() == old(self).mem()
                        &&& walk_is_clean(old(self).mem(), addr, remaining as nat)
                        &&& self.output() + word_string_bytes(old(self).mem(), addr, remaining as nat)
                            == old(self).output() + word_string_bytes(
                            old(self).mem(),
                            old(self).regs()[0],
                            MEMORY_MAX as nat,
                        )
                    },
                ensures
                    self.wf(),
                    self.regs() == saved,
                    non_device_unchanged(old(self).mem(), self.mem()),
                    self.halted() == old(self).halted(),
                    walk_is_clean(old(self).mem(), old(self).regs()[0], MEMORY_MAX as nat) ==> {
                        &&& self.mem() == old(self).mem()
                        &&& self.output() == old(self).output() + word_string_bytes(
                            old(self).mem(),
                            old(self).regs()[0],
                            MEMORY_MAX as nat,
                        )
                    },
                decreases remaining,
            {
                if remaining == 0 {
                    break ;
                }
                let ghost pre = self.mem();
                let v = self.memory.read(addr);
                proof {
                    assert(non_device_unchanged(pre, self.mem())) by {
                        if addr == MR_KBSR {
                            let key = choose|key: Option<u8>| self.mem() == kb_update(pre, key);
                            assert(self.mem() == kb_update(pre, key));
                        }
                    }
                    assert(non_device_unchanged(old(self).mem(), self.mem()));
                    if walk_is_clean(old(self).mem(), old(self).regs()[0], MEMORY_MAX as nat) {
                        assert(addr != MR_KBSR);
                        assert(v == old(self).mem()[addr as int]);
                    }
                }
                if v == 0 {
                    proof {
                        if walk_is_clean(old(self).mem(), old(self).regs()[0], MEMORY_MAX as nat) {
                            assert(word_string_bytes(old(self).mem(), addr, remaining as nat)
                                =~= Seq::<u8>::empty());
                            assert(self.output() + Seq::<u8>::empty() =~= self.output());
                        }
                    }
                    break ;
                }
                proof {
                    lemma_byte_fields(v);
                }
                let low = v & 0xFF;
                let ghost out_pre = self.output();
                self.emit_byte(low as u8)?;
                proof {
                    if walk_is_clean(old(self).mem(), old(self).regs()[0], MEMORY_MAX as nat) {
                        assert(walk_is_clean(
                            old(self).mem(),
                            wrap_add(addr, 1),
                            (remaining - 1) as nat,
                        ));
                        assert(word_string_bytes(old(self).mem(), addr, remaining as nat)
                            =~= seq![(low as u8)] + word_string_bytes(
                            old(self).mem(),
                            wrap_add(addr, 1),
                            (remaining - 1) as nat,
                        ));
                        assert(self.output() + word_string_bytes(
                            old(self).mem(),
                            wrap_add(addr, 1),
                            (remaining - 1) as nat,
                        ) =~= out_pre + word_string_bytes(old(self).mem(), addr, remaining as nat));
                    }
                }
                addr = addr.wrapping_add(1);
                remaining = remaining - 1;
            }
            host::flush_stdout()?;
            Ok(())
        } else if vect == TRAP_IN {
            let prompt: Vec<u8> = vec![
                69u8, 110u8, 116u8, 101u8, 114u8, 32u8, 97u8, 32u8, 99u8, 104u8, 97u8, 114u8,
                97u8, 99u8, 116u8, 101u8, 114u8, 58u8, 32u8,
            ];
            proof {
                assert(prompt@ =~= input_prompt());
            }
            self.emit_bytes(prompt.as_slice())?;
            host::flush_stdout()?;
            match host::read_stdin_blocking() {
                Ok(b) => {
                    self.emit_byte(b)?;
                    host::flush_stdout()?;
                    self.set_input_byte(b);
                    proof {
                        assert(exists|c: u8|
                            self.regs() == saved.update(0, c as u16).update(
                                R_COND as int,
                                #[trigger] flag_for(c as u16),
                            ) && self.output() == old(self).output() + input_prompt() + seq![c]) by {
                            assert(self.regs() == saved.update(0, b as u16).update(
                                R_COND as int,
                                flag_for(b as u16),
                            ));
                            assert(self.output() =~= old(self).output() + input_prompt() + seq![b]);
                        }
                    }
                    Ok(())
                },
                Err(e) => Err(e),
            }
        } else if vect == TRAP_PUTSP {
            let mut addr = self.registers[0];
            let mut remaining: usize = MEMORY_MAX;
            loop
                invariant
                    vect == trap_vector(instr),
                    saved == old(self).regs().update(7, old(self).regs()[R_PC as int]),
                    vect == TRAP_PUTSP,
                    self.wf(),
                    self.regs() == saved,
                    non_device_unchanged(old(self).mem(), self.mem()),
                    self.halted() == old(self).halted(),
                    walk_is_clean(old(self).mem(), old(self).regs()[0], MEMORY_MAX as nat) ==> {
                        &&& self.mem() == old(self).mem()
                        &&& walk_is_clean(old(self).mem(), addr, remaining as nat)
                        &&& self.output() + packed_string_bytes(
                            old(self).mem(),
                            addr,
                            remaining as nat,
                        ) == old(self).output() + packed_string_bytes(
                            old(self).mem(),
                            old(self).regs()[0],
                            MEMORY_MAX as nat,
                        )
                    },
                ensures
                    self.wf(),
                    self.regs() == saved,
                    non_device_unchanged(old(self).mem(), self.mem()),
                    self.halted() == old(self).halted(),
                    walk_is_clean(old(self).mem(), old(self).regs()[0], MEMORY_MAX as nat) ==> {
                        &&& self.mem() == old(self).mem()
                        &&& self.output() == old(self).output() + packed_string_bytes(
                            old(self).mem(),
                            old(self).regs()[0],
                            MEMORY_MAX as nat,
                        )
                    },
                decreases remaining,
            {
                if remaining == 0 {
                    break ;
                }
                let ghost pre = self.mem();
                let v = self.memory.read(addr);
                proof {
                    assert(non_device_unchanged(pre, self.mem())) by {
                        if addr == MR_KBSR {
                            let key = choose|key: Option<u8>| self.mem() == kb_update(pre, key);
                            assert(self.mem() == kb_update(pre, key));
                        }
                    }
                    assert(non_device_unchanged(old(self).mem(), self.mem()));
                    if walk_is_clean(old(self).mem(), old(self).regs()[0], MEMORY_MAX as nat) {
                        assert(addr != MR_KBSR);
                        assert(v == old(self).mem()[addr as int]);
                    }
                }
                if v == 0 {
                    proof {
                        if walk_is_clean(old(self).mem(), old(self).regs()[0], MEMORY_MAX as nat) {
                            assert(packed_string_bytes(old(self).mem(), addr, remaining as nat)
                                =~= Seq::<u8>::empty());
                            assert(self.output() + Seq::<u8>::empty() =~= self.output());
                        }
                    }
                    break ;
                }
                proof {
                    lemma_byte_fields(v);
                }
                let low = v & 0xFF;
                let high = v >> 8;
                let ghost out_pre = self.output();
                self.emit_byte(low as u8)?;
                if high != 0 {
                    self.emit_byte(high as u8)?;
                }
                proof {
                    if walk_is_clean(old(self).mem(), old(self).regs()[0], MEMORY_MAX as nat) {
                        assert(walk_is_clean(
                            old(self).mem(),
                            wrap_add(addr, 1),
                            (remaining - 1) as nat,
                        ));
                        if high == 0 {
                            assert(packed_string_bytes(old(self).mem(), addr, remaining as nat)
                                =~= seq![(low as u8)] + packed_string_bytes(
                                old(self).mem(),
                                wrap_add(addr, 1),
                                (remaining - 1) as nat,
                            ));
                        } else {
                            assert(packed_string_bytes(old(self).mem(), addr, remaining as nat)
                                =~= seq![(low as u8), (high as u8)] + packed_string_bytes(
                                old(self).mem(),
                                wrap_add(addr, 1),
                                (remaining - 1) as nat,
                            ));
                        }
                        assert(self.output() + packed_string_bytes(
                            old(self).mem(),
                            wrap_add(addr, 1),
                            (remaining - 1) as nat,
                        ) =~= out_pre + packed_string_bytes(old(self).mem(), addr, remaining as nat));
                    }
                }
                addr = addr.wrapping_add(1);
                remaining = remaining - 1;
            }
            host::flush_stdout()?;
            Ok(())
        } else if vect == TRAP_HALT {
            self.halted = true;
            let notice: Vec<u8> = vec![72u8, 65u8, 76u8, 84u8, 10u8];
            proof {
                assert(notice@ =~= halt_notice());
            }
            self.emit_bytes(notice.as_slice())?;
            host::flush_stdout()?;
            Ok(())
        } else {
            Err(VMError::InvalidOpCode(vect))
        }
    }

    /// Dispatch one decoded instruction to its handler: the machine and
    /// the handler's outcome relate exactly as `instruction_rel` states —
    /// in particular, the reserved opcodes RTI and RES always fail with
    /// an invalid-opcode error carrying their numeric value, whatever
    /// the remaining instruction bits hold, and leave the state
    /// untouched.
    pub fn execute_instruction(&mut self, op: OpCode, instr: u16) -> (r: Result<(), VMError>)
        requires
            old(self).wf(),
        ensures
            final(self).wf(),
            instruction_rel(old(self).state(), final(self).state(), op, instr, r),
    {
        match op {
            OpCode::ADD => self.add_op(instr),
            OpCode::AND => self.and_op(instr),
            OpCode::NOT => self.not_op(instr),
            OpCode::BR => self.branch_op(instr),
            OpCode::JMP => self.jump_op(instr),
            OpCode::JSR => self.jsr_op(instr),
            OpCode::LD => self.load_op(instr),
            OpCode::LDI => self.load_indirect_op(instr),
            OpCode::LDR => self.load_register_op(instr),
            OpCode::LEA => self.load_effective_address_op(instr),
            OpCode::ST => self.store_op(instr),
            OpCode::STI => self.store_indirect_op(instr),
            OpCode::STR => self.store_register_op(instr),
            OpCode::TRAP => self.trap_op(instr),
            OpCode::RES | OpCode::RTI => Err(VMError::InvalidOpCode(op.code())),
        }
    }

    /// Run the fetch-decode-execute cycle from the start address until a
    /// HALT trap moves the machine to Halted — after which no further
    /// fetch happens — or an instruction faults, which ends the run at
    /// once with that error and no later instruction executed: the final
    /// state is what the completed cycles made of the reset state. Every
    /// loop here must terminate, so the cycle carries a step budget far
    /// beyond any feasible run; a machine still running when it is spent
    /// reports an I/O failure, as the last clause of `execute_post`
    /// states.
    pub fn execute(&mut self) -> (r: Result<(), VMError>)
        requires
            old(self).wf(),
        ensures
            final(self).wf(),
            r is Ok ==> final(self).halted(),
            execute_post(old(self).state(), final(self).state(), r),
    {
        self.registers[R_PC] = PC_START;
        self.registers[R_COND] = FL_ZRO;
        proof {
            assert(self.state() =~= reset_state(old(self).state()));
            assert(reaches(reset_state(old(self).state()), self.state(), 0));
        }

        let mut budget: u64 = 0xFFFF_FFFF_FFFF_FFFF;
        while !self.halted
            invariant
                self.wf(),
                exists|n: nat| #[trigger] reaches(reset_state(old(self).state()), self.state(), n),
            decreases budget,
        {
            if budget == 0 {
                proof {
                    let n = choose|n: nat|
                        reaches(reset_state(old(self).state()), self.state(), n);
                    assert(reaches(reset_state(old(self).state()), self.state(), n));
                }
                return Err(
                    VMError::IO("the step budget was spent before the machine halted".to_owned()),
                );
            }
            budget = budget - 1;

            let ghost s0 = self.state();

            // fetch
            let pc = self.registers[R_PC];
            self.registers[R_PC] = pc.wrapping_add(1);
            let instr = self.memory.read(pc);
            let ghost m1 = self.mem();
            proof {
                lemma_fields_bounded(instr);
                assert(read_rel(s0.mem, m1, s0.regs[R_PC as int], instr));
            }

            // decode
            let op_code = instr >> 12;

            // execute
            match OpCode::from_u16(op_code) {
                Some(op) => {
                    let ghost fetched = EngineState {
                        regs: s0.regs.update(R_PC as int, wrap_add(pc, 1)),
                        mem: m1,
                        halted: s0.halted,
                        out: s0.out,
                    };
                    proof {
                        assert(self.state() =~= fetched);
                    }
                    match self.execute_instruction(op, instr) {
                        Ok(_) => {
                            proof {
                                assert(cycle_rel(s0, self.state(), Ok(()))) by {
                                    assert(read_rel(s0.mem, m1, s0.regs[R_PC as int], instr));
                                    assert(op.code_spec() == instr >> 12);
                                    assert(instruction_rel(fetched, self.state(), op, instr, Ok(())));
                                }
                                let n = choose|n: nat|
                                    reaches(reset_state(old(self).state()), s0, n);
                                assert(reaches(reset_state(old(self).state()), self.state(), n + 1))
                                    by {
                                    assert(reaches(reset_state(old(self).state()), s0, n));
                                    assert(!s0.halted);
                                    assert(cycle_rel(s0, self.state(), Ok(())));
                                }
                            }
                        },
                        Err(e) => {
                            proof {
                                assert(cycle_rel(s0, self.state(), Err(e))) by {
                                    assert(read_rel(s0.mem, m1, s0.regs[R_PC as int], instr));
                                    assert(op.code_spec() == instr >> 12);
                                    assert(instruction_rel(fetched, self.state(), op, instr, Err(e)));
                                }
                                let n = choose|n: nat|
                                    reaches(reset_state(old(self).state()), s0, n);
                                assert(reaches(reset_state(old(self).state()), s0, n));
                            }
                            return Err(e);
                        },
                    }
                },
                None => {
                    return Err(VMError::InvalidOpCode(op_code));
                },
            }
        }
        Ok(())
    }

    /// Run the machine: enter raw input mode, execute from the reset
    /// state until halt or fault, and restore the input mode on every
    /// exit path before the outcome is reported. Either raw mode could
    /// not be entered and nothing ran, or the machine's final state is
    /// explained by some cycle outcome as `execute_post` states; a
    /// faulted cycle is always reported as a failure, though a failure
    /// of the terminal restoration takes precedence as the reported
    /// error.
    pub fn run(&mut self) -> (r: Result<(), VMError>)
        requires
            old(self).wf(),
        ensures
            final(self).wf(),
            r is Ok ==> final(self).halted(),
            (final(self).state() == old(self).state() && r is Err) || (exists|
                er: Result<(), VMError>,
            |
                #[trigger] execute_post(old(self).state(), final(self).state(), er) && (r is Ok
                    ==> er is Ok) && (er is Err ==> r is Err)),
    {
        match self.terminal.disable_input_buffering() {
            Ok(_) => {},
            Err(e) => {
                return Err(e);
            },
        }
        let result = self.execute();
        proof {
            assert(execute_post(old(self).state(), self.state(), result));
        }
        match self.terminal.restore_input_buffering() {
            Ok(_) => {},
            Err(e) => {
                return Err(e);
            },
        }
        result
    }

    /// Load one program image: the first two bytes give the origin, each
    /// following big-endian pair one word, placed at consecutive
    /// addresses from the origin on; a trailing odd byte is ignored. An
    /// image shorter than its two-byte header, or one whose words would
    /// run past the end of memory, is rejected and loads nothing.
    pub fn load_program(&mut self, image: &[u8]) -> (r: Result<(), VMError>)
        requires
            old(self).wf(),
        ensures
            final(self).wf(),
            final(self).regs() == old(self).regs(),
            final(self).halted() == old(self).halted(),
            final(self).output() == old(self).output(),
            image@.len() >= 2 && image_fits(image@) ==> {
                &&& r is Ok
                &&& forall|k: int|
                    0 <= k < image_words(image@).len() ==> final(self).mem()[image_origin(image@)
                        as int + k] == image_words(image@)[k]
                &&& forall|a: int|
                    0 <= a < MEMORY_MAX && !(image_origin(image@) as int <= a < image_origin(
                        image@,
                    ) as int + image_words(image@).len()) ==> final(self).mem()[a]
                        == old(self).mem()[a]
            },
            !(image@.len() >= 2 && image_fits(image@)) ==> r == Err::<(), VMError>(
                VMError::InvalidProgram,
            ) && final(self).mem() == old(self).mem(),
    {
        if image.len() < 2 {
            return Err(VMError::InvalidProgram);
        }
        let origin = ((image[0] as u16) << 8) | (image[1] as u16);

        let mut words: Vec<u16> = Vec::new();
        let mut i: usize = 2;
        while i < image.len() - 1
            invariant
                image@.len() >= 2,
                2 <= i <= image@.len(),
                i == 2 + 2 * words@.len(),
                forall|k: int|
                    0 <= k < words@.len() ==> words@[k] == word_of_bytes(
                        image@[2 + 2 * k],
                        image@[3 + 2 * k],
                    ),
            decreases image@.len() - i,
        {
            let w = ((image[i] as u16) << 8) | (image[i + 1] as u16);
            words.push(w);
            i = i + 2;
        }
        proof {
            assert(words@.len() == (image@.len() - 2) / 2);
            assert(words@ =~= image_words(image@));
        }

        if words.len() > MEMORY_MAX - (origin as usize) {
            return Err(VMError::InvalidProgram);
        }
        self.memory.load_image(origin, words.as_slice());
        Ok(())
    }
}

} // verus!
