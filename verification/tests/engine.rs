use lc3_vm::machine::PC_START;
use lc3_vm::register::{FL_NEG, FL_POS, FL_ZRO};
use lc3_vm::{NoopTerminal, OpCode, Register, TerminalInterface, VMError, VM};

fn fresh_vm() -> VM<NoopTerminal> {
    VM::new(NoopTerminal)
}

#[test]
fn flags_zero_negative_positive() {
    let mut vm = fresh_vm();
    vm.set_reg(Register::R0, 0);
    vm.update_flags(0);
    assert_eq!(vm.reg(Register::COND), FL_ZRO);

    vm.set_reg(Register::R0, 0x8000);
    vm.update_flags(0);
    assert_eq!(vm.reg(Register::COND), FL_NEG);

    vm.set_reg(Register::R0, 1);
    vm.update_flags(0);
    assert_eq!(vm.reg(Register::COND), FL_POS);

    vm.set_reg(Register::R0, 0x7FFF);
    vm.update_flags(0);
    assert_eq!(vm.reg(Register::COND), FL_POS);
}

#[test]
fn add_immediate_wraparound_sets_zero_flag() {
    let mut vm = fresh_vm();
    vm.set_reg(Register::R1, 0xFFFF);
    vm.add_op(0x1061).unwrap(); // ADD R0, R1, #1
    assert_eq!(vm.reg(Register::R0), 0x0000);
    assert_eq!(vm.reg(Register::COND), FL_ZRO);
}

#[test]
fn add_register_form() {
    let mut vm = fresh_vm();
    vm.set_reg(Register::R0, 2);
    vm.set_reg(Register::R1, 3);
    vm.add_op(0x1401).unwrap(); // ADD R2, R0, R1
    assert_eq!(vm.reg(Register::R2), 5);
    assert_eq!(vm.reg(Register::COND), FL_POS);
}

#[test]
fn add_negative_immediate() {
    let mut vm = fresh_vm();
    vm.set_reg(Register::R1, 0);
    vm.add_op(0x107F).unwrap(); // ADD R0, R1, #-1
    assert_eq!(vm.reg(Register::R0), 0xFFFF);
    assert_eq!(vm.reg(Register::COND), FL_NEG);
}

#[test]
fn and_immediate_and_register() {
    let mut vm = fresh_vm();
    vm.set_reg(Register::R1, 0xFF0F);
    vm.and_op(0x507F).unwrap(); // AND R0, R1, #-1
    assert_eq!(vm.reg(Register::R0), 0xFF0F);
    assert_eq!(vm.reg(Register::COND), FL_NEG);

    vm.set_reg(Register::R0, 0x0F0F);
    vm.set_reg(Register::R1, 0x00FF);
    vm.and_op(0x5401).unwrap(); // AND R2, R0, R1
    assert_eq!(vm.reg(Register::R2), 0x000F);
    assert_eq!(vm.reg(Register::COND), FL_POS);
}

#[test]
fn not_complements() {
    let mut vm = fresh_vm();
    vm.set_reg(Register::R1, 0x00FF);
    vm.not_op(0x907F).unwrap(); // NOT R0, R1
    assert_eq!(vm.reg(Register::R0), 0xFF00);
    assert_eq!(vm.reg(Register::COND), FL_NEG);
}

#[test]
fn branch_taken_and_not_taken() {
    let mut vm = fresh_vm();
    vm.set_reg(Register::PC, 0x3000);
    vm.set_reg(Register::COND, FL_ZRO);
    vm.branch_op(0x0405).unwrap(); // BRz #5
    assert_eq!(vm.reg(Register::PC), 0x3005);

    vm.set_reg(Register::PC, 0x3000);
    vm.branch_op(0x0205).unwrap(); // BRp #5, flag is still ZERO
    assert_eq!(vm.reg(Register::PC), 0x3000);
}

#[test]
fn branch_negative_offset_wraps() {
    let mut vm = fresh_vm();
    vm.set_reg(Register::PC, 0x3000);
    vm.set_reg(Register::COND, FL_ZRO);
    vm.branch_op(0x05FF).unwrap(); // BRz #-1
    assert_eq!(vm.reg(Register::PC), 0x2FFF);
}

#[test]
fn jump_sets_pc_from_base_register() {
    let mut vm = fresh_vm();
    vm.set_reg(Register::R3, 0x1234);
    vm.jump_op(0xC0C0).unwrap(); // JMP R3
    assert_eq!(vm.reg(Register::PC), 0x1234);
}

#[test]
fn jump_through_r7_acts_as_return() {
    let mut vm = fresh_vm();
    vm.set_reg(Register::R7, 0x3456);
    vm.jump_op(0xC1C0).unwrap(); // JMP R7
    assert_eq!(vm.reg(Register::PC), 0x3456);
}

#[test]
fn jsr_long_form_links_and_jumps() {
    let mut vm = fresh_vm();
    vm.set_reg(Register::PC, 0x3000);
    vm.jsr_op(0x480A).unwrap(); // JSR #10
    assert_eq!(vm.reg(Register::R7), 0x3000);
    assert_eq!(vm.reg(Register::PC), 0x300A);
}

#[test]
fn jsr_short_form_uses_base_register() {
    let mut vm = fresh_vm();
    vm.set_reg(Register::PC, 0x3000);
    vm.set_reg(Register::R3, 0x4000);
    vm.jsr_op(0x40C0).unwrap(); // JSRR R3
    assert_eq!(vm.reg(Register::R7), 0x3000);
    assert_eq!(vm.reg(Register::PC), 0x4000);
}

#[test]
fn jsr_short_form_through_r7_reads_saved_pc() {
    let mut vm = fresh_vm();
    vm.set_reg(Register::PC, 0x3000);
    vm.set_reg(Register::R7, 0x5555);
    vm.jsr_op(0x41C0).unwrap(); // JSRR R7: base is read after the save
    assert_eq!(vm.reg(Register::R7), 0x3000);
    assert_eq!(vm.reg(Register::PC), 0x3000);
}

#[test]
fn load_pc_relative() {
    let mut vm = fresh_vm();
    vm.set_reg(Register::PC, 0x3000);
    vm.write_memory(0x3002, 0xBEEF);
    vm.load_op(0x2002).unwrap(); // LD R0, #2
    assert_eq!(vm.reg(Register::R0), 0xBEEF);
    assert_eq!(vm.reg(Register::COND), FL_NEG);
}

#[test]
fn load_indirect_double_indirection() {
    let mut vm = fresh_vm();
    vm.set_reg(Register::PC, 100);
    vm.write_memory(100, 200);
    vm.write_memory(200, 0x1234);
    vm.load_indirect_op(0xA000).unwrap(); // LDI R0, #0
    assert_eq!(vm.reg(Register::R0), 0x1234);
    assert_eq!(vm.reg(Register::COND), FL_POS);
}

#[test]
fn load_base_plus_offset() {
    let mut vm = fresh_vm();
    vm.set_reg(Register::R1, 0x4000);
    vm.write_memory(0x4004, 7);
    vm.load_register_op(0x6044).unwrap(); // LDR R0, R1, #4
    assert_eq!(vm.reg(Register::R0), 7);
    assert_eq!(vm.reg(Register::COND), FL_POS);
}

#[test]
fn load_effective_address_computes_only() {
    let mut vm = fresh_vm();
    vm.set_reg(Register::PC, 0x3000);
    vm.load_effective_address_op(0xE1FF).unwrap(); // LEA R0, #-1
    assert_eq!(vm.reg(Register::R0), 0x2FFF);
    assert_eq!(vm.reg(Register::COND), FL_POS);
}

#[test]
fn store_pc_relative() {
    let mut vm = fresh_vm();
    vm.set_reg(Register::PC, 0x3000);
    vm.set_reg(Register::R0, 0xABCD);
    vm.store_op(0x3002).unwrap(); // ST R0, #2
    assert_eq!(vm.read_memory(0x3002), 0xABCD);
}

#[test]
fn store_indirect() {
    let mut vm = fresh_vm();
    vm.set_reg(Register::PC, 0x3000);
    vm.write_memory(0x3000, 0x4000);
    vm.set_reg(Register::R0, 0x42);
    vm.store_indirect_op(0xB000).unwrap(); // STI R0, #0
    assert_eq!(vm.read_memory(0x4000), 0x42);
}

#[test]
fn store_base_plus_offset() {
    let mut vm = fresh_vm();
    vm.set_reg(Register::R1, 0x4000);
    vm.set_reg(Register::R0, 9);
    vm.store_register_op(0x7041).unwrap(); // STR R0, R1, #1
    assert_eq!(vm.read_memory(0x4001), 9);
}

#[test]
fn trap_unknown_vector_is_invalid_opcode() {
    let mut vm = fresh_vm();
    let r = vm.trap_op(0xF0FF);
    assert!(matches!(r, Err(VMError::InvalidOpCode(0xFF))));
    assert!(!vm.is_halted());
}

#[test]
fn trap_halt_halts_once_and_saves_pc() {
    let mut vm = fresh_vm();
    vm.set_reg(Register::PC, 0x3001);
    assert!(!vm.is_halted());
    vm.trap_op(0xF025).unwrap(); // TRAP HALT
    assert!(vm.is_halted());
    assert_eq!(vm.reg(Register::R7), 0x3001);
}

#[test]
fn input_byte_lands_in_r0_with_flags() {
    let mut vm = fresh_vm();
    vm.set_input_byte(0x41);
    assert_eq!(vm.reg(Register::R0), 0x41);
    assert_eq!(vm.reg(Register::COND), FL_POS);

    vm.set_input_byte(0);
    assert_eq!(vm.reg(Register::R0), 0);
    assert_eq!(vm.reg(Register::COND), FL_ZRO);

    // the high byte of a stored input byte is 0, so the flag is never NEGATIVE
    vm.set_input_byte(0xFF);
    assert_eq!(vm.reg(Register::R0), 0xFF);
    assert_eq!(vm.reg(Register::COND), FL_POS);
}

#[test]
fn trap_out_writes_and_keeps_state() {
    let mut vm = fresh_vm();
    vm.set_reg(Register::PC, 0x3000);
    vm.set_reg(Register::R0, 'A' as u16);
    vm.trap_op(0xF021).unwrap(); // TRAP OUT
    assert_eq!(vm.reg(Register::R7), 0x3000);
    assert_eq!(vm.reg(Register::R0), 'A' as u16);
    assert!(!vm.is_halted());
}

#[test]
fn trap_puts_walks_until_zero_word() {
    let mut vm = fresh_vm();
    vm.write_memory(0x4000, 'H' as u16);
    vm.write_memory(0x4001, 'i' as u16);
    vm.write_memory(0x4002, 0);
    vm.set_reg(Register::R0, 0x4000);
    vm.set_reg(Register::PC, 0x3000);
    vm.trap_op(0xF022).unwrap(); // TRAP PUTS
    assert_eq!(vm.reg(Register::R7), 0x3000);
    assert_eq!(vm.read_memory(0x4000), 'H' as u16);
    assert_eq!(vm.read_memory(0x4001), 'i' as u16);
    assert!(!vm.is_halted());
}

#[test]
fn trap_putsp_walks_packed_pairs_until_zero_word() {
    let mut vm = fresh_vm();
    // "AB" packed low byte first, then a zero word
    vm.write_memory(0x4000, (('B' as u16) << 8) | ('A' as u16));
    vm.write_memory(0x4001, 0);
    vm.set_reg(Register::R0, 0x4000);
    vm.set_reg(Register::PC, 0x3000);
    vm.trap_op(0xF024).unwrap(); // TRAP PUTSP
    assert_eq!(vm.reg(Register::R7), 0x3000);
    assert!(!vm.is_halted());
}

#[test]
fn noop_terminal_operations_succeed() {
    let mut t = NoopTerminal;
    assert!(t.disable_input_buffering().is_ok());
    assert!(t.restore_input_buffering().is_ok());
}

#[test]
fn reserved_opcodes_always_invalid() {
    // RTI (8) and RES (13), whatever the remaining bits hold.
    for low_bits in [0x0000u16, 0x0ABC, 0x0FFF] {
        let mut vm = fresh_vm();
        let r = vm.execute_instruction(OpCode::RTI, 0x8000 | low_bits);
        assert!(matches!(r, Err(VMError::InvalidOpCode(8))));

        let r = vm.execute_instruction(OpCode::RES, 0xD000 | low_bits);
        assert!(matches!(r, Err(VMError::InvalidOpCode(13))));
    }
}

#[test]
fn run_halt_program_exits_normally() {
    let mut vm = fresh_vm();
    // origin 0x3000, one word: TRAP HALT
    vm.load_program(&[0x30, 0x00, 0xF0, 0x25]).unwrap();
    vm.run().unwrap();
    assert!(vm.is_halted());
}

#[test]
fn run_executes_loaded_program() {
    let mut vm = fresh_vm();
    // origin 0x3000: ADD R0, R0, #5; TRAP HALT
    vm.load_program(&[0x30, 0x00, 0x10, 0x25, 0xF0, 0x25]).unwrap();
    vm.run().unwrap();
    assert!(vm.is_halted());
    assert_eq!(vm.reg(Register::R0), 5);
    assert_eq!(vm.reg(Register::PC), PC_START + 2);
}

#[test]
fn run_reports_invalid_opcode_from_fetch() {
    let mut vm = fresh_vm();
    // origin 0x3000: RTI, which this profile never implements
    vm.load_program(&[0x30, 0x00, 0x80, 0x00]).unwrap();
    let r = vm.run();
    assert!(matches!(r, Err(VMError::InvalidOpCode(8))));
    assert!(!vm.is_halted());
}
