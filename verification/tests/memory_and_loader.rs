use lc3_vm::memory::{MR_KBDR, MR_KBSR};
use lc3_vm::{Memory, NoopTerminal, Register, VMError, VM};

#[test]
fn memory_write_then_read_back() {
    let mut mem = Memory::new();
    assert_eq!(mem.cell(5), 0);
    mem.write(5, 7);
    assert_eq!(mem.read(5), 7);
    assert_eq!(mem.cell(5), 7);
}

#[test]
fn writing_a_device_register_merely_overwrites_it() {
    let mut mem = Memory::new();
    mem.write(MR_KBSR, 0x1234);
    assert_eq!(mem.cell(MR_KBSR), 0x1234);
    mem.write(MR_KBDR, 0x5678);
    assert_eq!(mem.cell(MR_KBDR), 0x5678);
}

#[test]
fn keyboard_poll_updates_are_not_idempotent() {
    let mut mem = Memory::new();

    // two polls in a row with no fresh input: the status reads 0 both times
    mem.apply_key_event(None);
    assert_eq!(mem.cell(MR_KBSR), 0);
    mem.apply_key_event(None);
    assert_eq!(mem.cell(MR_KBSR), 0);

    // a poll that found a character: ready bit set, character in the data register
    mem.apply_key_event(Some(0x41));
    assert_eq!(mem.cell(MR_KBSR), 0x8000);
    assert_eq!(mem.cell(MR_KBDR), 0x41);

    // the next empty poll clears the status again
    mem.apply_key_event(None);
    assert_eq!(mem.cell(MR_KBSR), 0);
    assert_eq!(mem.cell(MR_KBDR), 0x41);
}

#[test]
fn load_image_places_words_at_origin() {
    let mut mem = Memory::new();
    mem.load_image(0x3000, &[1, 2, 3]);
    assert_eq!(mem.cell(0x2FFF), 0);
    assert_eq!(mem.cell(0x3000), 1);
    assert_eq!(mem.cell(0x3001), 2);
    assert_eq!(mem.cell(0x3002), 3);
    assert_eq!(mem.cell(0x3003), 0);
}

#[test]
fn load_program_reads_big_endian_words() {
    let mut vm = VM::new(NoopTerminal);
    vm.load_program(&[0x30, 0x00, 0x12, 0x34, 0xAB, 0xCD]).unwrap();
    assert_eq!(vm.read_memory(0x3000), 0x1234);
    assert_eq!(vm.read_memory(0x3001), 0xABCD);
    assert_eq!(vm.read_memory(0x3002), 0);
}

#[test]
fn load_program_ignores_trailing_odd_byte() {
    let mut vm = VM::new(NoopTerminal);
    vm.load_program(&[0x30, 0x00, 0x12, 0x34, 0x56]).unwrap();
    assert_eq!(vm.read_memory(0x3000), 0x1234);
    assert_eq!(vm.read_memory(0x3001), 0);
}

#[test]
fn load_program_shorter_than_header_is_invalid() {
    let mut vm = VM::new(NoopTerminal);
    assert!(matches!(vm.load_program(&[]), Err(VMError::InvalidProgram)));
    assert!(matches!(vm.load_program(&[0x30]), Err(VMError::InvalidProgram)));
}

#[test]
fn load_program_past_end_of_memory_is_invalid() {
    let mut vm = VM::new(NoopTerminal);
    let r = vm.load_program(&[0xFF, 0xFF, 0x00, 0x01, 0x00, 0x02]);
    assert!(matches!(r, Err(VMError::InvalidProgram)));
    // nothing was loaded
    assert_eq!(vm.read_memory(0xFFFF), 0);
}

#[test]
fn load_program_filling_the_last_cell_is_accepted() {
    let mut vm = VM::new(NoopTerminal);
    vm.load_program(&[0xFF, 0xFF, 0xAB, 0xCD]).unwrap();
    assert_eq!(vm.read_memory(0xFFFF), 0xABCD);
}

#[test]
fn loading_two_images_last_writer_wins_on_overlap() {
    let mut vm = VM::new(NoopTerminal);
    vm.load_program(&[0x30, 0x00, 0x11, 0x11, 0x22, 0x22]).unwrap();
    vm.load_program(&[0x30, 0x01, 0x33, 0x33]).unwrap();
    assert_eq!(vm.read_memory(0x3000), 0x1111);
    assert_eq!(vm.read_memory(0x3001), 0x3333);
}

#[test]
fn header_only_image_loads_nothing() {
    let mut vm = VM::new(NoopTerminal);
    vm.load_program(&[0x30, 0x00]).unwrap();
    assert_eq!(vm.read_memory(0x3000), 0);
}

#[test]
fn new_machine_is_all_zero_and_running() {
    let mut vm = VM::new(NoopTerminal);
    assert!(!vm.is_halted());
    assert_eq!(vm.reg(Register::R0), 0);
    assert_eq!(vm.reg(Register::R7), 0);
    assert_eq!(vm.reg(Register::PC), 0);
    assert_eq!(vm.reg(Register::COND), 0);
    assert_eq!(vm.read_memory(0x3000), 0);
}
