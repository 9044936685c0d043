use lc3_vm::bits::sign_extend;
use lc3_vm::{OpCode, Register};

#[test]
fn decode_is_total_over_four_bits() {
    let expected = [
        OpCode::BR,
        OpCode::ADD,
        OpCode::LD,
        OpCode::ST,
        OpCode::JSR,
        OpCode::AND,
        OpCode::LDR,
        OpCode::STR,
        OpCode::RTI,
        OpCode::NOT,
        OpCode::LDI,
        OpCode::STI,
        OpCode::JMP,
        OpCode::RES,
        OpCode::LEA,
        OpCode::TRAP,
    ];
    for (value, op) in expected.iter().enumerate() {
        assert_eq!(OpCode::from_u16(value as u16), Some(*op));
    }
    assert_eq!(OpCode::from_u16(16), None);
    assert_eq!(OpCode::from_u16(0xFFFF), None);
}

#[test]
fn decode_reserved_codes() {
    assert_eq!(OpCode::from_u16(8), Some(OpCode::RTI));
    assert_eq!(OpCode::from_u16(13), Some(OpCode::RES));
}

#[test]
fn register_from_index_covers_all_ten_slots() {
    let expected = [
        Register::R0,
        Register::R1,
        Register::R2,
        Register::R3,
        Register::R4,
        Register::R5,
        Register::R6,
        Register::R7,
        Register::PC,
        Register::COND,
    ];
    for (index, reg) in expected.iter().enumerate() {
        assert_eq!(Register::from_index(index), Some(*reg));
    }
    assert_eq!(Register::from_index(10), None);
    assert_eq!(Register::from_index(usize::MAX), None);
}

#[test]
fn sign_extend_positive_values_unchanged() {
    assert_eq!(sign_extend(1, 5), 1);
    assert_eq!(sign_extend(0x0F, 5), 0x0F);
    assert_eq!(sign_extend(0x1F, 6), 0x1F);
    assert_eq!(sign_extend(0x0FF, 9), 0x0FF);
    assert_eq!(sign_extend(0x3FF, 11), 0x3FF);
}

#[test]
fn sign_extend_negative_values_fill_high_bits() {
    assert_eq!(sign_extend(0x1F, 5), 0xFFFF); // -1 in 5 bits
    assert_eq!(sign_extend(0x10, 5), 0xFFF0); // -16 in 5 bits
    assert_eq!(sign_extend(0x20, 6), 0xFFE0);
    assert_eq!(sign_extend(0x100, 9), 0xFF00);
    assert_eq!(sign_extend(0x400, 11), 0xFC00);
}

#[test]
fn sign_extend_then_mask_returns_the_field() {
    for k in [5u16, 6, 9, 11] {
        let mask = (1u16 << k) - 1;
        for x in [0u16, 1, 2, 7, (1 << (k - 1)) - 1, 1 << (k - 1), mask - 1, mask] {
            assert_eq!(sign_extend(x, k) & mask, x);
        }
    }
}
