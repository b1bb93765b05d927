//! Decoder tests: field extraction, the two-level dispatch, and the
//! unsupported fallback.

use chip8::instruction::Instruction;

fn decode(op: u16) -> Instruction {
    let jmp = op & 0x0FFF;
    let x = ((op >> 8) & 0xF) as usize;
    let y = ((op >> 4) & 0xF) as usize;
    let nn = op & 0x00FF;
    Instruction::get_instr_from_parts(op, jmp, x, y, nn)
}

#[test]
fn decode_clear_screen() {
    assert_eq!(decode(0x00E0), Instruction::I00E0);
}

#[test]
fn decode_return() {
    assert_eq!(decode(0x00EE), Instruction::I00EE);
}

#[test]
fn decode_malformed_low_nibble_is_unsupported() {
    assert_eq!(decode(0x5001), Instruction::UNSUPPORTED);
}

#[test]
fn decode_unknown_patterns_are_unsupported() {
    assert_eq!(decode(0x0000), Instruction::UNSUPPORTED);
    assert_eq!(decode(0x0123), Instruction::UNSUPPORTED);
    assert_eq!(decode(0x8AB8), Instruction::UNSUPPORTED);
    assert_eq!(decode(0x9AB1), Instruction::UNSUPPORTED);
    assert_eq!(decode(0xE0FF), Instruction::UNSUPPORTED);
    assert_eq!(decode(0xF0FF), Instruction::UNSUPPORTED);
}

#[test]
fn decode_jump_extracts_address() {
    assert_eq!(decode(0x1234), Instruction::I1NNN(0x234));
    assert_eq!(decode(0x1FFF), Instruction::I1NNN(0xFFF));
}

#[test]
fn decode_call_and_skips() {
    assert_eq!(decode(0x2ABC), Instruction::I2NNN(0xABC));
    assert_eq!(decode(0x31FF), Instruction::I3XNN(1, 0xFF));
    assert_eq!(decode(0x4207), Instruction::I4XNN(2, 0x07));
    assert_eq!(decode(0x5340), Instruction::I5XY0(3, 4));
    assert_eq!(decode(0x9560), Instruction::I9XY0(5, 6));
}

#[test]
fn decode_loads_and_add() {
    assert_eq!(decode(0x6A42), Instruction::I6XNN(0xA, 0x42));
    assert_eq!(decode(0x7B01), Instruction::I7XNN(0xB, 0x01));
    assert_eq!(decode(0xA123), Instruction::IANNN(0x123));
    assert_eq!(decode(0xB456), Instruction::IBNNN(0x456));
    assert_eq!(decode(0xC77F), Instruction::ICXNN(7, 0x7F));
}

#[test]
fn decode_alu_family() {
    assert_eq!(decode(0x8120), Instruction::I8XY0(1, 2));
    assert_eq!(decode(0x8121), Instruction::I8XY1(1, 2));
    assert_eq!(decode(0x8122), Instruction::I8XY2(1, 2));
    assert_eq!(decode(0x8123), Instruction::I8XY3(1, 2));
    assert_eq!(decode(0x8124), Instruction::I8XY4(1, 2));
    assert_eq!(decode(0x8125), Instruction::I8XY5(1, 2));
    assert_eq!(decode(0x8126), Instruction::I8XY6(1, 2));
    assert_eq!(decode(0x8127), Instruction::I8XY7(1, 2));
    assert_eq!(decode(0x812E), Instruction::I8XYE(1, 2));
}

#[test]
fn decode_draw_and_keys() {
    assert_eq!(decode(0xD125), Instruction::IDXYN(1, 2, 5));
    assert_eq!(decode(0xE19E), Instruction::IEX9E(1));
    assert_eq!(decode(0xE2A1), Instruction::IEXA1(2));
}

#[test]
fn decode_f_family() {
    assert_eq!(decode(0xF107), Instruction::IFX07(1));
    assert_eq!(decode(0xF20A), Instruction::IFX0A(2));
    assert_eq!(decode(0xF315), Instruction::IFX15(3));
    assert_eq!(decode(0xF418), Instruction::IFX18(4));
    assert_eq!(decode(0xF51E), Instruction::IFX1E(5));
    assert_eq!(decode(0xF629), Instruction::IFX29(6));
    assert_eq!(decode(0xF733), Instruction::IFX33(7));
    assert_eq!(decode(0xF855), Instruction::IFX55(8));
    assert_eq!(decode(0xF965), Instruction::IFX65(9));
}
