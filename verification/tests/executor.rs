//! Executor tests: flag semantics, register and memory moves, the stack
//! discipline, the keypad instructions and the sprite draw.

use chip8::chip8::{Chip8, Chip8Error, Outcome, FLAG, WIDTH};
use chip8::instruction::Instruction;
use chip8::pixel::Pixel;

#[test]
fn add_with_carry_sets_flag_and_wraps() {
    let mut c8 = Chip8::new();
    c8.execute_instruction(Instruction::I6XNN(1, 200)).unwrap();
    c8.execute_instruction(Instruction::I6XNN(2, 100)).unwrap();
    c8.execute_instruction(Instruction::I8XY4(1, 2)).unwrap();
    let v = c8.register_dump();
    assert_eq!(v[1], 44); // (200 + 100) mod 256
    assert_eq!(v[FLAG], 1);
}

#[test]
fn add_without_carry_clears_flag() {
    let mut c8 = Chip8::new();
    c8.execute_instruction(Instruction::I6XNN(1, 20)).unwrap();
    c8.execute_instruction(Instruction::I6XNN(2, 30)).unwrap();
    c8.execute_instruction(Instruction::I8XY4(1, 2)).unwrap();
    let v = c8.register_dump();
    assert_eq!(v[1], 50);
    assert_eq!(v[FLAG], 0);
}

#[test]
fn sub_with_not_borrow_flag() {
    let mut c8 = Chip8::new();
    // 5 - 5: no borrow, flag 1, result 0.
    c8.execute_instruction(Instruction::I6XNN(1, 5)).unwrap();
    c8.execute_instruction(Instruction::I6XNN(2, 5)).unwrap();
    c8.execute_instruction(Instruction::I8XY5(1, 2)).unwrap();
    let v = c8.register_dump();
    assert_eq!(v[1], 0);
    assert_eq!(v[FLAG], 1);
    // 4 - 5: borrow, flag 0, result (4 - 5) mod 256.
    c8.execute_instruction(Instruction::I6XNN(1, 4)).unwrap();
    c8.execute_instruction(Instruction::I8XY5(1, 2)).unwrap();
    let v = c8.register_dump();
    assert_eq!(v[1], 255);
    assert_eq!(v[FLAG], 0);
}

#[test]
fn reverse_sub_uses_opposite_operands() {
    let mut c8 = Chip8::new();
    c8.execute_instruction(Instruction::I6XNN(1, 3)).unwrap();
    c8.execute_instruction(Instruction::I6XNN(2, 10)).unwrap();
    c8.execute_instruction(Instruction::I8XY7(1, 2)).unwrap();
    let v = c8.register_dump();
    assert_eq!(v[1], 7); // Vy - Vx
    assert_eq!(v[FLAG], 1); // Vy >= Vx
}

#[test]
fn shifts_report_shifted_out_bit_of_source() {
    let mut c8 = Chip8::new();
    c8.execute_instruction(Instruction::I6XNN(2, 0b1000_0101)).unwrap();
    c8.execute_instruction(Instruction::I8XY6(1, 2)).unwrap();
    let v = c8.register_dump();
    assert_eq!(v[1], 0b0100_0010);
    assert_eq!(v[FLAG], 1); // lsb of source
    c8.execute_instruction(Instruction::I8XYE(3, 2)).unwrap();
    let v = c8.register_dump();
    assert_eq!(v[3], 0b0000_1010); // source << 1, mod 256
    assert_eq!(v[FLAG], 1); // msb of source
}

#[test]
fn bitwise_ops() {
    let mut c8 = Chip8::new();
    c8.execute_instruction(Instruction::I6XNN(1, 0b1100)).unwrap();
    c8.execute_instruction(Instruction::I6XNN(2, 0b1010)).unwrap();
    c8.execute_instruction(Instruction::I8XY1(1, 2)).unwrap();
    assert_eq!(c8.register_dump()[1], 0b1110);
    c8.execute_instruction(Instruction::I6XNN(1, 0b1100)).unwrap();
    c8.execute_instruction(Instruction::I8XY2(1, 2)).unwrap();
    assert_eq!(c8.register_dump()[1], 0b1000);
    c8.execute_instruction(Instruction::I6XNN(1, 0b1100)).unwrap();
    c8.execute_instruction(Instruction::I8XY3(1, 2)).unwrap();
    assert_eq!(c8.register_dump()[1], 0b0110);
}

#[test]
fn add_immediate_wraps_without_flag() {
    let mut c8 = Chip8::new();
    c8.execute_instruction(Instruction::I6XNN(1, 250)).unwrap();
    c8.execute_instruction(Instruction::I7XNN(1, 10)).unwrap();
    let v = c8.register_dump();
    assert_eq!(v[1], 4);
    assert_eq!(v[FLAG], 0); // 7XNN defines no flag
}

#[test]
fn skip_instructions_advance_pc_one_width() {
    let mut c8 = Chip8::new();
    let pc0 = c8.pc();
    c8.execute_instruction(Instruction::I6XNN(1, 7)).unwrap();
    c8.execute_instruction(Instruction::I3XNN(1, 7)).unwrap();
    assert_eq!(c8.pc(), pc0 + 2); // condition held
    c8.execute_instruction(Instruction::I3XNN(1, 8)).unwrap();
    assert_eq!(c8.pc(), pc0 + 2); // condition failed
    c8.execute_instruction(Instruction::I4XNN(1, 8)).unwrap();
    assert_eq!(c8.pc(), pc0 + 4);
    c8.execute_instruction(Instruction::I5XY0(1, 2)).unwrap();
    assert_eq!(c8.pc(), pc0 + 4); // V1 = 7, V2 = 0
    c8.execute_instruction(Instruction::I9XY0(1, 2)).unwrap();
    assert_eq!(c8.pc(), pc0 + 6);
}

#[test]
fn stack_sixteen_calls_succeed_seventeenth_overflows() {
    let mut c8 = Chip8::new();
    for k in 0..16 {
        let r = c8.execute_instruction(Instruction::I2NNN(0x300 + k));
        assert_eq!(r, Ok(Outcome::Jumped));
        assert_eq!(c8.stack_pointer(), (k + 1) as u8);
    }
    let r = c8.execute_instruction(Instruction::I2NNN(0x400));
    assert_eq!(r, Err(Chip8Error::StackOverflow));
    assert_eq!(c8.stack_pointer(), 16);
}

#[test]
fn return_on_empty_stack_underflows() {
    let mut c8 = Chip8::new();
    let r = c8.execute_instruction(Instruction::I00EE);
    assert_eq!(r, Err(Chip8Error::StackUnderflow));
}

#[test]
fn call_then_return_resumes_at_call_site() {
    let mut c8 = Chip8::new();
    let pc0 = c8.pc();
    c8.execute_instruction(Instruction::I2NNN(0x300)).unwrap();
    assert_eq!(c8.pc(), 0x300);
    let r = c8.execute_instruction(Instruction::I00EE);
    assert_eq!(r, Ok(Outcome::Normal)); // the driver then advances past the call
    assert_eq!(c8.pc(), pc0);
}

#[test]
fn jump_and_jump_plus_v0() {
    let mut c8 = Chip8::new();
    let r = c8.execute_instruction(Instruction::I1NNN(0x7FF));
    assert_eq!(r, Ok(Outcome::Jumped));
    assert_eq!(c8.pc(), 0x7FF);
    c8.execute_instruction(Instruction::I6XNN(0, 0x10)).unwrap();
    let r = c8.execute_instruction(Instruction::IBNNN(0x300));
    assert_eq!(r, Ok(Outcome::Jumped));
    assert_eq!(c8.pc(), 0x310);
}

#[test]
fn random_respects_mask() {
    let mut c8 = Chip8::new();
    c8.execute_instruction(Instruction::ICXNN(1, 0x00)).unwrap();
    assert_eq!(c8.register_dump()[1], 0);
    c8.execute_instruction(Instruction::ICXNN(2, 0x0F)).unwrap();
    assert!(c8.register_dump()[2] < 16);
}

#[test]
fn bcd_writes_decimal_digits() {
    let mut c8 = Chip8::new();
    c8.execute_instruction(Instruction::I6XNN(3, 157)).unwrap();
    c8.execute_instruction(Instruction::IANNN(0x300)).unwrap();
    c8.execute_instruction(Instruction::IFX33(3)).unwrap();
    let mem = c8.memory_dump(0x303);
    assert_eq!(&mem[0x300..0x303], &[1, 5, 7]);
}

#[test]
fn bcd_out_of_bounds_errors() {
    let mut c8 = Chip8::new();
    c8.execute_instruction(Instruction::IANNN(0xFFE)).unwrap();
    let r = c8.execute_instruction(Instruction::IFX33(0));
    assert_eq!(r, Err(Chip8Error::OutOfBounds));
}

#[test]
fn register_dump_then_load_round_trips_and_advances_index() {
    let mut c8 = Chip8::new();
    for k in 0..8u8 {
        c8.execute_instruction(Instruction::I6XNN(k as usize, 10 + k)).unwrap();
    }
    c8.execute_instruction(Instruction::IANNN(0x300)).unwrap();
    c8.execute_instruction(Instruction::IFX55(7)).unwrap();
    assert_eq!(c8.index_register(), 0x300 + 8);
    // Scramble the registers, then load the range back.
    for k in 0..8u8 {
        c8.execute_instruction(Instruction::I6XNN(k as usize, 99)).unwrap();
    }
    c8.execute_instruction(Instruction::IANNN(0x300)).unwrap();
    c8.execute_instruction(Instruction::IFX65(7)).unwrap();
    assert_eq!(c8.index_register(), 0x300 + 8);
    let v = c8.register_dump();
    for k in 0..8u8 {
        assert_eq!(v[k as usize], 10 + k);
    }
}

#[test]
fn register_dump_out_of_bounds_errors() {
    let mut c8 = Chip8::new();
    c8.execute_instruction(Instruction::IANNN(0xFF8)).unwrap();
    let r = c8.execute_instruction(Instruction::IFX55(8));
    assert_eq!(r, Err(Chip8Error::OutOfBounds));
}

#[test]
fn timers_copy_through_registers() {
    let mut c8 = Chip8::new();
    c8.execute_instruction(Instruction::I6XNN(1, 42)).unwrap();
    c8.execute_instruction(Instruction::IFX15(1)).unwrap();
    assert_eq!(c8.delay_timer(), 42);
    c8.execute_instruction(Instruction::IFX18(1)).unwrap();
    assert_eq!(c8.sound_timer(), 42);
    c8.execute_instruction(Instruction::IFX07(2)).unwrap();
    assert_eq!(c8.register_dump()[2], 42);
}

#[test]
fn add_to_index_has_no_flag() {
    let mut c8 = Chip8::new();
    c8.execute_instruction(Instruction::IANNN(0x100)).unwrap();
    c8.execute_instruction(Instruction::I6XNN(1, 0x23)).unwrap();
    c8.execute_instruction(Instruction::IFX1E(1)).unwrap();
    assert_eq!(c8.index_register(), 0x123);
    assert_eq!(c8.register_dump()[FLAG], 0);
}

#[test]
fn add_to_index_wraps_mod_65536() {
    let mut c8 = Chip8::new();
    c8.execute_instruction(Instruction::IANNN(0xFFF)).unwrap();
    c8.execute_instruction(Instruction::I6XNN(1, 255)).unwrap();
    for _ in 0..300 {
        c8.execute_instruction(Instruction::IFX1E(1)).unwrap();
    }
    assert_eq!(c8.index_register(), ((0xFFFu32 + 300 * 255) % 0x10000) as u16);
}

#[test]
fn glyph_address_is_five_times_digit() {
    let mut c8 = Chip8::new();
    c8.execute_instruction(Instruction::I6XNN(1, 0x0A)).unwrap();
    c8.execute_instruction(Instruction::IFX29(1)).unwrap();
    assert_eq!(c8.index_register(), 50);
}

#[test]
fn key_skips_consult_observed_key() {
    let mut c8 = Chip8::new();
    let pc0 = c8.pc();
    c8.execute_instruction(Instruction::I6XNN(1, 5)).unwrap();
    // No key observed: neither skips.
    c8.execute_instruction(Instruction::IEX9E(1)).unwrap();
    c8.execute_instruction(Instruction::IEXA1(1)).unwrap();
    assert_eq!(c8.pc(), pc0);
    c8.observe_key(Some(5));
    c8.execute_instruction(Instruction::IEX9E(1)).unwrap();
    assert_eq!(c8.pc(), pc0 + 2); // pressed key matches V1
    c8.observe_key(Some(6));
    c8.execute_instruction(Instruction::IEXA1(1)).unwrap();
    assert_eq!(c8.pc(), pc0 + 4); // observed key differs from V1
}

#[test]
fn unsupported_instruction_reports_error() {
    let mut c8 = Chip8::new();
    let r = c8.execute_instruction(Instruction::UNSUPPORTED);
    assert!(matches!(r, Err(Chip8Error::Unsupported(_))));
}

#[test]
fn clear_screen_turns_every_pixel_off() {
    let mut c8 = Chip8::new();
    c8.load_rom(&[0xFF]).unwrap();
    c8.execute_instruction(Instruction::IANNN(0x200)).unwrap();
    c8.execute_instruction(Instruction::IDXYN(0, 1, 1)).unwrap();
    assert!(c8.display_snapshot().iter().any(|p| *p == Pixel::ON));
    c8.execute_instruction(Instruction::I00E0).unwrap();
    assert!(c8.display_snapshot().iter().all(|p| *p == Pixel::OFF));
}

#[test]
fn draw_twice_toggles_pixels_off_and_reports_collision() {
    let mut c8 = Chip8::new();
    c8.load_rom(&[0xFF, 0x81]).unwrap(); // two sprite rows
    c8.execute_instruction(Instruction::IANNN(0x200)).unwrap();
    c8.execute_instruction(Instruction::I6XNN(1, 10)).unwrap(); // column
    c8.execute_instruction(Instruction::I6XNN(2, 4)).unwrap(); // row
    c8.execute_instruction(Instruction::IDXYN(1, 2, 2)).unwrap();
    assert_eq!(c8.register_dump()[FLAG], 0); // clear screen: no collision
    let px = c8.display_snapshot();
    for col in 0..8 {
        assert_eq!(px[4 * WIDTH + 10 + col], Pixel::ON); // 0xFF row
    }
    assert_eq!(px[5 * WIDTH + 10], Pixel::ON); // 0x81 row: bits 7 and 0
    assert_eq!(px[5 * WIDTH + 11], Pixel::OFF);
    assert_eq!(px[5 * WIDTH + 17], Pixel::ON);
    c8.execute_instruction(Instruction::IDXYN(1, 2, 2)).unwrap();
    assert_eq!(c8.register_dump()[FLAG], 1); // second draw collides
    assert!(c8.display_snapshot().iter().all(|p| *p == Pixel::OFF));
}

#[test]
fn sprite_wraps_at_right_edge() {
    let mut c8 = Chip8::new();
    c8.load_rom(&[0xFF]).unwrap();
    c8.execute_instruction(Instruction::IANNN(0x200)).unwrap();
    c8.execute_instruction(Instruction::I6XNN(1, 62)).unwrap(); // column 62
    c8.execute_instruction(Instruction::I6XNN(2, 0)).unwrap(); // row 0
    c8.execute_instruction(Instruction::IDXYN(1, 2, 1)).unwrap();
    let px = c8.display_snapshot();
    assert_eq!(px[62], Pixel::ON);
    assert_eq!(px[63], Pixel::ON);
    assert_eq!(px[0], Pixel::ON); // the row continues at column 0
    assert_eq!(px[1], Pixel::ON); // and column 1
    for col in 2..6 {
        assert_eq!(px[col], Pixel::ON); // the rest of the eight bits
    }
    for col in 6..62 {
        assert_eq!(px[col], Pixel::OFF);
    }
    for p in WIDTH..px.len() {
        assert_eq!(px[p], Pixel::OFF); // nothing drawn out of row 0
    }
}

#[test]
fn sprite_wraps_at_bottom_edge() {
    let mut c8 = Chip8::new();
    c8.load_rom(&[0x80, 0x80]).unwrap();
    c8.execute_instruction(Instruction::IANNN(0x200)).unwrap();
    c8.execute_instruction(Instruction::I6XNN(1, 0)).unwrap();
    c8.execute_instruction(Instruction::I6XNN(2, 31)).unwrap(); // last row
    c8.execute_instruction(Instruction::IDXYN(1, 2, 2)).unwrap();
    let px = c8.display_snapshot();
    assert_eq!(px[31 * WIDTH], Pixel::ON);
    assert_eq!(px[0], Pixel::ON); // wrapped to row 0
}

#[test]
fn draw_out_of_bounds_sprite_data_errors() {
    let mut c8 = Chip8::new();
    c8.execute_instruction(Instruction::IANNN(0xFFE)).unwrap();
    let r = c8.execute_instruction(Instruction::IDXYN(0, 1, 5));
    assert_eq!(r, Err(Chip8Error::OutOfBounds));
    // Nothing changed.
    assert!(c8.display_snapshot().iter().all(|p| *p == Pixel::OFF));
}
