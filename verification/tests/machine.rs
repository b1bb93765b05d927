//! Machine-level tests: construction, ROM loading, the cycle driver, the
//! blocking key read, timers, and the diagnostic views.

use chip8::arithmetic::{check_borrow, check_carry, get_lsb, get_msb};
use chip8::chip8::{Chip8, Chip8Error, CycleEvent, RunEnd, MEM_SIZE};
use chip8::pixel::Pixel;

#[test]
fn new_machine_starts_at_program_start() {
    let c8 = Chip8::new();
    assert_eq!(c8.pc(), 0x200);
    assert_eq!(c8.stack_pointer(), 0);
    assert_eq!(c8.index_register(), 0);
    assert_eq!(c8.delay_timer(), 0);
    assert_eq!(c8.sound_timer(), 0);
    assert_eq!(c8.awaiting_key(), None);
    assert!(c8.register_dump().iter().all(|v| *v == 0));
    assert!(c8.display_snapshot().iter().all(|p| *p == Pixel::OFF));
}

#[test]
fn new_machine_has_fontset_installed() {
    let c8 = Chip8::new();
    let mem = c8.memory_dump(MEM_SIZE);
    // Glyph 0 occupies bytes 0..=4.
    assert_eq!(&mem[0..5], &[0xF0, 0x90, 0x90, 0x90, 0xF0]);
    // Glyph 1 occupies bytes 5..=9.
    assert_eq!(&mem[5..10], &[0x20, 0x60, 0x20, 0x20, 0x70]);
    // Glyph F ends the table at byte 79.
    assert_eq!(&mem[75..80], &[0xF0, 0x80, 0xF0, 0x80, 0x80]);
    // Everything after the fontset is zero.
    assert!(mem[80..].iter().all(|b| *b == 0));
}

#[test]
fn load_rom_copies_at_program_start() {
    let mut c8 = Chip8::new();
    c8.load_rom(&[0xAB, 0xCD, 0xEF]).unwrap();
    let mem = c8.memory_dump(0x210);
    assert_eq!(&mem[0x200..0x203], &[0xAB, 0xCD, 0xEF]);
    assert_eq!(mem[0x203], 0);
}

#[test]
fn load_rom_empty_and_largest() {
    let mut c8 = Chip8::new();
    assert_eq!(c8.load_rom(&[]), Ok(()));
    let exact = vec![7u8; MEM_SIZE - 0x200];
    assert_eq!(c8.load_rom(&exact), Ok(()));
    let mem = c8.memory_dump(MEM_SIZE);
    assert_eq!(mem[MEM_SIZE - 1], 7);
}

#[test]
fn load_rom_too_long_errors_and_changes_nothing() {
    let mut c8 = Chip8::new();
    let too_long = vec![7u8; MEM_SIZE - 0x200 + 1];
    assert_eq!(c8.load_rom(&too_long), Err(Chip8Error::OutOfBounds));
    let mem = c8.memory_dump(MEM_SIZE);
    assert!(mem[0x200..].iter().all(|b| *b == 0));
}

#[test]
fn cycle_executes_jump_without_extra_advance() {
    let mut c8 = Chip8::new();
    c8.load_rom(&[0x12, 0x34]).unwrap(); // 1NNN: jump to 0x234
    assert_eq!(c8.cycle(), Ok(CycleEvent::Stepped));
    assert_eq!(c8.pc(), 0x234); // exactly NNN, no auto-advance
}

#[test]
fn cycle_advances_pc_one_width_otherwise() {
    let mut c8 = Chip8::new();
    c8.load_rom(&[0x61, 0x42]).unwrap(); // 6XNN: V1 = 0x42
    assert_eq!(c8.cycle(), Ok(CycleEvent::Stepped));
    assert_eq!(c8.pc(), 0x202);
    assert_eq!(c8.register_dump()[1], 0x42);
}

#[test]
fn cycle_reports_decode_failure_and_ticks_timers_only() {
    let mut c8 = Chip8::new();
    // Memory at the program start is zero: opcode 0x0000 is unsupported.
    let r = c8.cycle();
    assert!(matches!(r, Err(Chip8Error::Unsupported(_))));
    assert_eq!(c8.pc(), 0x200); // nothing but the timers moved
}

#[test]
fn timers_decrement_once_per_cycle_and_stop_at_zero() {
    let mut c8 = Chip8::new();
    // Program: V1 = 3; delay = V1; then an unsupported opcode.
    c8.load_rom(&[0x61, 0x03, 0xF1, 0x15]).unwrap();
    c8.cycle().unwrap();
    c8.cycle().unwrap();
    assert_eq!(c8.delay_timer(), 3);
    let _ = c8.cycle(); // unsupported, but timers tick
    assert_eq!(c8.delay_timer(), 2);
    let _ = c8.cycle();
    let _ = c8.cycle();
    assert_eq!(c8.delay_timer(), 0);
    let _ = c8.cycle();
    assert_eq!(c8.delay_timer(), 0); // a zero timer stays zero
    assert_eq!(c8.sound_timer(), 0);
}

#[test]
fn blocking_key_read_waits_then_resumes() {
    let mut c8 = Chip8::new();
    c8.load_rom(&[0xF1, 0x0A, 0x62, 0x07]).unwrap(); // F10A; 62 07
    assert_eq!(c8.cycle(), Ok(CycleEvent::AwaitingKey));
    assert_eq!(c8.awaiting_key(), Some(1));
    assert_eq!(c8.pc(), 0x200); // suspended on the read instruction
    assert_eq!(c8.cycle(), Ok(CycleEvent::AwaitingKey)); // still no key
    c8.observe_key(Some(0xB));
    assert_eq!(c8.cycle(), Ok(CycleEvent::Stepped));
    assert_eq!(c8.register_dump()[1], 0xB);
    assert_eq!(c8.awaiting_key(), None);
    assert_eq!(c8.pc(), 0x202); // resumed past the read
    assert_eq!(c8.cycle(), Ok(CycleEvent::Stepped));
    assert_eq!(c8.register_dump()[2], 7);
}

#[test]
fn blocking_key_read_completes_immediately_with_key_observed() {
    let mut c8 = Chip8::new();
    c8.load_rom(&[0xF1, 0x0A]).unwrap();
    c8.observe_key(Some(3));
    assert_eq!(c8.cycle(), Ok(CycleEvent::Stepped));
    assert_eq!(c8.register_dump()[1], 3);
    assert_eq!(c8.awaiting_key(), None);
}

#[test]
fn cycle_halts_when_fetch_leaves_memory() {
    let mut c8 = Chip8::new();
    c8.load_rom(&[0x1F, 0xFF]).unwrap(); // jump to 0xFFF
    assert_eq!(c8.cycle(), Ok(CycleEvent::Stepped));
    assert_eq!(c8.cycle(), Ok(CycleEvent::Halted)); // 0xFFF + 1 leaves memory
    assert_eq!(c8.pc(), 0xFFF);
}

#[test]
fn run_stops_at_halt() {
    let mut c8 = Chip8::new();
    c8.load_rom(&[0x1F, 0xFF]).unwrap();
    assert_eq!(c8.run(10), Ok(RunEnd::Halted));
}

#[test]
fn run_exhausts_cycles_on_a_loop() {
    let mut c8 = Chip8::new();
    c8.load_rom(&[0x12, 0x00]).unwrap(); // jump to the program start forever
    assert_eq!(c8.run(100), Ok(RunEnd::CyclesExhausted));
    assert_eq!(c8.pc(), 0x200);
}

#[test]
fn run_stops_awaiting_key() {
    let mut c8 = Chip8::new();
    c8.load_rom(&[0xF1, 0x0A]).unwrap();
    assert_eq!(c8.run(10), Ok(RunEnd::AwaitingKey));
    assert_eq!(c8.awaiting_key(), Some(1));
}

#[test]
fn run_surfaces_errors() {
    let mut c8 = Chip8::new();
    assert!(matches!(c8.run(10), Err(Chip8Error::Unsupported(_))));
}

#[test]
fn keypad_state_is_set_and_cleared() {
    let mut c8 = Chip8::new();
    c8.set_key(5, true);
    c8.set_key(5, false);
    c8.observe_key(Some(5));
    c8.observe_key(None);
    c8.init_keys();
    assert_eq!(c8.awaiting_key(), None);
}

#[test]
fn memory_dump_returns_prefix() {
    let c8 = Chip8::new();
    let mem = c8.memory_dump(5);
    assert_eq!(mem, vec![0xF0, 0x90, 0x90, 0x90, 0xF0]);
    assert_eq!(c8.memory_dump(0), Vec::<u8>::new());
}

#[test]
fn pixel_bit_values() {
    assert_eq!(Pixel::ON.bit(), 1);
    assert_eq!(Pixel::OFF.bit(), 0);
}

#[test]
fn arithmetic_helpers() {
    assert_eq!(check_carry(&200, &100), 1);
    assert_eq!(check_carry(&200, &55), 0);
    assert_eq!(check_borrow(&5, &5), 1);
    assert_eq!(check_borrow(&4, &5), 0);
    assert_eq!(get_lsb(&0b1010_0101), 1);
    assert_eq!(get_lsb(&0b1010_0100), 0);
    assert_eq!(get_msb(&0b1010_0101), 1);
    assert_eq!(get_msb(&0b0010_0101), 0);
}
