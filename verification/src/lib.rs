//! A verified CHIP-8 virtual-machine core: memory, registers, stack, timers,
//! keypad and framebuffer, driven by a fetch-decode-execute cycle over the
//! 35-instruction opcode set.

pub mod arithmetic;
pub mod assembler;
pub mod chip8;
pub mod exec;
pub mod instruction;
pub mod laws;
pub mod pixel;
