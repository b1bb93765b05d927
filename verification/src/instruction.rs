//! The typed instruction set and the decoder.
//!
//! A raw 16-bit opcode is partitioned into fixed fields: `addr` (the low 12
//! bits), `x` and `y` (the second and third nibbles, naming registers), a low
//! byte, and a low nibble.  The high nibble selects an instruction family;
//! families `0x8`, `0xE` and `0xF` dispatch further on the low byte or nibble.
//! Every opcode decodes to something: anything that matches no known pattern
//! becomes [`Instruction::UNSUPPORTED`], never a panic.

use vstd::prelude::*;

verus! {

/// Error value for the executor's report that an unsupported opcode was
/// reached.
#[derive(Clone, Copy, Debug, PartialEq, Eq, Structural)]
pub struct ErrUnsupportedInstruction;

/// One decoded instruction.  Variant names follow the opcode patterns:
/// `NNN` is a 12-bit address, `X`/`Y` are register indices, `NN` an
/// immediate byte, and the final `N` of `DXYN` a sprite height.
#[derive(Clone, Copy, Debug, PartialEq, Eq, Structural)]
#[allow(non_camel_case_types)]
pub enum Instruction {
    /// `0NNN`: machine-code routine; accepted by the executor as a no-op.
    I0NNN(u16),
    /// `00E0`: clear the screen.
    I00E0,
    /// `00EE`: return from a subroutine.
    I00EE,
    /// `1NNN`: jump to `NNN`.
    I1NNN(u16),
    /// `2NNN`: call the subroutine at `NNN`.
    I2NNN(u16),
    /// `3XNN`: skip the next instruction if `Vx == NN`.
    I3XNN(usize, u8),
    /// `4XNN`: skip the next instruction if `Vx != NN`.
    I4XNN(usize, u8),
    /// `5XY0`: skip the next instruction if `Vx == Vy`.
    I5XY0(usize, usize),
    /// `6XNN`: `Vx = NN`.
    I6XNN(usize, u8),
    /// `7XNN`: `Vx = Vx + NN` (mod 256, no flag).
    I7XNN(usize, u8),
    /// `8XY0`: `Vx = Vy`.
    I8XY0(usize, usize),
    /// `8XY1`: `Vx = Vx | Vy`.
    I8XY1(usize, usize),
    /// `8XY2`: `Vx = Vx & Vy`.
    I8XY2(usize, usize),
    /// `8XY3`: `Vx = Vx ^ Vy`.
    I8XY3(usize, usize),
    /// `8XY4`: add with carry flag.
    I8XY4(usize, usize),
    /// `8XY5`: subtract with not-borrow flag.
    I8XY5(usize, usize),
    /// `8XY6`: shift right; flag takes the bit shifted out.
    I8XY6(usize, usize),
    /// `8XY7`: reverse subtract with not-borrow flag.
    I8XY7(usize, usize),
    /// `8XYE`: shift left; flag takes the bit shifted out.
    I8XYE(usize, usize),
    /// `9XY0`: skip the next instruction if `Vx != Vy`.
    I9XY0(usize, usize),
    /// `ANNN`: `I = NNN`.
    IANNN(u16),
    /// `BNNN`: jump to `NNN + V0`.
    IBNNN(u16),
    /// `CXNN`: `Vx = random byte & NN`.
    ICXNN(usize, u8),
    /// `DXYN`: draw the 8-by-`N` sprite at `(Vx, Vy)`.
    IDXYN(usize, usize, u8),
    /// `EX9E`: skip the next instruction if the observed key equals `Vx`.
    IEX9E(usize),
    /// `EXA1`: skip the next instruction if a key is observed and differs
    /// from `Vx`.
    IEXA1(usize),
    /// `FX07`: `Vx = delay timer`.
    IFX07(usize),
    /// `FX0A`: block until a key is observed, then store it in `Vx`.
    IFX0A(usize),
    /// `FX15`: `delay timer = Vx`.
    IFX15(usize),
    /// `FX18`: `sound timer = Vx`.
    IFX18(usize),
    /// `FX1E`: `I = I + Vx` (mod 65536, no flag).
    IFX1E(usize),
    /// `FX29`: `I` = address of the glyph for the low nibble of `Vx`.
    IFX29(usize),
    /// `FX33`: store the decimal digits of `Vx` at `I`, `I+1`, `I+2`.
    IFX33(usize),
    /// `FX55`: copy `V0..=Vx` to memory at `I`; `I` advances by `x + 1`.
    IFX55(usize),
    /// `FX65`: load `V0..=Vx` from memory at `I`; `I` advances by `x + 1`.
    IFX65(usize),
    /// No known pattern matched the opcode.
    UNSUPPORTED,
}

/// What each decoded instruction guarantees about its fields: addresses are
/// 12-bit, register indices are nibbles, the sprite height is a nibble.
pub open spec fn instr_wf(i: Instruction) -> bool {
    match i {
        Instruction::I0NNN(a) => a <= 0xFFF,
        Instruction::I00E0 => true,
        Instruction::I00EE => true,
        Instruction::I1NNN(a) => a <= 0xFFF,
        Instruction::I2NNN(a) => a <= 0xFFF,
        Instruction::I3XNN(x, _) => x < 16,
        Instruction::I4XNN(x, _) => x < 16,
        Instruction::I5XY0(x, y) => x < 16 && y < 16,
        Instruction::I6XNN(x, _) => x < 16,
        Instruction::I7XNN(x, _) => x < 16,
        Instruction::I8XY0(x, y) => x < 16 && y < 16,
        Instruction::I8XY1(x, y) => x < 16 && y < 16,
        Instruction::I8XY2(x, y) => x < 16 && y < 16,
        Instruction::I8XY3(x, y) => x < 16 && y < 16,
        Instruction::I8XY4(x, y) => x < 16 && y < 16,
        Instruction::I8XY5(x, y) => x < 16 && y < 16,
        Instruction::I8XY6(x, y) => x < 16 && y < 16,
        Instruction::I8XY7(x, y) => x < 16 && y < 16,
        Instruction::I8XYE(x, y) => x < 16 && y < 16,
        Instruction::I9XY0(x, y) => x < 16 && y < 16,
        Instruction::IANNN(a) => a <= 0xFFF,
        Instruction::IBNNN(a) => a <= 0xFFF,
        Instruction::ICXNN(x, _) => x < 16,
        Instruction::IDXYN(x, y, n) => x < 16 && y < 16 && n <= 15,
        Instruction::IEX9E(x) => x < 16,
        Instruction::IEXA1(x) => x < 16,
        Instruction::IFX07(x) => x < 16,
        Instruction::IFX0A(x) => x < 16,
        Instruction::IFX15(x) => x < 16,
        Instruction::IFX18(x) => x < 16,
        Instruction::IFX1E(x) => x < 16,
        Instruction::IFX29(x) => x < 16,
        Instruction::IFX33(x) => x < 16,
        Instruction::IFX55(x) => x < 16,
        Instruction::IFX65(x) => x < 16,
        Instruction::UNSUPPORTED => true,
    }
}

/// The decode table as a mathematical function of the raw opcode.
pub open spec fn decode_of(op: u16) -> Instruction {
    let a = (op & 0x0FFF) as u16;
    let x = ((op >> 8) & 0xF) as usize;
    let y = ((op >> 4) & 0xF) as usize;
    let nn = (op & 0x00FF) as u8;
    let n = (op & 0x000F) as u8;
    let family = op & 0xF000;
    if family == 0x0000 {
        if op == 0x00E0 {
            Instruction::I00E0
        } else if op == 0x00EE {
            Instruction::I00EE
        } else {
            Instruction::UNSUPPORTED
        }
    } else if family == 0x1000 {
        Instruction::I1NNN(a)
    } else if family == 0x2000 {
        Instruction::I2NNN(a)
    } else if family == 0x3000 {
        Instruction::I3XNN(x, nn)
    } else if family == 0x4000 {
        Instruction::I4XNN(x, nn)
    } else if family == 0x5000 {
        if n == 0 {
            Instruction::I5XY0(x, y)
        } else {
            Instruction::UNSUPPORTED
        }
    } else if family == 0x6000 {
        Instruction::I6XNN(x, nn)
    } else if family == 0x7000 {
        Instruction::I7XNN(x, nn)
    } else if family == 0x8000 {
        if n == 0x0 {
            Instruction::I8XY0(x, y)
        } else if n == 0x1 {
            Instruction::I8XY1(x, y)
        } else if n == 0x2 {
            Instruction::I8XY2(x, y)
        } else if n == 0x3 {
            Instruction::I8XY3(x, y)
        } else if n == 0x4 {
            Instruction::I8XY4(x, y)
        } else if n == 0x5 {
            Instruction::I8XY5(x, y)
        } else if n == 0x6 {
            Instruction::I8XY6(x, y)
        } else if n == 0x7 {
            Instruction::I8XY7(x, y)
        } else if n == 0xE {
            Instruction::I8XYE(x, y)
        } else {
            Instruction::UNSUPPORTED
        }
    } else if family == 0x9000 {
        if n == 0 {
            Instruction::I9XY0(x, y)
        } else {
            Instruction::UNSUPPORTED
        }
    } else if family == 0xA000 {
        Instruction::IANNN(a)
    } else if family == 0xB000 {
        Instruction::IBNNN(a)
    } else if family == 0xC000 {
        Instruction::ICXNN(x, nn)
    } else if family == 0xD000 {
        Instruction::IDXYN(x, y, n)
    } else if family == 0xE000 {
        if nn == 0x9E {
            Instruction::IEX9E(x)
        } else if nn == 0xA1 {
            Instruction::IEXA1(x)
        } else {
            Instruction::UNSUPPORTED
        }
    } else {
        // family == 0xF000
        if nn == 0x07 {
            Instruction::IFX07(x)
        } else if nn == 0x0A {
            Instruction::IFX0A(x)
        } else if nn == 0x15 {
            Instruction::IFX15(x)
        } else if nn == 0x18 {
            Instruction::IFX18(x)
        } else if nn == 0x1E {
            Instruction::IFX1E(x)
        } else if nn == 0x29 {
            Instruction::IFX29(x)
        } else if nn == 0x33 {
            Instruction::IFX33(x)
        } else if nn == 0x55 {
            Instruction::IFX55(x)
        } else if nn == 0x65 {
            Instruction::IFX65(x)
        } else {
            Instruction::UNSUPPORTED
        }
    }
}

/// Every decoded instruction has well-formed fields.
pub proof fn lemma_decode_wf(op: u16)
    ensures
        instr_wf(decode_of(op)),
{
    assert((op & 0x0FFF) <= 0xFFF) by (bit_vector);
    assert(((op >> 8) & 0xF) < 16) by (bit_vector);
    assert(((op >> 4) & 0xF) < 16) by (bit_vector);
    assert((op & 0x000F) <= 15) by (bit_vector);
}

impl Instruction {
    /// Maps an opcode, pre-split into its fixed fields, to the typed
    /// instruction it denotes.  Total: unknown patterns yield
    /// [`Instruction::UNSUPPORTED`].
    pub fn get_instr_from_parts(opcode: u16, jmp: u16, x: usize, y: usize, nn: u16) -> (r:
        Instruction)
        requires
            jmp == opcode & 0x0FFF,
            x == (opcode >> 8) & 0xF,
            y == (opcode >> 4) & 0xF,
            nn == opcode & 0x00FF,
        ensures
            r == decode_of(opcode),
            instr_wf(r),
    {
        proof {
            lemma_decode_wf(opcode);
            assert(opcode & 0x00FF < 256) by (bit_vector);
            assert((opcode & 0x000F) == ((opcode & 0x00FF) & 0xF)) by (bit_vector);
        }
        let n: u8 = (nn as u8) & 0xF;
        let nn8: u8 = nn as u8;
        let family: u16 = opcode & 0xF000;
        if family == 0x0000 {
            if opcode == 0x00E0 {
                Instruction::I00E0
            } else if opcode == 0x00EE {
                Instruction::I00EE
            } else {
                Instruction::UNSUPPORTED
            }
        } else if family == 0x1000 {
            Instruction::I1NNN(jmp)
        } else if family == 0x2000 {
            Instruction::I2NNN(jmp)
        } else if family == 0x3000 {
            Instruction::I3XNN(x, nn8)
        } else if family == 0x4000 {
            Instruction::I4XNN(x, nn8)
        } else if family == 0x5000 {
            if n == 0 {
                Instruction::I5XY0(x, y)
            } else {
                Instruction::UNSUPPORTED
            }
        } else if family == 0x6000 {
            Instruction::I6XNN(x, nn8)
        } else if family == 0x7000 {
            Instruction::I7XNN(x, nn8)
        } else if family == 0x8000 {
            if n == 0x0 {
                Instruction::I8XY0(x, y)
            } else if n == 0x1 {
                Instruction::I8XY1(x, y)
            } else if n == 0x2 {
                Instruction::I8XY2(x, y)
            } else if n == 0x3 {
                Instruction::I8XY3(x, y)
            } else if n == 0x4 {
                Instruction::I8XY4(x, y)
            } else if n == 0x5 {
                Instruction::I8XY5(x, y)
            } else if n == 0x6 {
                Instruction::I8XY6(x, y)
            } else if n == 0x7 {
                Instruction::I8XY7(x, y)
            } else if n == 0xE {
                Instruction::I8XYE(x, y)
            } else {
                Instruction::UNSUPPORTED
            }
        } else if family == 0x9000 {
            if n == 0 {
                Instruction::I9XY0(x, y)
            } else {
                Instruction::UNSUPPORTED
            }
        } else if family == 0xA000 {
            Instruction::IANNN(jmp)
        } else if family == 0xB000 {
            Instruction::IBNNN(jmp)
        } else if family == 0xC000 {
            Instruction::ICXNN(x, nn8)
        } else if family == 0xD000 {
            Instruction::IDXYN(x, y, n)
        } else if family == 0xE000 {
            if nn8 == 0x9E {
                Instruction::IEX9E(x)
            } else if nn8 == 0xA1 {
                Instruction::IEXA1(x)
            } else {
                Instruction::UNSUPPORTED
            }
        } else {
            if nn8 == 0x07 {
                Instruction::IFX07(x)
            } else if nn8 == 0x0A {
                Instruction::IFX0A(x)
            } else if nn8 == 0x15 {
                Instruction::IFX15(x)
            } else if nn8 == 0x18 {
                Instruction::IFX18(x)
            } else if nn8 == 0x1E {
                Instruction::IFX1E(x)
            } else if nn8 == 0x29 {
                Instruction::IFX29(x)
            } else if nn8 == 0x33 {
                Instruction::IFX33(x)
            } else if nn8 == 0x55 {
                Instruction::IFX55(x)
            } else if nn8 == 0x65 {
                Instruction::IFX65(x)
            } else {
                Instruction::UNSUPPORTED
            }
        }
    }
}

} // verus!
