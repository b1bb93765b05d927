//! The executor and the cycle driver.
//!
//! [`spec_step`] is the semantics of the instruction set: a mathematical
//! function from a machine view, an instruction and a random byte to the
//! next view and an outcome.  [`Chip8::execute_instruction`] implements it.
//! [`spec_cycle`] is one driver pass — timer tick, suspension check, fetch,
//! decode, execute, program-counter advance — implemented by
//! [`Chip8::cycle`]; [`Chip8::run`] iterates it.
//!
//! Flag-register ordering is explicit throughout: every arithmetic
//! instruction computes its flag and result from the pre-instruction
//! operand values, stores the flag into `VF`, and then stores the result,
//! so a destination that is `VF` itself receives the result.

use vstd::arithmetic::div_mod::{
    lemma_add_mod_noop,
    lemma_fundamental_div_mod,
    lemma_fundamental_div_mod_converse,
    lemma_mod_multiples_vanish,
    lemma_small_mod,
};
use vstd::prelude::*;

use rand::Rng;

use crate::chip8::{
    Chip8,
    Chip8Error,
    CycleEvent,
    MachineView,
    Outcome,
    RunEnd,
    FLAG,
    GLYPH_SIZE,
    HEIGHT,
    MEM_SIZE,
    N_PIXELS,
    N_REGISTERS,
    PC_FETCH_MAX,
    STACK_DEPTH,
    WIDTH,
};
use crate::instruction::{decode_of, instr_wf, ErrUnsupportedInstruction, Instruction};
use crate::pixel::Pixel;

verus! {

/// One timer tick: a positive counter decrements, a zero counter stays
/// zero; a timer never goes negative.
pub open spec fn tick8(t: u8) -> u8 {
    if t > 0 {
        (t - 1) as u8
    } else {
        0u8
    }
}

/// 8-bit modular addition.
pub open spec fn wrap_add8(a: u8, b: u8) -> u8 {
    ((a + b) % 256) as u8
}

/// 8-bit modular subtraction.
pub open spec fn wrap_sub8(a: u8, b: u8) -> u8 {
    ((a - b + 256) % 256) as u8
}

/// The carry flag of `a + b`: 1 exactly when the sum leaves 8 bits.
pub open spec fn carry_flag(a: u8, b: u8) -> u8 {
    if a + b > 255 {
        1u8
    } else {
        0u8
    }
}

/// The not-borrow flag of `a - b`: 1 exactly when `a >= b`.
pub open spec fn not_borrow_flag(a: u8, b: u8) -> u8 {
    if a >= b {
        1u8
    } else {
        0u8
    }
}

/// Whether sprite-row byte `byte` has its bit for column offset `c` set
/// (bit 7 is the leftmost pixel of the row).
pub open spec fn sprite_bit(byte: u8, c: int) -> bool {
    (byte >> ((7 - c) as u8)) & 1 == 1
}

/// Wraps a coordinate difference back into `[0, mdl)`: the sprite-cell
/// offset whose wrapped target is `t` when the sprite origin is `off`.
pub open spec fn wrap_back(t: int, off: int, mdl: int) -> int {
    (t - off + mdl) % mdl
}

/// The framebuffer row hit by sprite row `r` drawn at origin row `ypos`:
/// coordinates wrap modulo the screen height.
pub open spec fn target_row(ypos: u8, r: int) -> int {
    (ypos + r) % (HEIGHT as int)
}

/// The framebuffer column hit by sprite column `c` drawn at origin column
/// `xpos`: coordinates wrap modulo the screen width.
pub open spec fn target_col(xpos: u8, c: int) -> int {
    (xpos + c) % (WIDTH as int)
}

/// The framebuffer index hit by sprite cell `(r, c)`.
pub open spec fn target_index(xpos: u8, ypos: u8, r: int, c: int) -> int {
    target_row(ypos, r) * (WIDTH as int) + target_col(xpos, c)
}

/// The sprite row offset whose target is framebuffer index `p`.
pub open spec fn cell_row_of(ypos: u8, p: int) -> int {
    wrap_back(p / (WIDTH as int), (ypos as int) % (HEIGHT as int), HEIGHT as int)
}

/// The sprite column offset whose target is framebuffer index `p`.
pub open spec fn cell_col_of(xpos: u8, p: int) -> int {
    wrap_back(p % (WIDTH as int), (xpos as int) % (WIDTH as int), WIDTH as int)
}

/// Whether the draw of the 8-by-`n` sprite at `(xpos, ypos)` writes an ON
/// sprite bit onto framebuffer index `p`.
pub open spec fn draw_covers(m: MachineView, xpos: u8, ypos: u8, n: u8, p: int) -> bool {
    let r = cell_row_of(ypos, p);
    let c = cell_col_of(xpos, p);
    r < n && c < 8 && sprite_bit(m.memory[m.i + r], c)
}

/// The framebuffer after the draw: every covered cell flips (XOR
/// composition), every other cell is untouched.
pub open spec fn draw_pixels(m: MachineView, xpos: u8, ypos: u8, n: u8) -> Seq<Pixel> {
    Seq::new(
        m.pixels.len(),
        |p: int|
            if draw_covers(m, xpos, ypos, n, p) {
                m.pixels[p].spec_flip()
            } else {
                m.pixels[p]
            },
    )
}

/// Whether the draw turns some pixel from ON to OFF — judged against the
/// pre-draw framebuffer.
pub open spec fn draw_collision(m: MachineView, xpos: u8, ypos: u8, n: u8) -> bool {
    exists|p: int|
        0 <= p < m.pixels.len() && draw_covers(m, xpos, ypos, n, p) && m.pixels[p] is ON
}

/// The semantics of `DXYN`: reading `n` sprite bytes at `I` must stay in
/// memory, every covered pixel flips, and `VF` reports whether any pixel
/// went from ON to OFF.
pub open spec fn spec_draw(m: MachineView, x: usize, y: usize, n: u8) -> (MachineView, Result<
    Outcome,
    Chip8Error,
>) {
    if m.i + n > MEM_SIZE {
        (m, Err(Chip8Error::OutOfBounds))
    } else {
        let xpos = m.v[x as int];
        let ypos = m.v[y as int];
        let flag: u8 = if draw_collision(m, xpos, ypos, n) {
            1u8
        } else {
            0u8
        };
        (
            MachineView {
                pixels: draw_pixels(m, xpos, ypos, n),
                v: m.v.update(FLAG as int, flag),
                ..m
            },
            Ok(Outcome::Normal),
        )
    }
}

/// The machine with the next instruction skipped when `cond` holds.
pub open spec fn skip_if(m: MachineView, cond: bool) -> MachineView {
    if cond {
        MachineView { pc: (m.pc + 2) as u16, ..m }
    } else {
        m
    }
}

/// The machine with register `x` set to `val`.
pub open spec fn with_reg(m: MachineView, x: usize, val: u8) -> MachineView {
    MachineView { v: m.v.update(x as int, val), ..m }
}

/// The machine after a flag-producing register operation: the flag is
/// stored into `VF` first, then the result into `Vx`, so when `x` is the
/// flag register the result wins.
pub open spec fn with_flag_then_reg(m: MachineView, x: usize, flag: u8, res: u8) -> MachineView {
    MachineView { v: m.v.update(FLAG as int, flag).update(x as int, res), ..m }
}

/// The semantics of `FX33`: the decimal digits of `Vx` go to memory at
/// `I`, `I+1`, `I+2`, which must all lie in memory.
pub open spec fn spec_bcd(m: MachineView, x: usize) -> (MachineView, Result<Outcome, Chip8Error>) {
    if m.i + 2 >= MEM_SIZE {
        (m, Err(Chip8Error::OutOfBounds))
    } else {
        let vx = m.v[x as int];
        (
            MachineView {
                memory: m.memory.update(m.i as int, (vx / 100) as u8).update(
                    m.i + 1,
                    ((vx / 10) % 10) as u8,
                ).update(m.i + 2, (vx % 10) as u8),
                ..m
            },
            Ok(Outcome::Normal),
        )
    }
}

/// The semantics of `FX55`: registers `V0..=Vx` go to memory at
/// `I ..= I+x`, which must lie in memory; `I` advances by `x + 1`.
pub open spec fn spec_dump(m: MachineView, x: usize) -> (MachineView, Result<Outcome, Chip8Error>) {
    if m.i + x >= MEM_SIZE {
        (m, Err(Chip8Error::OutOfBounds))
    } else {
        (
            MachineView {
                memory: Seq::new(
                    m.memory.len(),
                    |j: int|
                        if m.i <= j <= m.i + x {
                            m.v[j - m.i]
                        } else {
                            m.memory[j]
                        },
                ),
                i: (m.i + x + 1) as u16,
                ..m
            },
            Ok(Outcome::Normal),
        )
    }
}

/// The semantics of `FX65`: registers `V0..=Vx` are loaded from memory at
/// `I ..= I+x`, which must lie in memory; `I` advances by `x + 1`.
pub open spec fn spec_load(m: MachineView, x: usize) -> (MachineView, Result<Outcome, Chip8Error>) {
    if m.i + x >= MEM_SIZE {
        (m, Err(Chip8Error::OutOfBounds))
    } else {
        (
            MachineView {
                v: Seq::new(
                    m.v.len(),
                    |j: int|
                        if 0 <= j <= x {
                            m.memory[m.i + j]
                        } else {
                            m.v[j]
                        },
                ),
                i: (m.i + x + 1) as u16,
                ..m
            },
            Ok(Outcome::Normal),
        )
    }
}

/// The semantics of one instruction: from the machine `m` and the random
/// byte `rand` (consulted only by `CXNN`) to the next machine and the
/// outcome.  An error leaves the machine unchanged.  `2NNN` pushes the
/// address of the call instruction itself; `00EE` pops it and reports a
/// driver advance, so execution resumes just past the call.
pub open spec fn spec_step(m: MachineView, instr: Instruction, rand: u8) -> (MachineView, Result<
    Outcome,
    Chip8Error,
>) {
    match instr {
        Instruction::I0NNN(_) => (m, Ok(Outcome::Normal)),
        Instruction::I00E0 => (
            MachineView { pixels: Seq::new(m.pixels.len(), |p: int| Pixel::OFF), ..m },
            Ok(Outcome::Normal),
        ),
        Instruction::I00EE => if m.sp == 0 {
            (m, Err(Chip8Error::StackUnderflow))
        } else {
            (
                MachineView { sp: (m.sp - 1) as u8, pc: m.stack[m.sp - 1], ..m },
                Ok(Outcome::Normal),
            )
        },
        Instruction::I1NNN(a) => (MachineView { pc: a, ..m }, Ok(Outcome::Jumped)),
        Instruction::I2NNN(a) => if m.sp >= STACK_DEPTH {
            (m, Err(Chip8Error::StackOverflow))
        } else {
            (
                MachineView {
                    stack: m.stack.update(m.sp as int, m.pc),
                    sp: (m.sp + 1) as u8,
                    pc: a,
                    ..m
                },
                Ok(Outcome::Jumped),
            )
        },
        Instruction::I3XNN(x, b) => (skip_if(m, m.v[x as int] == b), Ok(Outcome::Normal)),
        Instruction::I4XNN(x, b) => (skip_if(m, m.v[x as int] != b), Ok(Outcome::Normal)),
        Instruction::I5XY0(x, y) => (
            skip_if(m, m.v[x as int] == m.v[y as int]),
            Ok(Outcome::Normal),
        ),
        Instruction::I6XNN(x, b) => (with_reg(m, x, b), Ok(Outcome::Normal)),
        Instruction::I7XNN(x, b) => (
            with_reg(m, x, wrap_add8(m.v[x as int], b)),
            Ok(Outcome::Normal),
        ),
        Instruction::I8XY0(x, y) => (with_reg(m, x, m.v[y as int]), Ok(Outcome::Normal)),
        Instruction::I8XY1(x, y) => (
            with_reg(m, x, m.v[x as int] | m.v[y as int]),
            Ok(Outcome::Normal),
        ),
        Instruction::I8XY2(x, y) => (
            with_reg(m, x, m.v[x as int] & m.v[y as int]),
            Ok(Outcome::Normal),
        ),
        Instruction::I8XY3(x, y) => (
            with_reg(m, x, m.v[x as int] ^ m.v[y as int]),
            Ok(Outcome::Normal),
        ),
        Instruction::I8XY4(x, y) => (
            with_flag_then_reg(
                m,
                x,
                carry_flag(m.v[x as int], m.v[y as int]),
                wrap_add8(m.v[x as int], m.v[y as int]),
            ),
            Ok(Outcome::Normal),
        ),
        Instruction::I8XY5(x, y) => (
            with_flag_then_reg(
                m,
                x,
                not_borrow_flag(m.v[x as int], m.v[y as int]),
                wrap_sub8(m.v[x as int], m.v[y as int]),
            ),
            Ok(Outcome::Normal),
        ),
        Instruction::I8XY6(x, y) => (
            with_flag_then_reg(m, x, (m.v[y as int] % 2) as u8, (m.v[y as int] / 2) as u8),
            Ok(Outcome::Normal),
        ),
        Instruction::I8XY7(x, y) => (
            with_flag_then_reg(
                m,
                x,
                not_borrow_flag(m.v[y as int], m.v[x as int]),
                wrap_sub8(m.v[y as int], m.v[x as int]),
            ),
            Ok(Outcome::Normal),
        ),
        Instruction::I8XYE(x, y) => (
            with_flag_then_reg(
                m,
                x,
                (m.v[y as int] / 128) as u8,
                ((m.v[y as int] * 2) % 256) as u8,
            ),
            Ok(Outcome::Normal),
        ),
        Instruction::I9XY0(x, y) => (
            skip_if(m, m.v[x as int] != m.v[y as int]),
            Ok(Outcome::Normal),
        ),
        Instruction::IANNN(a) => (MachineView { i: a, ..m }, Ok(Outcome::Normal)),
        Instruction::IBNNN(a) => (
            MachineView { pc: (a + m.v[0]) as u16, ..m },
            Ok(Outcome::Jumped),
        ),
        Instruction::ICXNN(x, b) => (with_reg(m, x, rand & b), Ok(Outcome::Normal)),
        Instruction::IDXYN(x, y, n) => spec_draw(m, x, y, n),
        Instruction::IEX9E(x) => (
            skip_if(m, m.key matches Some(k) && m.v[x as int] == k),
            Ok(Outcome::Normal),
        ),
        Instruction::IEXA1(x) => (
            skip_if(m, m.key matches Some(k) && m.v[x as int] != k),
            Ok(Outcome::Normal),
        ),
        Instruction::IFX07(x) => (with_reg(m, x, m.delay_timer), Ok(Outcome::Normal)),
        Instruction::IFX0A(x) => match m.key {
            Some(k) => (with_reg(m, x, k), Ok(Outcome::Normal)),
            None => (MachineView { awaiting: Some(x), ..m }, Ok(Outcome::Waiting)),
        },
        Instruction::IFX15(x) => (
            MachineView { delay_timer: m.v[x as int], ..m },
            Ok(Outcome::Normal),
        ),
        Instruction::IFX18(x) => (
            MachineView { sound_timer: m.v[x as int], ..m },
            Ok(Outcome::Normal),
        ),
        Instruction::IFX1E(x) => (
            MachineView { i: ((m.i + m.v[x as int]) % 0x10000) as u16, ..m },
            Ok(Outcome::Normal),
        ),
        Instruction::IFX29(x) => (
            MachineView { i: ((m.v[x as int] % 16) * (GLYPH_SIZE as int)) as u16, ..m },
            Ok(Outcome::Normal),
        ),
        Instruction::IFX33(x) => spec_bcd(m, x),
        Instruction::IFX55(x) => spec_dump(m, x),
        Instruction::IFX65(x) => spec_load(m, x),
        Instruction::UNSUPPORTED => (
            m,
            Err(Chip8Error::Unsupported(ErrUnsupportedInstruction)),
        ),
    }
}

/// The machine with both timers ticked once.
pub open spec fn spec_tick(m: MachineView) -> MachineView {
    MachineView {
        delay_timer: tick8(m.delay_timer),
        sound_timer: tick8(m.sound_timer),
        ..m
    }
}

/// The semantics of one driver pass: tick the timers; if the machine is
/// suspended on a key read, either complete it (store the key, resume past
/// the read) or report it still waiting; otherwise fetch at `pc` (a fetch
/// address past the end of memory is program termination), decode, execute,
/// and advance the program counter by one instruction width unless the
/// instruction set it explicitly.  An execution error leaves everything
/// but the timers unchanged.
pub open spec fn spec_cycle(m: MachineView, rand: u8) -> (MachineView, Result<
    CycleEvent,
    Chip8Error,
>) {
    let t = spec_tick(m);
    match t.awaiting {
        Some(x) => match t.key {
            Some(k) => (
                MachineView {
                    v: t.v.update(x as int, k),
                    awaiting: None,
                    pc: (t.pc + 2) as u16,
                    ..t
                },
                Ok(CycleEvent::Stepped),
            ),
            None => (t, Ok(CycleEvent::AwaitingKey)),
        },
        None => if t.pc > PC_FETCH_MAX {
            (t, Ok(CycleEvent::Halted))
        } else {
            let op = (t.memory[t.pc as int] * 256 + t.memory[t.pc as int + 1]) as u16;
            let sr = spec_step(t, decode_of(op), rand);
            match sr.1 {
                Err(e) => (t, Err(e)),
                Ok(Outcome::Normal) => (
                    MachineView { pc: (sr.0.pc + 2) as u16, ..sr.0 },
                    Ok(CycleEvent::Stepped),
                ),
                Ok(Outcome::Jumped) => (sr.0, Ok(CycleEvent::Stepped)),
                Ok(Outcome::Waiting) => (sr.0, Ok(CycleEvent::AwaitingKey)),
            }
        },
    }
}

/// Relies on rand::thread_rng and rand::Rng::gen: one byte from the
/// thread-local generator.  Nothing is promised of its value.
#[verifier::external_body]
fn random_byte() -> u8 {
    rand::thread_rng().gen()
}

/// `s % m` for `s` already reduced below `2 * m`: subtract `m` at most
/// once.
proof fn lemma_mod_once(s: int, m: int)
    requires
        0 < m,
        0 <= s < 2 * m,
    ensures
        s % m == if s < m {
            s
        } else {
            s - m
        },
{
    if s < m {
        lemma_small_mod(s as nat, m as nat);
    } else {
        lemma_mod_multiples_vanish(1, s - m, m);
        lemma_small_mod((s - m) as nat, m as nat);
    }
}

/// Wrapping a cell offset and unwrapping it again is the identity:
/// `wrap_back` recovers the offset from the wrapped target coordinate.
proof fn lemma_wrap_unwrap(base: int, off: int, mdl: int)
    requires
        0 <= base,
        0 <= off < mdl,
        0 < mdl,
    ensures
        wrap_back((base + off) % mdl, base % mdl, mdl) == off,
{
    let o = base % mdl;
    lemma_small_mod(off as nat, mdl as nat);
    lemma_add_mod_noop(base, off, mdl);
    assert((base + off) % mdl == (o + off) % mdl);
    lemma_mod_once(o + off, mdl);
    let t = (base + off) % mdl;
    if o + off < mdl {
        assert(t == o + off);
        lemma_mod_multiples_vanish(1, off, mdl);
        lemma_small_mod(off as nat, mdl as nat);
        assert((t - o + mdl) % mdl == off);
    } else {
        assert(t == o + off - mdl);
        lemma_small_mod(off as nat, mdl as nat);
        assert((t - o + mdl) % mdl == off);
    }
}

/// Unwrapping a target coordinate and wrapping the recovered offset again
/// is the identity.
proof fn lemma_unwrap_wrap(base: int, t: int, mdl: int)
    requires
        0 <= base,
        0 <= t < mdl,
        0 < mdl,
    ensures
        (base + wrap_back(t, base % mdl, mdl)) % mdl == t,
{
    let o = base % mdl;
    lemma_mod_once(t - o + mdl, mdl);
    let w = wrap_back(t, o, mdl);
    assert(w == if t - o + mdl < mdl {
        t - o + mdl
    } else {
        t - o
    });
    lemma_add_mod_noop(base, w, mdl);
    lemma_small_mod(w as nat, mdl as nat);
    assert((base + w) % mdl == (o + w) % mdl);
    if o + w == t {
        lemma_small_mod(t as nat, mdl as nat);
    } else {
        assert(o + w == t + mdl);
        lemma_mod_multiples_vanish(1, t, mdl);
        lemma_small_mod(t as nat, mdl as nat);
    }
}

/// The wrapped target of sprite cell `(r, c)` lies in the framebuffer, its
/// inverse mapping recovers `(r, c)`, and no other framebuffer index maps
/// back to that cell.
pub proof fn lemma_target_cell(xpos: u8, ypos: u8, r: int, c: int)
    requires
        0 <= r < HEIGHT,
        0 <= c < WIDTH,
    ensures
        0 <= target_index(xpos, ypos, r, c) < N_PIXELS,
        cell_row_of(ypos, target_index(xpos, ypos, r, c)) == r,
        cell_col_of(xpos, target_index(xpos, ypos, r, c)) == c,
        forall|p: int|
            0 <= p < N_PIXELS && cell_row_of(ypos, p) == r && cell_col_of(xpos, p) == c ==> p
                == target_index(xpos, ypos, r, c),
{
    let h = HEIGHT as int;
    let w = WIDTH as int;
    let tr = target_row(ypos, r);
    let tc = target_col(xpos, c);
    lemma_mod_bound(ypos + r, h);
    lemma_mod_bound(xpos + c, w);
    let idx = tr * w + tc;
    assert(0 <= idx < N_PIXELS);
    lemma_fundamental_div_mod_converse(idx, w, tr, tc);
    assert(idx / w == tr && idx % w == tc);
    lemma_wrap_unwrap(ypos as int, r, h);
    lemma_wrap_unwrap(xpos as int, c, w);
    assert(cell_row_of(ypos, idx) == r);
    assert(cell_col_of(xpos, idx) == c);
    assert forall|p: int|
        0 <= p < N_PIXELS && cell_row_of(ypos, p) == r && cell_col_of(xpos, p) == c implies p
        == idx by {
        let prow = p / w;
        let pcol = p % w;
        lemma_fundamental_div_mod(p, w);
        assert(p == w * prow + pcol);
        assert(0 <= pcol < w);
        assert(0 <= prow < h);
        lemma_unwrap_wrap(ypos as int, prow, h);
        assert((ypos + cell_row_of(ypos, p)) % h == prow);
        assert(prow == tr);
        lemma_unwrap_wrap(xpos as int, pcol, w);
        assert((xpos + cell_col_of(xpos, p)) % w == pcol);
        assert(pcol == tc);
    }
}

/// A remainder by a positive modulus is nonnegative and below the modulus.
proof fn lemma_mod_bound(s: int, m: int)
    requires
        0 <= s,
        0 < m,
    ensures
        0 <= s % m < m,
{
    lemma_fundamental_div_mod(s, m);
}

/// The cells the draw loop has processed, in row-major order: `p` is
/// covered and its cell lies strictly before row `r`, column `c`.
spec fn drawn_upto(
    m: MachineView,
    xpos: u8,
    ypos: u8,
    n: u8,
    p: int,
    r: int,
    c: int,
) -> bool {
    let rr = cell_row_of(ypos, p);
    let cc = cell_col_of(xpos, p);
    draw_covers(m, xpos, ypos, n, p) && (rr < r || (rr == r && cc < c))
}

impl Chip8 {
    /// Skips the next instruction when `cond` holds.
    fn skip_if_cond(&mut self, cond: bool)
        requires
            old(self)@.pc + 2 <= u16::MAX,
        ensures
            final(self)@ == skip_if(old(self)@, cond),
    {
        if cond {
            self.pc = self.pc + 2;
        }
    }

    /// Stores `val` into register `x`.
    fn set_reg(&mut self, x: usize, val: u8)
        requires
            old(self)@.wf(),
            x < N_REGISTERS,
        ensures
            final(self)@ == with_reg(old(self)@, x, val),
    {
        self.v[x] = val;
    }

    /// Stores the flag into `VF`, then the result into register `x`; the
    /// flag must be computed from pre-instruction operand values before
    /// this call.
    fn set_flag_then_reg(&mut self, x: usize, flag: u8, res: u8)
        requires
            old(self)@.wf(),
            x < N_REGISTERS,
        ensures
            final(self)@ == with_flag_then_reg(old(self)@, x, flag, res),
    {
        self.v[FLAG] = flag;
        self.v[x] = res;
    }

    /// Clears the screen (`00E0`).
    fn exec_cls(&mut self)
        requires
            old(self)@.wf(),
        ensures
            final(self)@ == (MachineView {
                pixels: Seq::new(old(self)@.pixels.len(), |p: int| Pixel::OFF),
                ..old(self)@
            }),
    {
        let mut idx: usize = 0;
        while idx < N_PIXELS
            invariant
                old(self)@.wf(),
                idx <= N_PIXELS,
                self@ == (MachineView { pixels: self@.pixels, ..old(self)@ }),
                self@.pixels.len() == N_PIXELS,
                forall|p: int| 0 <= p < idx ==> self@.pixels[p] == Pixel::OFF,
                forall|p: int| idx <= p < N_PIXELS ==> self@.pixels[p] == old(self)@.pixels[p],
            decreases N_PIXELS - idx,
        {
            self.pixels[idx] = Pixel::OFF;
            idx = idx + 1;
        }
        proof {
            assert(self@.pixels =~= Seq::new(old(self)@.pixels.len(), |p: int| Pixel::OFF));
            assert(self@ =~= (MachineView {
                pixels: Seq::new(old(self)@.pixels.len(), |p: int| Pixel::OFF),
                ..old(self)@
            }));
        }
    }

    /// Returns from a subroutine (`00EE`): pops the stack into the program
    /// counter; an empty stack is a stack-underflow error.
    fn exec_ret(&mut self) -> (r: Result<Outcome, Chip8Error>)
        requires
            old(self)@.wf(),
        ensures
            (final(self)@, r) == (spec_step(old(self)@, Instruction::I00EE, 0)),
    {
        if self.sp == 0 {
            return Err(Chip8Error::StackUnderflow);
        }
        self.sp = self.sp - 1;
        self.pc = self.stack[self.sp as usize];
        Ok(Outcome::Normal)
    }

    /// Calls the subroutine at `a` (`2NNN`): pushes the current program
    /// counter and jumps; a full stack is a stack-overflow error.
    fn exec_call(&mut self, a: u16) -> (r: Result<Outcome, Chip8Error>)
        requires
            old(self)@.wf(),
        ensures
            (final(self)@, r) == (spec_step(old(self)@, Instruction::I2NNN(a), 0)),
    {
        if self.sp as usize >= STACK_DEPTH {
            return Err(Chip8Error::StackOverflow);
        }
        self.stack[self.sp as usize] = self.pc;
        self.sp = self.sp + 1;
        self.pc = a;
        Ok(Outcome::Jumped)
    }

    /// Stores the decimal digits of `Vx` (`FX33`).
    fn exec_bcd(&mut self, x: usize) -> (r: Result<Outcome, Chip8Error>)
        requires
            old(self)@.wf(),
            x < N_REGISTERS,
        ensures
            (final(self)@, r) == spec_bcd(old(self)@, x),
    {
        if self.i as usize + 2 >= MEM_SIZE {
            return Err(Chip8Error::OutOfBounds);
        }
        let vx = self.v[x];
        let base = self.i as usize;
        self.memory[base] = vx / 100;
        self.memory[base + 1] = (vx / 10) % 10;
        self.memory[base + 2] = vx % 10;
        Ok(Outcome::Normal)
    }

    /// Copies `V0..=Vx` to memory at `I` (`FX55`).
    fn exec_dump(&mut self, x: usize) -> (r: Result<Outcome, Chip8Error>)
        requires
            old(self)@.wf(),
            x < N_REGISTERS,
        ensures
            (final(self)@, r) == spec_dump(old(self)@, x),
    {
        if self.i as usize + x >= MEM_SIZE {
            return Err(Chip8Error::OutOfBounds);
        }
        let base = self.i as usize;
        let mut j: usize = 0;
        while j <= x
            invariant
                old(self)@.wf(),
                x < N_REGISTERS,
                base == old(self)@.i,
                base + x < MEM_SIZE,
                j <= x + 1,
                self@ == (MachineView { memory: self@.memory, ..old(self)@ }),
                self@.memory.len() == MEM_SIZE,
                forall|jj: int|
                    0 <= jj < MEM_SIZE
                        ==> self@.memory[jj] == (if base <= jj < base + j {
                        old(self)@.v[jj - base]
                    } else {
                        old(self)@.memory[jj]
                    }),
            decreases x + 1 - j,
        {
            self.memory[base + j] = self.v[j];
            j = j + 1;
        }
        self.i = self.i + (x as u16) + 1;
        proof {
            assert(self@.memory =~= Seq::new(
                old(self)@.memory.len(),
                |jj: int|
                    if old(self)@.i <= jj <= old(self)@.i + x {
                        old(self)@.v[jj - old(self)@.i]
                    } else {
                        old(self)@.memory[jj]
                    },
            ));
            assert(self@ =~= spec_dump(old(self)@, x).0);
        }
        Ok(Outcome::Normal)
    }

    /// Loads `V0..=Vx` from memory at `I` (`FX65`).
    fn exec_load_regs(&mut self, x: usize) -> (r: Result<Outcome, Chip8Error>)
        requires
            old(self)@.wf(),
            x < N_REGISTERS,
        ensures
            (final(self)@, r) == spec_load(old(self)@, x),
    {
        if self.i as usize + x >= MEM_SIZE {
            return Err(Chip8Error::OutOfBounds);
        }
        let base = self.i as usize;
        let mut j: usize = 0;
        while j <= x
            invariant
                old(self)@.wf(),
                x < N_REGISTERS,
                base == old(self)@.i,
                base + x < MEM_SIZE,
                j <= x + 1,
                self@ == (MachineView { v: self@.v, ..old(self)@ }),
                self@.v.len() == N_REGISTERS,
                forall|jj: int|
                    0 <= jj < N_REGISTERS
                        ==> self@.v[jj] == (if 0 <= jj < j {
                        old(self)@.memory[base + jj]
                    } else {
                        old(self)@.v[jj]
                    }),
            decreases x + 1 - j,
        {
            self.v[j] = self.memory[base + j];
            j = j + 1;
        }
        self.i = self.i + (x as u16) + 1;
        proof {
            assert(self@.v =~= Seq::new(
                old(self)@.v.len(),
                |jj: int|
                    if 0 <= jj <= x {
                        old(self)@.memory[old(self)@.i + jj]
                    } else {
                        old(self)@.v[jj]
                    },
            ));
            assert(self@ =~= spec_load(old(self)@, x).0);
        }
        Ok(Outcome::Normal)
    }

    /// Draws the 8-by-`n` sprite at `(Vx, Vy)` (`DXYN`): each ON sprite
    /// bit flips its wrapped target pixel, and `VF` reports whether any
    /// pixel went from ON to OFF.
    fn exec_draw(&mut self, x: usize, y: usize, n: u8) -> (r: Result<Outcome, Chip8Error>)
        requires
            old(self)@.wf(),
            x < N_REGISTERS,
            y < N_REGISTERS,
            n <= 15,
        ensures
            (final(self)@, r) == spec_step(old(self)@, Instruction::IDXYN(x, y, n), 0),
    {
        if self.i as usize + n as usize > MEM_SIZE {
            return Err(Chip8Error::OutOfBounds);
        }
        let ghost m0 = self@;
        let xpos = self.v[x];
        let ypos = self.v[y];
        let base = self.i as usize;
        let mut collision = false;
        let mut r: usize = 0;
        while r < n as usize
            invariant
                m0.wf(),
                m0 == old(self)@,
                n <= 15,
                base == m0.i,
                base + n <= MEM_SIZE,
                xpos == m0.v[x as int],
                ypos == m0.v[y as int],
                r <= n,
                self@ == (MachineView { pixels: self@.pixels, ..m0 }),
                self@.pixels.len() == N_PIXELS,
                forall|p: int|
                    0 <= p < N_PIXELS
                        ==> self@.pixels[p] == (if drawn_upto(m0, xpos, ypos, n, p, r as int, 0) {
                        m0.pixels[p].spec_flip()
                    } else {
                        m0.pixels[p]
                    }),
                collision ==> exists|p: int|
                    0 <= p < N_PIXELS && drawn_upto(m0, xpos, ypos, n, p, r as int, 0)
                        && m0.pixels[p] is ON,
                !collision ==> forall|p: int|
                    0 <= p < N_PIXELS && drawn_upto(m0, xpos, ypos, n, p, r as int, 0)
                        ==> !(m0.pixels[p] is ON),
            decreases n - r,
        {
            let byte = self.memory[base + r];
            let mut c: usize = 0;
            while c < 8
                invariant
                    m0.wf(),
                    m0 == old(self)@,
                    n <= 15,
                    base == m0.i,
                    base + n <= MEM_SIZE,
                    xpos == m0.v[x as int],
                    ypos == m0.v[y as int],
                    r < n,
                    c <= 8,
                    byte == m0.memory[base + r],
                    self@ == (MachineView { pixels: self@.pixels, ..m0 }),
                    self@.pixels.len() == N_PIXELS,
                    forall|p: int|
                        0 <= p < N_PIXELS
                            ==> self@.pixels[p] == (if drawn_upto(
                            m0,
                            xpos,
                            ypos,
                            n,
                            p,
                            r as int,
                            c as int,
                        ) {
                            m0.pixels[p].spec_flip()
                        } else {
                            m0.pixels[p]
                        }),
                    collision ==> exists|p: int|
                        0 <= p < N_PIXELS && drawn_upto(m0, xpos, ypos, n, p, r as int, c as int)
                            && m0.pixels[p] is ON,
                    !collision ==> forall|p: int|
                        0 <= p < N_PIXELS && drawn_upto(m0, xpos, ypos, n, p, r as int, c as int)
                            ==> !(m0.pixels[p] is ON),
                decreases 8 - c,
            {
                let py = (ypos as usize + r) % HEIGHT;
                let px = (xpos as usize + c) % WIDTH;
                let idx = py * WIDTH + px;
                proof {
                    lemma_target_cell(xpos, ypos, r as int, c as int);
                    assert(idx == target_index(xpos, ypos, r as int, c as int));
                }
                let ghost tgt = idx as int;
                let ghost cprev = c as int;
                let ghost oldpix = self@.pixels;
                let ghost oldcol = collision;
                let bit = (byte >> ((7 - c) as u8)) & 1 == 1;
                proof {
                    assert(bit == sprite_bit(m0.memory[m0.i + r], cprev));
                    assert(!drawn_upto(m0, xpos, ypos, n, tgt, r as int, cprev));
                    assert(oldpix[tgt] == m0.pixels[tgt]);
                }
                if bit {
                    let cur = self.pixels[idx];
                    proof {
                        assert(cur == m0.pixels[tgt]);
                        assert(drawn_upto(m0, xpos, ypos, n, tgt, r as int, cprev + 1));
                    }
                    if cur == Pixel::ON {
                        collision = true;
                        self.pixels[idx] = Pixel::OFF;
                    } else {
                        self.pixels[idx] = Pixel::ON;
                    }
                } else {
                    proof {
                        assert(!drawn_upto(m0, xpos, ypos, n, tgt, r as int, cprev + 1));
                    }
                }
                c = c + 1;
                proof {
                    assert(c as int == cprev + 1);
                    assert forall|p: int| 0 <= p < N_PIXELS && p != tgt implies drawn_upto(
                        m0,
                        xpos,
                        ypos,
                        n,
                        p,
                        r as int,
                        cprev + 1,
                    ) == drawn_upto(m0, xpos, ypos, n, p, r as int, cprev) by {
                        assert(!(cell_row_of(ypos, p) == r as int && cell_col_of(xpos, p)
                            == cprev));
                    }
                    assert forall|p: int| 0 <= p < N_PIXELS implies self@.pixels[p] == (
                    if drawn_upto(m0, xpos, ypos, n, p, r as int, c as int) {
                        m0.pixels[p].spec_flip()
                    } else {
                        m0.pixels[p]
                    }) by {
                        if p == tgt {
                            if bit {
                                assert(self@.pixels[p] == m0.pixels[p].spec_flip());
                            } else {
                                assert(self@.pixels[p] == oldpix[p]);
                            }
                        } else {
                            assert(self@.pixels[p] == oldpix[p]);
                        }
                    }
                    if collision {
                        if oldcol {
                            let p0 = choose|p: int|
                                0 <= p < N_PIXELS && drawn_upto(
                                    m0,
                                    xpos,
                                    ypos,
                                    n,
                                    p,
                                    r as int,
                                    cprev,
                                ) && m0.pixels[p] is ON;
                            assert(p0 != tgt);
                            assert(drawn_upto(m0, xpos, ypos, n, p0, r as int, c as int)
                                && m0.pixels[p0] is ON);
                        } else {
                            assert(bit && m0.pixels[tgt] is ON);
                            assert(drawn_upto(m0, xpos, ypos, n, tgt, r as int, c as int)
                                && m0.pixels[tgt] is ON);
                        }
                        assert(exists|p: int|
                            0 <= p < N_PIXELS && drawn_upto(m0, xpos, ypos, n, p, r as int, c as int)
                                && m0.pixels[p] is ON);
                    } else {
                        assert forall|p: int|
                            0 <= p < N_PIXELS && drawn_upto(
                                m0,
                                xpos,
                                ypos,
                                n,
                                p,
                                r as int,
                                c as int,
                            ) implies !(m0.pixels[p] is ON) by {
                            if p == tgt {
                                if m0.pixels[tgt] is ON {
                                    assert(collision);
                                }
                            } else {
                                assert(drawn_upto(m0, xpos, ypos, n, p, r as int, cprev));
                            }
                        }
                    }
                }
            }
            let ghost rprev = r as int;
            r = r + 1;
            proof {
                assert forall|p: int| 0 <= p < N_PIXELS implies drawn_upto(
                    m0,
                    xpos,
                    ypos,
                    n,
                    p,
                    rprev,
                    8,
                ) == drawn_upto(m0, xpos, ypos, n, p, r as int, 0) by {
                    assert(draw_covers(m0, xpos, ypos, n, p) ==> cell_col_of(xpos, p) < 8);
                }
            }
        }
        let flag: u8 = if collision {
            1
        } else {
            0
        };
        proof {
            assert(forall|p: int|
                0 <= p < N_PIXELS
                    ==> (drawn_upto(m0, xpos, ypos, n, p, n as int, 0) == draw_covers(
                    m0,
                    xpos,
                    ypos,
                    n,
                    p,
                )));
            if collision {
                let p = choose|p: int|
                    0 <= p < N_PIXELS && drawn_upto(m0, xpos, ypos, n, p, n as int, 0)
                        && m0.pixels[p] is ON;
                assert(draw_covers(m0, xpos, ypos, n, p) && m0.pixels[p] is ON);
                assert(draw_collision(m0, xpos, ypos, n));
            } else {
                assert(!draw_collision(m0, xpos, ypos, n)) by {
                    if draw_collision(m0, xpos, ypos, n) {
                        let p = choose|p: int|
                            0 <= p < m0.pixels.len() && draw_covers(m0, xpos, ypos, n, p)
                                && m0.pixels[p] is ON;
                        assert(drawn_upto(m0, xpos, ypos, n, p, n as int, 0));
                    }
                }
            }
        }
        self.v[FLAG] = flag;
        proof {
            assert(self@.pixels =~= draw_pixels(m0, xpos, ypos, n));
            assert(self@ =~= spec_draw(m0, x, y, n).0);
        }
        Ok(Outcome::Normal)
    }

    /// Applies one instruction to the machine, with exactly the effects of
    /// [`spec_step`], and reports whether the driver must still advance the
    /// program counter ([`Outcome::Normal`]), must not ([`Outcome::Jumped`]),
    /// or whether the machine suspended on a blocking key read
    /// ([`Outcome::Waiting`]).  An error leaves the machine unchanged.
    pub fn execute_instruction(&mut self, instr: Instruction) -> (r: Result<Outcome, Chip8Error>)
        requires
            old(self)@.wf(),
            old(self)@.pc < MEM_SIZE,
            instr_wf(instr),
        ensures
            final(self)@.wf(),
            exists|rand: u8| (final(self)@, r) == spec_step(old(self)@, instr, rand),
            !(instr is ICXNN) ==> (final(self)@, r) == spec_step(old(self)@, instr, 0),
            r matches Ok(Outcome::Normal) ==> final(self)@.pc == old(self)@.pc || final(self)@.pc
                == old(self)@.pc + 2 || final(self)@.pc < MEM_SIZE,
            r matches Ok(Outcome::Waiting) ==> final(self)@.awaiting is Some && final(self)@.key
                is None,
            r is Err ==> final(self)@ == old(self)@,
    {
        let r = match instr {
            Instruction::I0NNN(_) => Ok(Outcome::Normal),
            Instruction::I00E0 => {
                self.exec_cls();
                Ok(Outcome::Normal)
            },
            Instruction::I00EE => self.exec_ret(),
            Instruction::I1NNN(a) => {
                self.pc = a;
                Ok(Outcome::Jumped)
            },
            Instruction::I2NNN(a) => self.exec_call(a),
            Instruction::I3XNN(x, b) => {
                let cond = self.v[x] == b;
                self.skip_if_cond(cond);
                Ok(Outcome::Normal)
            },
            Instruction::I4XNN(x, b) => {
                let cond = self.v[x] != b;
                self.skip_if_cond(cond);
                Ok(Outcome::Normal)
            },
            Instruction::I5XY0(x, y) => {
                let cond = self.v[x] == self.v[y];
                self.skip_if_cond(cond);
                Ok(Outcome::Normal)
            },
            Instruction::I6XNN(x, b) => {
                self.set_reg(x, b);
                Ok(Outcome::Normal)
            },
            Instruction::I7XNN(x, b) => {
                let a = self.v[x];
                let res = a.wrapping_add(b);
                proof {
                    lemma_mod_once(a + b, 256);
                }
                self.set_reg(x, res);
                Ok(Outcome::Normal)
            },
            Instruction::I8XY0(x, y) => {
                let val = self.v[y];
                self.set_reg(x, val);
                Ok(Outcome::Normal)
            },
            Instruction::I8XY1(x, y) => {
                let val = self.v[x] | self.v[y];
                self.set_reg(x, val);
                Ok(Outcome::Normal)
            },
            Instruction::I8XY2(x, y) => {
                let val = self.v[x] & self.v[y];
                self.set_reg(x, val);
                Ok(Outcome::Normal)
            },
            Instruction::I8XY3(x, y) => {
                let val = self.v[x] ^ self.v[y];
                self.set_reg(x, val);
                Ok(Outcome::Normal)
            },
            Instruction::I8XY4(x, y) => {
                let a = self.v[x];
                let b = self.v[y];
                let flag = crate::arithmetic::check_carry(&a, &b);
                let res = a.wrapping_add(b);
                proof {
                    lemma_mod_once(a + b, 256);
                }
                self.set_flag_then_reg(x, flag, res);
                Ok(Outcome::Normal)
            },
            Instruction::I8XY5(x, y) => {
                let a = self.v[x];
                let b = self.v[y];
                let flag = crate::arithmetic::check_borrow(&a, &b);
                let res = a.wrapping_sub(b);
                proof {
                    lemma_mod_once(a - b + 256, 256);
                }
                self.set_flag_then_reg(x, flag, res);
                Ok(Outcome::Normal)
            },
            Instruction::I8XY6(x, y) => {
                let src = self.v[y];
                let flag = crate::arithmetic::get_lsb(&src);
                let res = src >> 1u8;
                proof {
                    assert(src >> 1u8 == src / 2) by (bit_vector);
                }
                self.set_flag_then_reg(x, flag, res);
                Ok(Outcome::Normal)
            },
            Instruction::I8XY7(x, y) => {
                let a = self.v[x];
                let b = self.v[y];
                let flag = crate::arithmetic::check_borrow(&b, &a);
                let res = b.wrapping_sub(a);
                proof {
                    lemma_mod_once(b - a + 256, 256);
                }
                self.set_flag_then_reg(x, flag, res);
                Ok(Outcome::Normal)
            },
            Instruction::I8XYE(x, y) => {
                let src = self.v[y];
                let flag = crate::arithmetic::get_msb(&src);
                let res = src << 1u8;
                proof {
                    assert(src << 1u8 == (src * 2) % 256) by (bit_vector);
                }
                self.set_flag_then_reg(x, flag, res);
                Ok(Outcome::Normal)
            },
            Instruction::I9XY0(x, y) => {
                let cond = self.v[x] != self.v[y];
                self.skip_if_cond(cond);
                Ok(Outcome::Normal)
            },
            Instruction::IANNN(a) => {
                self.i = a;
                Ok(Outcome::Normal)
            },
            Instruction::IBNNN(a) => {
                self.pc = a + (self.v[0] as u16);
                Ok(Outcome::Jumped)
            },
            Instruction::ICXNN(x, b) => {
                let rb = random_byte();
                self.set_reg(x, rb & b);
                proof {
                    assert((self@, Ok::<Outcome, Chip8Error>(Outcome::Normal)) == spec_step(
                        old(self)@,
                        instr,
                        rb,
                    ));
                }
                Ok(Outcome::Normal)
            },
            Instruction::IDXYN(x, y, n) => self.exec_draw(x, y, n),
            Instruction::IEX9E(x) => {
                let vx = self.v[x];
                let cond = match self.key {
                    Some(k) => vx == k,
                    None => false,
                };
                self.skip_if_cond(cond);
                Ok(Outcome::Normal)
            },
            Instruction::IEXA1(x) => {
                let vx = self.v[x];
                let cond = match self.key {
                    Some(k) => vx != k,
                    None => false,
                };
                self.skip_if_cond(cond);
                Ok(Outcome::Normal)
            },
            Instruction::IFX07(x) => {
                let d = self.delay_timer;
                self.set_reg(x, d);
                Ok(Outcome::Normal)
            },
            Instruction::IFX0A(x) => {
                match self.key {
                    Some(k) => {
                        self.set_reg(x, k);
                        Ok(Outcome::Normal)
                    },
                    None => {
                        self.awaiting = Some(x);
                        Ok(Outcome::Waiting)
                    },
                }
            },
            Instruction::IFX15(x) => {
                self.delay_timer = self.v[x];
                Ok(Outcome::Normal)
            },
            Instruction::IFX18(x) => {
                self.sound_timer = self.v[x];
                Ok(Outcome::Normal)
            },
            Instruction::IFX1E(x) => {
                let vx = self.v[x];
                self.i = self.i.wrapping_add(vx as u16);
                proof {
                    lemma_mod_once(old(self)@.i + vx, 0x10000);
                }
                Ok(Outcome::Normal)
            },
            Instruction::IFX29(x) => {
                let vx = self.v[x];
                let d = vx & 0xF;
                proof {
                    assert(vx & 0xFu8 == vx % 16) by (bit_vector);
                }
                self.i = (d as u16) * 5;
                Ok(Outcome::Normal)
            },
            Instruction::IFX33(x) => self.exec_bcd(x),
            Instruction::IFX55(x) => self.exec_dump(x),
            Instruction::IFX65(x) => self.exec_load_regs(x),
            Instruction::UNSUPPORTED => Err(Chip8Error::Unsupported(ErrUnsupportedInstruction)),
        };
        proof {
            if !(instr is ICXNN) {
                assert((self@, r) == spec_step(old(self)@, instr, 0));
            }
        }
        r
    }

    /// Advances the machine by one unit of work: tick both timers; if the
    /// machine is suspended on a blocking key read, complete it when a key
    /// is observed and otherwise do nothing further this pass; otherwise
    /// fetch the opcode at `pc` (a fetch address past the end of memory is
    /// program termination, not a crash), decode it, execute it, and
    /// advance `pc` by one instruction width unless the instruction set it
    /// explicitly.  Execution errors bubble up with everything but the
    /// timers unchanged; the caller chooses its policy.
    pub fn cycle(&mut self) -> (r: Result<CycleEvent, Chip8Error>)
        requires
            old(self)@.wf(),
        ensures
            final(self)@.wf(),
            exists|rand: u8| (final(self)@, r) == spec_cycle(old(self)@, rand),
            r matches Ok(CycleEvent::AwaitingKey) ==> final(self)@.awaiting is Some
                && final(self)@.key is None,
            r matches Ok(CycleEvent::Halted) ==> final(self)@.pc > PC_FETCH_MAX,
    {
        if self.delay_timer > 0 {
            self.delay_timer = self.delay_timer - 1;
        }
        if self.sound_timer > 0 {
            self.sound_timer = self.sound_timer - 1;
        }
        let ghost t = self@;
        proof {
            assert(t == spec_tick(old(self)@));
        }
        match self.awaiting {
            Some(x) => {
                match self.key {
                    Some(k) => {
                        self.v[x] = k;
                        self.awaiting = None;
                        self.pc = self.pc + 2;
                        proof {
                            assert((self@, Ok::<CycleEvent, Chip8Error>(CycleEvent::Stepped))
                                == spec_cycle(old(self)@, 0));
                        }
                        return Ok(CycleEvent::Stepped);
                    },
                    None => {
                        proof {
                            assert((self@, Ok::<CycleEvent, Chip8Error>(CycleEvent::AwaitingKey))
                                == spec_cycle(old(self)@, 0));
                        }
                        return Ok(CycleEvent::AwaitingKey);
                    },
                }
            },
            None => {},
        }
        if self.pc > PC_FETCH_MAX {
            proof {
                assert((self@, Ok::<CycleEvent, Chip8Error>(CycleEvent::Halted)) == spec_cycle(
                    old(self)@,
                    0,
                ));
            }
            return Ok(CycleEvent::Halted);
        }
        let hi = self.memory[self.pc as usize];
        let lo = self.memory[self.pc as usize + 1];
        let hu = hi as u16;
        let lu = lo as u16;
        let opcode: u16 = (hu << 8u16) | lu;
        proof {
            assert((hu << 8u16) | lu == hu * 256 + lu) by (bit_vector)
                requires
                    hu < 256,
                    lu < 256,
            ;
        }
        let jmp = opcode & 0x0FFF;
        let x = ((opcode >> 8u16) & 0xF) as usize;
        let y = ((opcode >> 4u16) & 0xF) as usize;
        let nn = opcode & 0x00FF;
        let instr = Instruction::get_instr_from_parts(opcode, jmp, x, y, nn);
        let res = self.execute_instruction(instr);
        let ghost m2 = self@;
        let ghost rand = choose|rb: u8| (m2, res) == spec_step(t, instr, rb);
        match res {
            Ok(Outcome::Normal) => {
                self.pc = self.pc + 2;
                proof {
                    assert((self@, Ok::<CycleEvent, Chip8Error>(CycleEvent::Stepped)) == spec_cycle(
                        old(self)@,
                        rand,
                    ));
                }
                Ok(CycleEvent::Stepped)
            },
            Ok(Outcome::Jumped) => {
                proof {
                    assert((self@, Ok::<CycleEvent, Chip8Error>(CycleEvent::Stepped)) == spec_cycle(
                        old(self)@,
                        rand,
                    ));
                }
                Ok(CycleEvent::Stepped)
            },
            Ok(Outcome::Waiting) => {
                proof {
                    assert((self@, Ok::<CycleEvent, Chip8Error>(CycleEvent::AwaitingKey))
                        == spec_cycle(old(self)@, rand));
                }
                Ok(CycleEvent::AwaitingKey)
            },
            Err(e) => {
                proof {
                    assert((self@, Err::<CycleEvent, Chip8Error>(e)) == spec_cycle(
                        old(self)@,
                        rand,
                    ));
                }
                Err(e)
            },
        }
    }

    /// Runs the machine for at most `max_cycles` driver passes, stopping
    /// early when the program terminates (the fetch address leaves memory),
    /// when the machine suspends on a blocking key read (the caller must
    /// feed a key and resume), or when a cycle reports an error.
    pub fn run(&mut self, max_cycles: usize) -> (r: Result<RunEnd, Chip8Error>)
        requires
            old(self)@.wf(),
        ensures
            final(self)@.wf(),
            exists|rands: Seq<u8>|
                rands.len() == max_cycles && (final(self)@, r) == spec_run(old(self)@, rands),
            r matches Ok(RunEnd::Halted) ==> final(self)@.pc > PC_FETCH_MAX,
            r matches Ok(RunEnd::AwaitingKey) ==> final(self)@.awaiting is Some && final(self)@.key
                is None,
    {
        let mut count: usize = 0;
        let ghost mut rands = Seq::<u8>::empty();
        while count < max_cycles
            invariant
                self@.wf(),
                count <= max_cycles,
                rands.len() == count,
                forall|rest: Seq<u8>| #[trigger]
                    spec_run(old(self)@, rands + rest) == spec_run(self@, rest),
            decreases max_cycles - count,
        {
            let ghost prev = self@;
            let res = self.cycle();
            let ghost rb = choose|rb: u8| (self@, res) == spec_cycle(prev, rb);
            match res {
                Ok(CycleEvent::Stepped) => {
                    proof {
                        let ghost old_rands = rands;
                        rands = rands.push(rb);
                        assert forall|rest: Seq<u8>| #[trigger]
                            spec_run(old(self)@, rands + rest) == spec_run(self@, rest) by {
                            let whole = seq![rb] + rest;
                            assert(spec_run(old(self)@, old_rands + whole) == spec_run(
                                prev,
                                whole,
                            ));
                            assert(old_rands + whole =~= rands + rest);
                            assert(whole[0] == rb);
                            assert(whole.drop_first() =~= rest);
                            assert(spec_run(prev, whole) == spec_run(self@, rest));
                        }
                    }
                    count = count + 1;
                },
                Ok(CycleEvent::AwaitingKey) => {
                    proof {
                        lemma_run_stops(
                            old(self)@,
                            prev,
                            self@,
                            rands,
                            rb,
                            (max_cycles - count - 1) as nat,
                            Ok(CycleEvent::AwaitingKey),
                            Ok(RunEnd::AwaitingKey),
                        );
                    }
                    return Ok(RunEnd::AwaitingKey);
                },
                Ok(CycleEvent::Halted) => {
                    proof {
                        lemma_run_stops(
                            old(self)@,
                            prev,
                            self@,
                            rands,
                            rb,
                            (max_cycles - count - 1) as nat,
                            Ok(CycleEvent::Halted),
                            Ok(RunEnd::Halted),
                        );
                    }
                    return Ok(RunEnd::Halted);
                },
                Err(e) => {
                    proof {
                        lemma_run_stops(
                            old(self)@,
                            prev,
                            self@,
                            rands,
                            rb,
                            (max_cycles - count - 1) as nat,
                            Err(e),
                            Err(e),
                        );
                    }
                    return Err(e);
                },
            }
        }
        proof {
            assert(rands + Seq::<u8>::empty() =~= rands);
            assert(spec_run(old(self)@, rands + Seq::<u8>::empty()) == spec_run(
                self@,
                Seq::<u8>::empty(),
            ));
        }
        Ok(RunEnd::CyclesExhausted)
    }
}

/// The semantics of a bounded run: one [`spec_cycle`] per entry of
/// `rands`, stopping early at program termination, suspension on a key
/// read, or an error.
pub open spec fn spec_run(m: MachineView, rands: Seq<u8>) -> (MachineView, Result<
    RunEnd,
    Chip8Error,
>)
    decreases rands.len(),
{
    if rands.len() == 0 {
        (m, Ok(RunEnd::CyclesExhausted))
    } else {
        let cr = spec_cycle(m, rands[0]);
        match cr.1 {
            Err(e) => (cr.0, Err(e)),
            Ok(CycleEvent::Halted) => (cr.0, Ok(RunEnd::Halted)),
            Ok(CycleEvent::AwaitingKey) => (cr.0, Ok(RunEnd::AwaitingKey)),
            Ok(CycleEvent::Stepped) => spec_run(cr.0, rands.drop_first()),
        }
    }
}

/// When a driver pass ends the run (termination, suspension, or an
/// error), any padding of the consumed random bytes to the requested
/// length witnesses the run's contract.
proof fn lemma_run_stops(
    m0: MachineView,
    prev: MachineView,
    cur: MachineView,
    rands: Seq<u8>,
    rb: u8,
    padding: nat,
    cres: Result<CycleEvent, Chip8Error>,
    rres: Result<RunEnd, Chip8Error>,
)
    requires
        forall|rest: Seq<u8>| #[trigger] spec_run(m0, rands + rest) == spec_run(prev, rest),
        spec_cycle(prev, rb) == (cur, cres),
        match cres {
            Ok(CycleEvent::Stepped) => false,
            Ok(CycleEvent::AwaitingKey) => rres == Result::<RunEnd, Chip8Error>::Ok(
                RunEnd::AwaitingKey,
            ),
            Ok(CycleEvent::Halted) => rres == Result::<RunEnd, Chip8Error>::Ok(RunEnd::Halted),
            Err(e) => rres == Result::<RunEnd, Chip8Error>::Err(e),
        },
    ensures
        exists|full: Seq<u8>|
            full.len() == rands.len() + 1 + padding && (cur, rres) == spec_run(m0, full),
{
    let pad = Seq::<u8>::new(padding, |idx: int| 0u8);
    let whole = seq![rb] + pad;
    let full = rands + whole;
    assert(spec_run(m0, rands + whole) == spec_run(prev, whole));
    assert(whole[0] == rb);
    assert(spec_run(prev, whole) == (cur, rres));
    assert(full.len() == rands.len() + 1 + padding);
    assert((cur, rres) == spec_run(m0, full));
}

} // verus!
