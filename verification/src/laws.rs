//! Laws of the instruction semantics: properties that hold of every
//! machine state, proved once here against [`crate::exec::spec_step`] and
//! its helpers, which the executor implements exactly.

use vstd::prelude::*;

use crate::chip8::{
    Chip8Error,
    CycleEvent,
    MachineView,
    Outcome,
    FLAG,
    MEM_SIZE,
    N_PIXELS,
    N_REGISTERS,
    PC_FETCH_MAX,
    STACK_DEPTH,
};
use crate::exec::{
    draw_covers,
    spec_cycle,
    spec_step,
    spec_tick,
    target_col,
    target_index,
    target_row,
    sprite_bit,
};
use crate::instruction::{decode_of, Instruction};

verus! {

/// Law: for all register values `a = Vx`, `b = Vy`, add-with-carry stores
/// `(a + b) mod 256` into `Vx`, and — whenever the destination is not the
/// flag register itself, which the result then overwrites — sets `VF` to 1
/// exactly when `a + b > 255`.
pub proof fn lemma_add_with_carry(m: MachineView, x: usize, y: usize)
    requires
        m.wf(),
        x < N_REGISTERS,
        y < N_REGISTERS,
    ensures
        ({
            let a = m.v[x as int];
            let b = m.v[y as int];
            let post = spec_step(m, Instruction::I8XY4(x, y), 0).0;
            &&& spec_step(m, Instruction::I8XY4(x, y), 0).1 == Result::<Outcome, Chip8Error>::Ok(
                Outcome::Normal,
            )
            &&& post.v[x as int] == (a + b) % 256
            &&& x != FLAG ==> (post.v[FLAG as int] == 1 <==> a + b > 255)
            &&& x != FLAG ==> (post.v[FLAG as int] == 1 || post.v[FLAG as int] == 0)
        }),
{
}

/// Law: for all register values `a = Vx`, `b = Vy`, subtract-with-
/// not-borrow stores `(a - b) mod 256` into `Vx`, and — whenever the
/// destination is not the flag register itself — sets `VF` to 1 exactly
/// when `a >= b`.
pub proof fn lemma_sub_with_not_borrow(m: MachineView, x: usize, y: usize)
    requires
        m.wf(),
        x < N_REGISTERS,
        y < N_REGISTERS,
    ensures
        ({
            let a = m.v[x as int];
            let b = m.v[y as int];
            let post = spec_step(m, Instruction::I8XY5(x, y), 0).0;
            &&& spec_step(m, Instruction::I8XY5(x, y), 0).1 == Result::<Outcome, Chip8Error>::Ok(
                Outcome::Normal,
            )
            &&& post.v[x as int] == (a - b + 256) % 256
            &&& x != FLAG ==> (post.v[FLAG as int] == 1 <==> a >= b)
            &&& x != FLAG ==> (post.v[FLAG as int] == 1 || post.v[FLAG as int] == 0)
        }),
{
}

/// Law: dumping `V0..=Vx` to memory at `I` and loading the same index
/// range back is idempotent — every register reads back the value it
/// wrote, registers above `Vx` are untouched — and `I` advances by exactly
/// `x + 1` on each of the two instructions.
pub proof fn lemma_dump_load_round_trip(m: MachineView, x: usize)
    requires
        m.wf(),
        x < N_REGISTERS,
        m.i + x < MEM_SIZE,
    ensures
        ({
            let dumped = spec_step(m, Instruction::IFX55(x), 0);
            let m1 = MachineView { i: m.i, ..dumped.0 };
            let loaded = spec_step(m1, Instruction::IFX65(x), 0);
            &&& dumped.1 == Result::<Outcome, Chip8Error>::Ok(Outcome::Normal)
            &&& loaded.1 == Result::<Outcome, Chip8Error>::Ok(Outcome::Normal)
            &&& dumped.0.i == m.i + x + 1
            &&& loaded.0.i == m.i + x + 1
            &&& forall|j: int| 0 <= j < N_REGISTERS ==> loaded.0.v[j] == m.v[j]
            &&& loaded.0.memory == dumped.0.memory
        }),
{
    let dumped = spec_step(m, Instruction::IFX55(x), 0);
    let m1 = MachineView { i: m.i, ..dumped.0 };
    let loaded = spec_step(m1, Instruction::IFX65(x), 0);
    assert forall|j: int| 0 <= j < N_REGISTERS implies loaded.0.v[j] == m.v[j] by {
        if 0 <= j <= x {
            assert(m1.memory[m.i + j] == m.v[j]);
        }
    }
}

/// Law: drawing the same sprite twice at the same position restores the
/// framebuffer (XOR composition is an involution); and when every pixel
/// the sprite covers started OFF and the sprite covers at least one
/// pixel, the first draw reports no collision and the second reports one
/// in `VF`.  The registers naming the position must not be the flag
/// register, which the first draw overwrites.
pub proof fn lemma_draw_twice(m: MachineView, x: usize, y: usize, n: u8)
    requires
        m.wf(),
        x < N_REGISTERS,
        y < N_REGISTERS,
        x != FLAG,
        y != FLAG,
        n <= 15,
        m.i + n <= MEM_SIZE,
    ensures
        ({
            let xpos = m.v[x as int];
            let ypos = m.v[y as int];
            let s1 = spec_step(m, Instruction::IDXYN(x, y, n), 0).0;
            let s2 = spec_step(s1, Instruction::IDXYN(x, y, n), 0).0;
            &&& s2.pixels == m.pixels
            &&& (forall|p: int|
                0 <= p < N_PIXELS && draw_covers(m, xpos, ypos, n, p) ==> m.pixels[p] is OFF)
                ==> s1.v[FLAG as int] == 0
            &&& ((forall|p: int|
                0 <= p < N_PIXELS && draw_covers(m, xpos, ypos, n, p) ==> m.pixels[p] is OFF)
                && (exists|p: int| 0 <= p < N_PIXELS && draw_covers(m, xpos, ypos, n, p)))
                ==> s2.v[FLAG as int] == 1
        }),
{
    let xpos = m.v[x as int];
    let ypos = m.v[y as int];
    let s1 = spec_step(m, Instruction::IDXYN(x, y, n), 0).0;
    let s2 = spec_step(s1, Instruction::IDXYN(x, y, n), 0).0;
    assert(s1.v[x as int] == xpos && s1.v[y as int] == ypos);
    assert(s1.memory == m.memory && s1.i == m.i);
    assert forall|p: int| 0 <= p < N_PIXELS implies s2.pixels[p] == m.pixels[p] by {
        assert(draw_covers(s1, xpos, ypos, n, p) == draw_covers(m, xpos, ypos, n, p));
        if draw_covers(m, xpos, ypos, n, p) {
            assert(s1.pixels[p] == m.pixels[p].spec_flip());
            assert(s2.pixels[p] == m.pixels[p].spec_flip().spec_flip());
        }
    }
    assert(s2.pixels =~= m.pixels);
    if forall|p: int| 0 <= p < N_PIXELS && draw_covers(m, xpos, ypos, n, p) ==> m.pixels[p] is OFF {
        assert forall|p: int|
            0 <= p < N_PIXELS && draw_covers(m, xpos, ypos, n, p) implies !(m.pixels[p]
            is ON) by {}
        assert(!crate::exec::draw_collision(m, xpos, ypos, n));
        if exists|p: int| 0 <= p < N_PIXELS && draw_covers(m, xpos, ypos, n, p) {
            let p0 = choose|p: int| 0 <= p < N_PIXELS && draw_covers(m, xpos, ypos, n, p);
            assert(s1.pixels[p0] == m.pixels[p0].spec_flip());
            assert(s1.pixels[p0] is ON);
            assert(draw_covers(s1, xpos, ypos, n, p0));
            assert(crate::exec::draw_collision(s1, xpos, ypos, n));
        }
    }
}

/// Law: sprite coordinates wrap.  Every sprite cell `(r, c)` lands at row
/// `(ypos + r) mod 32`, column `(xpos + c) mod 64` — always inside the
/// framebuffer — and the drawn framebuffer holds, at exactly that index,
/// the flip of the old pixel when the sprite bit is ON and the old pixel
/// otherwise.
pub proof fn lemma_sprite_coordinates_wrap(m: MachineView, x: usize, y: usize, n: u8)
    requires
        m.wf(),
        x < N_REGISTERS,
        y < N_REGISTERS,
        n <= 15,
        m.i + n <= MEM_SIZE,
    ensures
        ({
            let xpos = m.v[x as int];
            let ypos = m.v[y as int];
            let post = spec_step(m, Instruction::IDXYN(x, y, n), 0).0;
            forall|r: int, c: int|
                0 <= r < n && 0 <= c < 8 ==> {
                    let idx = #[trigger] target_index(xpos, ypos, r, c);
                    &&& idx == target_row(ypos, r) * 64 + target_col(xpos, c)
                    &&& 0 <= idx < N_PIXELS
                    &&& post.pixels[idx] == (if sprite_bit(m.memory[m.i + r], c) {
                        m.pixels[idx].spec_flip()
                    } else {
                        m.pixels[idx]
                    })
                }
        }),
{
    let xpos = m.v[x as int];
    let ypos = m.v[y as int];
    let post = spec_step(m, Instruction::IDXYN(x, y, n), 0).0;
    assert forall|r: int, c: int| 0 <= r < n && 0 <= c < 8 implies {
        let idx = #[trigger] target_index(xpos, ypos, r, c);
        &&& idx == target_row(ypos, r) * 64 + target_col(xpos, c)
        &&& 0 <= idx < N_PIXELS
        &&& post.pixels[idx] == (if sprite_bit(m.memory[m.i + r], c) {
            m.pixels[idx].spec_flip()
        } else {
            m.pixels[idx]
        })
    } by {
        crate::exec::lemma_target_cell(xpos, ypos, r, c);
    }
}

/// Law: stack discipline.  A call succeeds exactly while fewer than 16
/// return addresses are live — so 16 nested calls succeed and the 17th
/// reports a stack overflow — pushing the caller's address and jumping;
/// a return succeeds exactly on a nonempty stack — an empty one reports a
/// stack underflow — popping the pushed address back into the program
/// counter, so a call followed by a return resumes at the call site.
pub proof fn lemma_stack_discipline(m: MachineView, a: u16)
    requires
        m.wf(),
    ensures
        spec_step(m, Instruction::I2NNN(a), 0).1 == (if m.sp < STACK_DEPTH {
            Result::<Outcome, Chip8Error>::Ok(Outcome::Jumped)
        } else {
            Result::<Outcome, Chip8Error>::Err(Chip8Error::StackOverflow)
        }),
        spec_step(m, Instruction::I00EE, 0).1 == (if m.sp > 0 {
            Result::<Outcome, Chip8Error>::Ok(Outcome::Normal)
        } else {
            Result::<Outcome, Chip8Error>::Err(Chip8Error::StackUnderflow)
        }),
        m.sp < STACK_DEPTH ==> ({
            let called = spec_step(m, Instruction::I2NNN(a), 0).0;
            &&& called.sp == m.sp + 1
            &&& called.stack[m.sp as int] == m.pc
            &&& called.pc == a
            &&& spec_step(called, Instruction::I00EE, 0).0.pc == m.pc
            &&& spec_step(called, Instruction::I00EE, 0).0.sp == m.sp
        }),
        m.sp > 0 ==> spec_step(m, Instruction::I00EE, 0).0.pc == m.stack[m.sp - 1]
            && spec_step(m, Instruction::I00EE, 0).0.sp == m.sp - 1,
{
}

/// Law: timers never go negative.  A tick decrements a positive timer by
/// one and leaves a zero timer at zero.
pub proof fn lemma_timers_never_negative(m: MachineView)
    ensures
        spec_tick(m).delay_timer == (if m.delay_timer > 0 {
            m.delay_timer - 1
        } else {
            0int
        }),
        spec_tick(m).sound_timer == (if m.sound_timer > 0 {
            m.sound_timer - 1
        } else {
            0int
        }),
        m.delay_timer == 0 ==> spec_tick(m).delay_timer == 0,
        m.sound_timer == 0 ==> spec_tick(m).sound_timer == 0,
{
}

/// Law: the jump instruction `1NNN` sets the program counter to `NNN`
/// exactly, and the driver does not additionally advance it that cycle.
pub proof fn lemma_jump_exact(m: MachineView, rand: u8)
    requires
        m.wf(),
        m.awaiting is None,
        m.pc <= PC_FETCH_MAX,
        ({
            let op = (m.memory[m.pc as int] * 256 + m.memory[m.pc as int + 1]) as u16;
            op & 0xF000 == 0x1000
        }),
    ensures
        ({
            let op = (m.memory[m.pc as int] * 256 + m.memory[m.pc as int + 1]) as u16;
            &&& spec_cycle(m, rand).1 == Result::<CycleEvent, Chip8Error>::Ok(CycleEvent::Stepped)
            &&& spec_cycle(m, rand).0.pc == op & 0x0FFF
        }),
{
    let t = spec_tick(m);
    let op = (m.memory[m.pc as int] * 256 + m.memory[m.pc as int + 1]) as u16;
    assert(decode_of(op) == Instruction::I1NNN(op & 0x0FFF));
    assert(spec_step(t, decode_of(op), rand).0.pc == op & 0x0FFF);
}

} // verus!
