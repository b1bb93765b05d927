//! The machine state: memory with its built-in fontset, the register file,
//! the call stack, the two timers, the keypad and the framebuffer, together
//! with construction, ROM loading, the input feed and the read-only
//! diagnostic views.
//!
//! The whole state is one owned aggregate; it is mutated only by the
//! executor and the cycle driver (see [`crate::exec`]).

use vstd::prelude::*;

use crate::pixel::Pixel;

verus! {

/// Bytes of addressable memory; addresses `0x000`–`0xFFF`.
pub const MEM_SIZE: usize = 0x1000;

/// Number of general-purpose registers `V0`–`VF`.
pub const N_REGISTERS: usize = 16;

/// Capacity of the return-address stack.
pub const STACK_DEPTH: usize = 16;

/// Width of the framebuffer in pixels.
pub const WIDTH: usize = 64;

/// Height of the framebuffer in pixels.
pub const HEIGHT: usize = 32;

/// Cells in the framebuffer.
pub const N_PIXELS: usize = WIDTH * HEIGHT;

/// Number of keypad keys, `0x0`–`0xF`.
pub const N_KEYS: usize = 16;

/// Address at which loaded programs begin.
pub const PROGRAM_START: u16 = 0x200;

/// Bytes occupied by the built-in fontset.
pub const FONTSET_SIZE: usize = 80;

/// Bytes per fontset glyph.
pub const GLYPH_SIZE: usize = 5;

/// Index of the flag register `VF`.
pub const FLAG: usize = 0xF;

/// Largest program counter value from which an instruction can still be
/// fetched (the fetch reads two bytes, at `pc` and `pc + 1`).
pub const PC_FETCH_MAX: u16 = 0xFFE;

/// The mathematical model of the machine: every component as a sequence or
/// plain value.  Contracts and the instruction semantics are stated over
/// this view.
#[verifier::ext_equal]
pub ghost struct MachineView {
    /// The 4096 memory bytes.
    pub memory: Seq<u8>,
    /// The 16 general-purpose registers.
    pub v: Seq<u8>,
    /// The 16-bit index register `I`.
    pub i: u16,
    /// The return-address stack cells (all `STACK_DEPTH` of them; only the
    /// first `sp` hold live return addresses).
    pub stack: Seq<u16>,
    /// The stack pointer: number of live return addresses.
    pub sp: u8,
    /// The program counter.
    pub pc: u16,
    /// The delay timer.
    pub delay_timer: u8,
    /// The sound timer.
    pub sound_timer: u8,
    /// The framebuffer, row-major: row `r`, column `c` is cell `r * 64 + c`.
    pub pixels: Seq<Pixel>,
    /// The key-down state of each keypad key.
    pub keys: Seq<bool>,
    /// The currently observed key, if any.
    pub key: Option<u8>,
    /// When the machine is suspended on a blocking key read, the register
    /// that will receive the key.
    pub awaiting: Option<usize>,
}

impl MachineView {
    /// Structural well-formedness: every component has its architectural
    /// size, the stack pointer stays within the stack, live return
    /// addresses point into memory, and a machine suspended on a key read
    /// has a register to fill and a resumable program counter.
    pub open spec fn wf(self) -> bool {
        &&& self.memory.len() == MEM_SIZE
        &&& self.v.len() == N_REGISTERS
        &&& self.stack.len() == STACK_DEPTH
        &&& self.sp <= STACK_DEPTH
        &&& self.pixels.len() == N_PIXELS
        &&& self.keys.len() == N_KEYS
        &&& forall|j: int| 0 <= j < STACK_DEPTH ==> self.stack[j] < MEM_SIZE
        &&& self.awaiting matches Some(x) ==> x < N_REGISTERS && self.pc + 2 <= u16::MAX
    }

    /// The state of a freshly constructed machine: memory zeroed except for
    /// the fontset, registers and timers zero, the program counter at the
    /// program start, the screen clear, no key observed.
    pub open spec fn initial() -> MachineView {
        MachineView {
            memory: Seq::new(
                MEM_SIZE as nat,
                |j: int|
                    if j < FONTSET_SIZE {
                        fontset_seq()[j]
                    } else {
                        0u8
                    },
            ),
            v: Seq::new(N_REGISTERS as nat, |j: int| 0u8),
            i: 0,
            stack: Seq::new(STACK_DEPTH as nat, |j: int| 0u16),
            sp: 0,
            pc: PROGRAM_START,
            delay_timer: 0,
            sound_timer: 0,
            pixels: Seq::new(N_PIXELS as nat, |p: int| Pixel::OFF),
            keys: Seq::new(N_KEYS as nat, |k: int| false),
            key: None,
            awaiting: None,
        }
    }
}

/// The built-in glyph table: 16 five-byte sprites for the hexadecimal
/// digits; glyph `d` occupies bytes `5*d ..= 5*d + 4`.
pub open spec fn fontset_seq() -> Seq<u8> {
    seq![
        0xF0u8, 0x90, 0x90, 0x90, 0xF0,  // 0
        0x20, 0x60, 0x20, 0x20, 0x70,  // 1
        0xF0, 0x10, 0xF0, 0x80, 0xF0,  // 2
        0xF0, 0x10, 0xF0, 0x10, 0xF0,  // 3
        0x90, 0x90, 0xF0, 0x10, 0x10,  // 4
        0xF0, 0x80, 0xF0, 0x10, 0xF0,  // 5
        0xF0, 0x80, 0xF0, 0x90, 0xF0,  // 6
        0xF0, 0x10, 0x20, 0x40, 0x40,  // 7
        0xF0, 0x90, 0xF0, 0x90, 0xF0,  // 8
        0xF0, 0x90, 0xF0, 0x10, 0xF0,  // 9
        0xF0, 0x90, 0xF0, 0x90, 0x90,  // A
        0xE0, 0x90, 0xE0, 0x90, 0xE0,  // B
        0xF0, 0x80, 0x80, 0x80, 0xF0,  // C
        0xE0, 0x90, 0x90, 0x90, 0xE0,  // D
        0xF0, 0x80, 0xF0, 0x80, 0xF0,  // E
        0xF0, 0x80, 0xF0, 0x80, 0x80,  // F
    ]
}

/// A single CHIP-8 virtual machine.
pub struct Chip8 {
    /// The memory; the fontset occupies the first 80 bytes.
    pub memory: Vec<u8>,
    /// The general-purpose registers `V0`–`VF`.
    pub v: Vec<u8>,
    /// The index register `I`.
    pub i: u16,
    /// The return-address stack.
    pub stack: Vec<u16>,
    /// The stack pointer.
    pub sp: u8,
    /// The program counter.
    pub pc: u16,
    /// The delay timer.
    pub delay_timer: u8,
    /// The sound timer.
    pub sound_timer: u8,
    /// The framebuffer, row-major.
    pub pixels: Vec<Pixel>,
    /// The keypad key-down states.
    pub keys: Vec<bool>,
    /// The currently observed key.
    pub key: Option<u8>,
    /// The register awaiting a blocking key read, if any.
    pub awaiting: Option<usize>,
}

impl View for Chip8 {
    type V = MachineView;

    open spec fn view(&self) -> MachineView {
        MachineView {
            memory: self.memory@,
            v: self.v@,
            i: self.i,
            stack: self.stack@,
            sp: self.sp,
            pc: self.pc,
            delay_timer: self.delay_timer,
            sound_timer: self.sound_timer,
            pixels: self.pixels@,
            keys: self.keys@,
            key: self.key,
            awaiting: self.awaiting,
        }
    }
}

/// Returns the fontset as bytes, glyph by glyph.
fn fontset() -> (r: Vec<u8>)
    ensures
        r@ == fontset_seq(),
{
    let mut f: Vec<u8> = Vec::new();
    f.push(0xF0);
    f.push(0x90);
    f.push(0x90);
    f.push(0x90);
    f.push(0xF0);
    f.push(0x20);
    f.push(0x60);
    f.push(0x20);
    f.push(0x20);
    f.push(0x70);
    f.push(0xF0);
    f.push(0x10);
    f.push(0xF0);
    f.push(0x80);
    f.push(0xF0);
    f.push(0xF0);
    f.push(0x10);
    f.push(0xF0);
    f.push(0x10);
    f.push(0xF0);
    f.push(0x90);
    f.push(0x90);
    f.push(0xF0);
    f.push(0x10);
    f.push(0x10);
    f.push(0xF0);
    f.push(0x80);
    f.push(0xF0);
    f.push(0x10);
    f.push(0xF0);
    f.push(0xF0);
    f.push(0x80);
    f.push(0xF0);
    f.push(0x90);
    f.push(0xF0);
    f.push(0xF0);
    f.push(0x10);
    f.push(0x20);
    f.push(0x40);
    f.push(0x40);
    f.push(0xF0);
    f.push(0x90);
    f.push(0xF0);
    f.push(0x90);
    f.push(0xF0);
    f.push(0xF0);
    f.push(0x90);
    f.push(0xF0);
    f.push(0x10);
    f.push(0xF0);
    f.push(0xF0);
    f.push(0x90);
    f.push(0xF0);
    f.push(0x90);
    f.push(0x90);
    f.push(0xE0);
    f.push(0x90);
    f.push(0xE0);
    f.push(0x90);
    f.push(0xE0);
    f.push(0xF0);
    f.push(0x80);
    f.push(0x80);
    f.push(0x80);
    f.push(0xF0);
    f.push(0xE0);
    f.push(0x90);
    f.push(0x90);
    f.push(0x90);
    f.push(0xE0);
    f.push(0xF0);
    f.push(0x80);
    f.push(0xF0);
    f.push(0x80);
    f.push(0xF0);
    f.push(0xF0);
    f.push(0x80);
    f.push(0xF0);
    f.push(0x80);
    f.push(0x80);
    proof {
        assert(f@ =~= fontset_seq());
    }
    f
}

impl Chip8 {
    /// Constructs a machine in its initial state: memory zeroed, fontset
    /// installed, program counter at the program start, screen clear,
    /// timers zero, no key observed.
    pub fn new() -> (r: Self)
        ensures
            r@ == MachineView::initial(),
            r@.wf(),
    {
        let mut memory = fontset();
        while memory.len() < MEM_SIZE
            invariant
                FONTSET_SIZE <= memory@.len() <= MEM_SIZE,
                memory@.subrange(0, FONTSET_SIZE as int) == fontset_seq(),
                forall|j: int| FONTSET_SIZE <= j < memory@.len() ==> memory@[j] == 0u8,
            decreases MEM_SIZE - memory@.len(),
        {
            memory.push(0);
        }
        let mut v: Vec<u8> = Vec::new();
        while v.len() < N_REGISTERS
            invariant
                v@.len() <= N_REGISTERS,
                forall|j: int| 0 <= j < v@.len() ==> v@[j] == 0u8,
            decreases N_REGISTERS - v@.len(),
        {
            v.push(0);
        }
        let mut stack: Vec<u16> = Vec::new();
        while stack.len() < STACK_DEPTH
            invariant
                stack@.len() <= STACK_DEPTH,
                forall|j: int| 0 <= j < stack@.len() ==> stack@[j] == 0u16,
            decreases STACK_DEPTH - stack@.len(),
        {
            stack.push(0);
        }
        let mut pixels: Vec<Pixel> = Vec::new();
        while pixels.len() < N_PIXELS
            invariant
                pixels@.len() <= N_PIXELS,
                forall|p: int| 0 <= p < pixels@.len() ==> pixels@[p] == Pixel::OFF,
            decreases N_PIXELS - pixels@.len(),
        {
            pixels.push(Pixel::OFF);
        }
        let mut keys: Vec<bool> = Vec::new();
        while keys.len() < N_KEYS
            invariant
                keys@.len() <= N_KEYS,
                forall|k: int| 0 <= k < keys@.len() ==> keys@[k] == false,
            decreases N_KEYS - keys@.len(),
        {
            keys.push(false);
        }
        let r = Chip8 {
            memory,
            v,
            i: 0,
            stack,
            sp: 0,
            pc: PROGRAM_START,
            delay_timer: 0,
            sound_timer: 0,
            pixels,
            keys,
            key: None,
            awaiting: None,
        };
        proof {
            assert(r@ =~= MachineView::initial());
        }
        r
    }

    /// Copies a ROM into memory starting at the program start address.
    /// Fails with an out-of-bounds error, changing nothing, when the ROM
    /// would run past the end of memory.
    pub fn load_rom(&mut self, rom: &[u8]) -> (r: Result<(), Chip8Error>)
        requires
            old(self)@.wf(),
        ensures
            final(self)@.wf(),
            r is Ok <==> rom@.len() <= MEM_SIZE - PROGRAM_START,
            r is Ok ==> final(self)@ == (MachineView {
                memory: Seq::new(
                    MEM_SIZE as nat,
                    |j: int|
                        if PROGRAM_START <= j < PROGRAM_START + rom@.len() {
                            rom@[j - PROGRAM_START]
                        } else {
                            old(self)@.memory[j]
                        },
                ),
                ..old(self)@
            }),
            r is Err ==> final(self)@ == old(self)@ && r == Result::<(), Chip8Error>::Err(
                Chip8Error::OutOfBounds,
            ),
    {
        if rom.len() > MEM_SIZE - PROGRAM_START as usize {
            return Err(Chip8Error::OutOfBounds);
        }
        let mut idx: usize = 0;
        while idx < rom.len()
            invariant
                old(self)@.wf(),
                idx <= rom@.len(),
                rom@.len() <= MEM_SIZE - PROGRAM_START,
                self@ == (MachineView { memory: self@.memory, ..old(self)@ }),
                self@.memory.len() == MEM_SIZE,
                forall|j: int|
                    0 <= j < MEM_SIZE
                        ==> self@.memory[j] == (if PROGRAM_START <= j < PROGRAM_START + idx {
                        rom@[j - PROGRAM_START]
                    } else {
                        old(self)@.memory[j]
                    }),
            decreases rom@.len() - idx,
        {
            self.memory[PROGRAM_START as usize + idx] = rom[idx];
            idx = idx + 1;
        }
        proof {
            assert(self@.memory =~= Seq::new(
                MEM_SIZE as nat,
                |j: int|
                    if PROGRAM_START <= j < PROGRAM_START + rom@.len() {
                        rom@[j - PROGRAM_START]
                    } else {
                        old(self)@.memory[j]
                    },
            ));
            assert(self@ =~= (MachineView {
                memory: Seq::new(
                    MEM_SIZE as nat,
                    |j: int|
                        if PROGRAM_START <= j < PROGRAM_START + rom@.len() {
                            rom@[j - PROGRAM_START]
                        } else {
                            old(self)@.memory[j]
                        },
                ),
                ..old(self)@
            }));
        }
        Ok(())
    }

    /// Returns the first `n_bytes` bytes of memory, for external
    /// inspection.
    pub fn memory_dump(&self, n_bytes: usize) -> (r: Vec<u8>)
        requires
            self@.wf(),
            n_bytes <= MEM_SIZE,
        ensures
            r@ == self@.memory.subrange(0, n_bytes as int),
    {
        let mut out: Vec<u8> = Vec::new();
        let mut idx: usize = 0;
        while idx < n_bytes
            invariant
                self@.wf(),
                idx <= n_bytes <= MEM_SIZE,
                out@ == self@.memory.subrange(0, idx as int),
            decreases n_bytes - idx,
        {
            out.push(self.memory[idx]);
            proof {
                assert(out@ =~= self@.memory.subrange(0, idx + 1));
            }
            idx = idx + 1;
        }
        out
    }

    /// Returns a copy of the sixteen general-purpose registers, for
    /// external inspection.
    pub fn register_dump(&self) -> (r: Vec<u8>)
        requires
            self@.wf(),
        ensures
            r@ == self@.v,
    {
        let mut out: Vec<u8> = Vec::new();
        let mut idx: usize = 0;
        while idx < N_REGISTERS
            invariant
                self@.wf(),
                idx <= N_REGISTERS,
                out@ == self@.v.subrange(0, idx as int),
            decreases N_REGISTERS - idx,
        {
            out.push(self.v[idx]);
            proof {
                assert(out@ =~= self@.v.subrange(0, idx + 1));
            }
            idx = idx + 1;
        }
        proof {
            assert(out@ =~= self@.v);
        }
        out
    }

    /// Returns a snapshot of the framebuffer, row-major, for an external
    /// renderer.
    pub fn display_snapshot(&self) -> (r: Vec<Pixel>)
        requires
            self@.wf(),
        ensures
            r@ == self@.pixels,
    {
        let mut out: Vec<Pixel> = Vec::new();
        let mut idx: usize = 0;
        while idx < N_PIXELS
            invariant
                self@.wf(),
                idx <= N_PIXELS,
                out@ == self@.pixels.subrange(0, idx as int),
            decreases N_PIXELS - idx,
        {
            out.push(self.pixels[idx]);
            proof {
                assert(out@ =~= self@.pixels.subrange(0, idx + 1));
            }
            idx = idx + 1;
        }
        proof {
            assert(out@ =~= self@.pixels);
        }
        out
    }

    /// Clears every key to the released state.
    pub fn init_keys(&mut self)
        requires
            old(self)@.wf(),
        ensures
            final(self)@.wf(),
            final(self)@ == (MachineView {
                keys: Seq::new(N_KEYS as nat, |k: int| false),
                ..old(self)@
            }),
    {
        let mut idx: usize = 0;
        while idx < N_KEYS
            invariant
                old(self)@.wf(),
                idx <= N_KEYS,
                self@ == (MachineView { keys: self@.keys, ..old(self)@ }),
                self@.keys.len() == N_KEYS,
                forall|k: int| 0 <= k < idx ==> self@.keys[k] == false,
                forall|k: int| idx <= k < N_KEYS ==> self@.keys[k] == old(self)@.keys[k],
            decreases N_KEYS - idx,
        {
            self.keys[idx] = false;
            idx = idx + 1;
        }
        proof {
            assert(self@.keys =~= Seq::new(N_KEYS as nat, |k: int| false));
            assert(self@ =~= (MachineView {
                keys: Seq::new(N_KEYS as nat, |k: int| false),
                ..old(self)@
            }));
        }
    }

    /// Sets or clears the key-down state of key `k`; the external input
    /// source calls this between cycles.
    pub fn set_key(&mut self, k: u8, down: bool)
        requires
            old(self)@.wf(),
            k < N_KEYS,
        ensures
            final(self)@.wf(),
            final(self)@ == (MachineView {
                keys: old(self)@.keys.update(k as int, down),
                ..old(self)@
            }),
    {
        self.keys[k as usize] = down;
    }

    /// Reports the most recently observed key (or that none is observed);
    /// blocking reads and the key-skip instructions consult it.
    pub fn observe_key(&mut self, k: Option<u8>)
        requires
            old(self)@.wf(),
            k matches Some(key) ==> key < N_KEYS,
        ensures
            final(self)@.wf(),
            final(self)@ == (MachineView { key: k, ..old(self)@ }),
    {
        self.key = k;
    }

    /// The program counter, for external inspection.
    pub fn pc(&self) -> (r: u16)
        ensures
            r == self@.pc,
    {
        self.pc
    }

    /// The index register `I`, for external inspection.
    pub fn index_register(&self) -> (r: u16)
        ensures
            r == self@.i,
    {
        self.i
    }

    /// The stack pointer, for external inspection.
    pub fn stack_pointer(&self) -> (r: u8)
        ensures
            r == self@.sp,
    {
        self.sp
    }

    /// The delay timer, for external inspection.
    pub fn delay_timer(&self) -> (r: u8)
        ensures
            r == self@.delay_timer,
    {
        self.delay_timer
    }

    /// The sound timer; it reaching zero is the timer-expired signal.
    pub fn sound_timer(&self) -> (r: u8)
        ensures
            r == self@.sound_timer,
    {
        self.sound_timer
    }

    /// The register suspended on a blocking key read, if any.
    pub fn awaiting_key(&self) -> (r: Option<usize>)
        ensures
            r == self@.awaiting,
    {
        self.awaiting
    }
}

/// The outcome of one executed instruction: the program counter was left
/// for the driver to advance, was explicitly set, or the machine suspended
/// awaiting a key.
#[derive(Clone, Copy, Debug, PartialEq, Eq, Structural)]
pub enum Outcome {
    /// The program counter was not explicitly set; the driver advances it
    /// by one instruction width.
    Normal,
    /// The instruction set the program counter itself; the driver must not
    /// advance it.
    Jumped,
    /// A blocking key read found no key; the machine is suspended and the
    /// program counter stays on the read instruction.
    Waiting,
}

/// An error surfaced by decoding or executing an instruction, or by
/// loading a program.
#[derive(Clone, Copy, Debug, PartialEq, Eq, Structural)]
pub enum Chip8Error {
    /// The opcode matched no known pattern.
    Unsupported(crate::instruction::ErrUnsupportedInstruction),
    /// A program string handed to the parser was not valid hex.
    InvalidProgram(crate::assembler::ErrInvalidProgram),
    /// A call was made with the stack already full.
    StackOverflow,
    /// A return was made with the stack empty.
    StackUnderflow,
    /// A memory access through `I` or a ROM load would leave memory.
    OutOfBounds,
}

/// What one driver pass did: ran an instruction, found (or kept) the
/// machine suspended on a key read, or found the fetch address past the
/// end of memory (program termination).
#[derive(Clone, Copy, Debug, PartialEq, Eq, Structural)]
pub enum CycleEvent {
    /// An instruction was fetched, decoded and executed.
    Stepped,
    /// The machine is suspended on a blocking key read and no key is
    /// observed; timers still ticked.
    AwaitingKey,
    /// The fetch address is past the end of memory; the program has ended.
    Halted,
}

/// Why [`Chip8::run`] stopped.
#[derive(Clone, Copy, Debug, PartialEq, Eq, Structural)]
pub enum RunEnd {
    /// The fetch address ran past the end of memory.
    Halted,
    /// The machine suspended on a blocking key read; the caller must feed
    /// a key and resume.
    AwaitingKey,
    /// The requested number of cycles elapsed first.
    CyclesExhausted,
}

} // verus!
