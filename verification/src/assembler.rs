//! The assembler boundary: a hex-encoded instruction stream becomes the
//! raw byte ROM that the load interface consumes.  Writing the bytes to a
//! file is the caller's business; the conversion itself is specified here
//! down to each byte.

use vstd::prelude::*;

use crate::chip8::{Chip8, Chip8Error, MachineView, MEM_SIZE, PROGRAM_START};

verus! {

/// The program string is not a valid hex-encoded instruction stream: its
/// length is odd or it holds a non-hex character.
#[derive(Clone, Copy, Debug, PartialEq, Eq, Structural)]
pub struct ErrInvalidProgram;

/// Whether `c` is a hexadecimal digit.
pub open spec fn is_hex_digit(c: char) -> bool {
    (48 <= c as u32 && c as u32 <= 57)  // '0'..='9'
    || (97 <= c as u32 && c as u32 <= 102)  // 'a'..='f'
    || (65 <= c as u32 && c as u32 <= 70)  // 'A'..='F'
}

/// The value of the hexadecimal digit `c`.
pub open spec fn hex_val(c: char) -> u8 {
    if 48 <= c as u32 && c as u32 <= 57 {
        (c as u32 - 48) as u8
    } else if 97 <= c as u32 && c as u32 <= 102 {
        (c as u32 - 87) as u8
    } else {
        (c as u32 - 55) as u8
    }
}

/// Whether `s` is a valid hex program: an even number of characters, all
/// of them hex digits.
pub open spec fn valid_hex(s: Seq<char>) -> bool {
    s.len() % 2 == 0 && forall|j: int| 0 <= j < s.len() ==> is_hex_digit(#[trigger] s[j])
}

/// The bytes a valid hex program denotes: one byte per digit pair, high
/// digit first.
pub open spec fn hex_decode_spec(s: Seq<char>) -> Seq<u8> {
    Seq::new(s.len() / 2, |k: int| (16 * hex_val(s[2 * k]) + hex_val(s[2 * k + 1])) as u8)
}

/// The declared error type of the hex crate's decoders.
#[verifier::external_type_specification]
#[verifier::external_body]
pub struct ExFromHexError(hex::FromHexError);

/// Relies on hex::decode: it yields one byte per pair of hex digits, high
/// digit first, accepting upper and lower case, and errs exactly on an
/// odd-length input or a non-hex character (a non-ASCII character decodes
/// through bytes outside every hex-digit range, so it errs as well).
#[verifier::external_body]
fn decode_hex(s: &str) -> (r: Result<Vec<u8>, hex::FromHexError>)
    ensures
        r is Ok <==> valid_hex(s@),
        r matches Ok(bytes) ==> bytes@ == hex_decode_spec(s@),
{
    hex::decode(s)
}

/// Converts hex-encoded instruction streams into raw byte ROMs.
pub struct Assembler;

impl Assembler {
    /// Assembles a hex program string into the ROM bytes it denotes.
    /// Succeeds exactly on an even-length string of hex digits.
    pub fn assemble(hex_prgm: &str) -> (r: Result<Vec<u8>, ErrInvalidProgram>)
        ensures
            r is Ok <==> valid_hex(hex_prgm@),
            r matches Ok(bytes) ==> bytes@ == hex_decode_spec(hex_prgm@),
            r is Err ==> r == Result::<Vec<u8>, ErrInvalidProgram>::Err(ErrInvalidProgram),
    {
        match decode_hex(hex_prgm) {
            Ok(bytes) => Ok(bytes),
            Err(_) => Err(ErrInvalidProgram),
        }
    }
}

impl Chip8 {
    /// Parses a hex-encoded program and loads it into memory at the
    /// program start.  An odd length or a non-hex character is an
    /// invalid-program error; a program that would run past the end of
    /// memory is an out-of-bounds error; either error changes nothing.
    pub fn parse_file(&mut self, source: &str) -> (r: Result<(), Chip8Error>)
        requires
            old(self)@.wf(),
        ensures
            final(self)@.wf(),
            r is Ok <==> valid_hex(source@) && hex_decode_spec(source@).len() <= MEM_SIZE
                - PROGRAM_START,
            r is Ok ==> final(self)@ == (MachineView {
                memory: Seq::new(
                    MEM_SIZE as nat,
                    |j: int|
                        if PROGRAM_START <= j < PROGRAM_START + hex_decode_spec(source@).len() {
                            hex_decode_spec(source@)[j - PROGRAM_START]
                        } else {
                            old(self)@.memory[j]
                        },
                ),
                ..old(self)@
            }),
            r is Err ==> final(self)@ == old(self)@,
            !valid_hex(source@) ==> r == Result::<(), Chip8Error>::Err(
                Chip8Error::InvalidProgram(ErrInvalidProgram),
            ),
            valid_hex(source@) && hex_decode_spec(source@).len() > MEM_SIZE - PROGRAM_START ==> r
                == Result::<(), Chip8Error>::Err(Chip8Error::OutOfBounds),
    {
        match Assembler::assemble(source) {
            Ok(bytes) => self.load_rom(bytes.as_slice()),
            Err(e) => Err(Chip8Error::InvalidProgram(e)),
        }
    }
}

} // verus!
