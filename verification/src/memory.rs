//! The flat 4096-byte address space.
//!
//! One byte buffer holds everything the machine can address: the 16 fixed
//! 5-byte font glyphs at the bottom, the loaded program image from
//! `PROGRAM_CODE_BASE` up, and free scratch space, the top of which doubles
//! as the call stack (16-bit words growing down from `STACK_BASE`).

use vstd::prelude::*;

verus! {

/// Total number of addressable bytes.
pub const MEMORY_SIZE: usize = 0x1000;

/// Offset of the font glyph table.
pub const FONTS_BASE: usize = 0;

/// Bytes per font glyph.
pub const FONT_SIZE: usize = 5;

/// Number of font glyphs (hexadecimal digits 0 to F).
pub const FONT_COUNT: usize = 16;

/// Offset at which the program image is loaded and execution starts.
pub const PROGRAM_CODE_BASE: usize = 0x200;

/// Initial value of the stack pointer; calls push 16-bit words below it.
pub const STACK_BASE: usize = 0xefe;

/// Size in bytes of one instruction word or stack slot.
pub const WORD_SIZE: usize = 2;

/// Construction of the address space fails when the program image does not
/// fit between `PROGRAM_CODE_BASE` and the end of memory.
#[derive(Clone, Copy, Debug, PartialEq, Eq, Structural)]
pub enum LoadError {
    ProgramTooLarge,
}

/// The 80 bytes of the font table: 16 glyphs of 5 rows each, one glyph per
/// hexadecimal digit, each row a bit pattern drawn most significant bit
/// first.
pub open spec fn spec_fonts() -> Seq<u8> {
    seq![
        0xf0u8, 0x90, 0x90, 0x90, 0xf0,
        0x20, 0x60, 0x20, 0x20, 0x70,
        0xf0, 0x10, 0xf0, 0x80, 0xf0,
        0xf0, 0x10, 0xf0, 0x10, 0xf0,
        0x90, 0x90, 0xf0, 0x10, 0x10,
        0xf0, 0x80, 0xf0, 0x10, 0xf0,
        0xf0, 0x80, 0xf0, 0x90, 0xf0,
        0xf0, 0x10, 0x20, 0x40, 0x40,
        0xf0, 0x90, 0xf0, 0x90, 0xf0,
        0xf0, 0x90, 0xf0, 0x10, 0xf0,
        0xf0, 0x90, 0xf0, 0x90, 0x90,
        0xe0, 0x90, 0xe0, 0x90, 0xe0,
        0xf0, 0x80, 0x80, 0x80, 0xf0,
        0xe0, 0x90, 0x90, 0x90, 0xe0,
        0xf0, 0x80, 0xf0, 0x80, 0xf0,
        0xf0, 0x80, 0xf0, 0x80, 0x80,
    ]
}

/// `mem` with the range starting at `offset` replaced by `data`.
pub open spec fn overwrite(mem: Seq<u8>, offset: int, data: Seq<u8>) -> Seq<u8> {
    Seq::new(
        mem.len(),
        |i: int|
            if offset <= i < offset + data.len() {
                data[i - offset]
            } else {
                mem[i]
            },
    )
}

/// The contents of a freshly constructed address space: font glyphs at the
/// bottom, the program image at `PROGRAM_CODE_BASE`, zero everywhere else.
pub open spec fn mem_init(program: Seq<u8>) -> Seq<u8> {
    overwrite(
        overwrite(Seq::new(MEMORY_SIZE as nat, |i: int| 0u8), FONTS_BASE as int, spec_fonts()),
        PROGRAM_CODE_BASE as int,
        program,
    )
}

/// The big-endian 16-bit word stored at `offset`.
pub open spec fn word_at(mem: Seq<u8>, offset: int) -> u16
    recommends
        0 <= offset,
        offset + 2 <= mem.len(),
{
    (mem[offset] * 256 + mem[offset + 1]) as u16
}

/// `mem` with `value` stored big-endian at `offset`.
pub open spec fn word_written(mem: Seq<u8>, offset: int, value: u16) -> Seq<u8>
    recommends
        0 <= offset,
        offset + 2 <= mem.len(),
{
    mem.update(offset, (value / 256) as u8).update(offset + 1, (value % 256) as u8)
}

/// Reading a word back from where it was just written yields the value, and
/// leaves every byte outside the two written ones untouched.
pub proof fn lemma_word_round_trip(mem: Seq<u8>, offset: int, value: u16)
    requires
        0 <= offset,
        offset + 2 <= mem.len(),
    ensures
        word_at(word_written(mem, offset, value), offset) == value,
        forall|i: int|
            0 <= i < mem.len() && i != offset && i != offset + 1 ==> word_written(
                mem,
                offset,
                value,
            )[i] == mem[i],
{
}

/// The font table, as bytes.
fn font_table() -> (r: Vec<u8>)
    ensures
        r@ == spec_fonts(),
{
    let r: Vec<u8> = vec![
        0xf0u8, 0x90, 0x90, 0x90, 0xf0,
        0x20, 0x60, 0x20, 0x20, 0x70,
        0xf0, 0x10, 0xf0, 0x80, 0xf0,
        0xf0, 0x10, 0xf0, 0x10, 0xf0,
        0x90, 0x90, 0xf0, 0x10, 0x10,
        0xf0, 0x80, 0xf0, 0x10, 0xf0,
        0xf0, 0x80, 0xf0, 0x90, 0xf0,
        0xf0, 0x10, 0x20, 0x40, 0x40,
        0xf0, 0x90, 0xf0, 0x90, 0xf0,
        0xf0, 0x90, 0xf0, 0x10, 0xf0,
        0xf0, 0x90, 0xf0, 0x90, 0x90,
        0xe0, 0x90, 0xe0, 0x90, 0xe0,
        0xf0, 0x80, 0x80, 0x80, 0xf0,
        0xe0, 0x90, 0x90, 0x90, 0xe0,
        0xf0, 0x80, 0xf0, 0x80, 0xf0,
        0xf0, 0x80, 0xf0, 0x80, 0x80,
    ];
    proof {
        assert(r@ =~= spec_fonts());
    }
    r
}

/// The flat byte-addressable store shared by font data, program image,
/// scratch space and the call stack.
pub struct Memory {
    bytes: Vec<u8>,
}

impl View for Memory {
    type V = Seq<u8>;

    closed spec fn view(&self) -> Seq<u8> {
        self.bytes@
    }
}

impl Memory {
    /// Allocates the zeroed address space, lays down the font table at the
    /// bottom and copies the program image to `PROGRAM_CODE_BASE`. Fails
    /// exactly when the image would overflow the address space.
    pub fn new(program_code: &[u8]) -> (r: Result<Memory, LoadError>)
        ensures
            match r {
                Ok(m) => program_code@.len() <= MEMORY_SIZE - PROGRAM_CODE_BASE && m@ == mem_init(
                    program_code@,
                ),
                Err(e) => program_code@.len() > MEMORY_SIZE - PROGRAM_CODE_BASE && e
                    == LoadError::ProgramTooLarge,
            },
    {
        if program_code.len() > MEMORY_SIZE - PROGRAM_CODE_BASE {
            return Err(LoadError::ProgramTooLarge);
        }
        let mut bytes: Vec<u8> = Vec::new();
        let mut i: usize = 0;
        while i < MEMORY_SIZE
            invariant
                i <= MEMORY_SIZE,
                bytes@ =~= Seq::new(i as nat, |j: int| 0u8),
            decreases MEMORY_SIZE - i,
        {
            bytes.push(0);
            i += 1;
        }
        let mut memory = Memory { bytes };
        proof {
            assert(memory@ =~= Seq::new(MEMORY_SIZE as nat, |j: int| 0u8));
        }
        let fonts = font_table();
        memory.write_at(fonts.as_slice(), FONTS_BASE);
        memory.write_at(program_code, PROGRAM_CODE_BASE);
        Ok(memory)
    }

    /// Copies `count` bytes starting at `offset` out of memory.
    pub fn read_at(&self, offset: usize, count: usize) -> (r: Vec<u8>)
        requires
            offset + count <= self@.len(),
        ensures
            r@ == self@.subrange(offset as int, offset + count),
    {
        let mem_len = self.bytes.len();
        let mut r: Vec<u8> = Vec::new();
        let mut i: usize = 0;
        while i < count
            invariant
                i <= count,
                offset + count <= mem_len,
                mem_len == self@.len(),
                r@ =~= self@.subrange(offset as int, offset + i),
            decreases count - i,
        {
            r.push(self.bytes[offset + i]);
            i += 1;
        }
        r
    }

    /// Copies `buf` into memory starting at `offset`.
    pub fn write_at(&mut self, buf: &[u8], offset: usize)
        requires
            offset + buf@.len() <= old(self)@.len(),
        ensures
            final(self)@ == overwrite(old(self)@, offset as int, buf@),
    {
        let buf_len = buf.len();
        let mem_len = self.bytes.len();
        let mut i: usize = 0;
        while i < buf_len
            invariant
                buf_len == buf@.len(),
                i <= buf_len,
                mem_len == old(self)@.len(),
                offset + buf_len <= mem_len,
                self@.len() == old(self)@.len(),
                self@ =~= overwrite(old(self)@, offset as int, buf@.subrange(0, i as int)),
            decreases buf@.len() - i,
        {
            self.bytes.set(offset + i, buf[i]);
            proof {
                assert(self@ =~= overwrite(old(self)@, offset as int, buf@.subrange(0, i + 1)));
            }
            i += 1;
        }
        proof {
            assert(buf@.subrange(0, buf@.len() as int) =~= buf@);
        }
    }

    /// Reads the big-endian 16-bit word at `offset` (instruction words and
    /// stack slots are stored this way).
    pub fn read_u16_at(&self, offset: usize) -> (r: u16)
        requires
            offset + 2 <= self@.len(),
        ensures
            r == word_at(self@, offset as int),
    {
        let mem_len = self.bytes.len();
        let hi = self.bytes[offset];
        let lo = self.bytes[offset + 1];
        (hi as u16) * 256 + (lo as u16)
    }

    /// Stores `value` as a big-endian 16-bit word at `offset`.
    pub fn write_u16_at(&mut self, value: u16, offset: usize)
        requires
            offset + 2 <= old(self)@.len(),
        ensures
            final(self)@ == word_written(old(self)@, offset as int, value),
    {
        let mem_len = self.bytes.len();
        self.bytes.set(offset, (value / 256) as u8);
        self.bytes.set(offset + 1, (value % 256) as u8);
    }
}

} // verus!
