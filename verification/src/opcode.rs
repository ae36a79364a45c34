//! Decoding of 16-bit instruction words.
//!
//! An instruction word packs four 4-bit nibbles. The leading nibble selects
//! the opcode family; the remaining nibbles carry operands: register indices,
//! an immediate byte (low 8 bits), a 12-bit address (low 12 bits, the
//! "tribble"), or a 4-bit count (low nibble).

use vstd::prelude::*;

verus! {

/// The `size`-bit field of `number` starting `offset` bits above the least
/// significant bit.
pub open spec fn spec_bit_slice(number: u16, offset: u16, size: u16) -> u16
    recommends
        offset < 16,
        size < 16,
{
    (number >> offset) & (((1u16 << size) - 1) as u16)
}

/// The `index`-th nibble of `number`, counting from the least significant.
pub open spec fn spec_nibble(number: u16, index: u16) -> u8
    recommends
        index < 4,
{
    spec_bit_slice(number, (4 * index) as u16, 4) as u8
}

/// The low byte of an instruction word: its immediate operand.
pub open spec fn spec_byte(number: u16) -> u8 {
    (number & 0xff) as u8
}

/// The low 12 bits of an instruction word: its address operand.
pub open spec fn spec_tribble(number: u16) -> u16 {
    number & 0xfff
}

/// Extracts the `size`-bit field of `number` starting at bit `offset`.
pub fn bit_slice(number: u16, offset: u8, size: u8) -> (r: u16)
    requires
        offset < 16,
        size < 16,
    ensures
        r == spec_bit_slice(number, offset as u16, size as u16),
{
    proof {
        assert(size < 16 ==> (1u16 << (size as u16)) >= 1) by (bit_vector);
    }
    (number >> (offset as u16)) & ((1u16 << (size as u16)) - 1)
}

/// Extracts the `index`-th nibble of `number`, counting from the least
/// significant.
pub fn get_nibble(number: u16, index: u8) -> (r: u8)
    requires
        index < 4,
    ensures
        r == spec_nibble(number, index as u16),
{
    bit_slice(number, index * 4, 4) as u8
}

/// Each nibble is a 4-bit value, and the tribble a 12-bit one.
pub proof fn lemma_field_bounds(w: u16)
    ensures
        forall|i: u16| i < 4 ==> #[trigger] spec_nibble(w, i) < 16,
        spec_tribble(w) < 0x1000,
{
    assert(spec_nibble(w, 0) < 16 && spec_nibble(w, 1) < 16 && spec_nibble(w, 2) < 16
        && spec_nibble(w, 3) < 16 && spec_tribble(w) < 0x1000) by (bit_vector);
    assert forall|i: u16| i < 4 implies #[trigger] spec_nibble(w, i) < 16 by {
        assert(i == 0 || i == 1 || i == 2 || i == 3);
    }
}

/// One 16-bit instruction word, decoded field by field on demand.
pub struct Opcode(pub u16);

impl Opcode {
    /// The first register operand (bits 8 to 11), always below 16.
    pub fn reg1(&self) -> (r: usize)
        ensures
            r == spec_nibble(self.0, 2),
            r < 16,
    {
        proof {
            lemma_field_bounds(self.0);
        }
        get_nibble(self.0, 2) as usize
    }

    /// The second register operand (bits 4 to 7), always below 16.
    pub fn reg2(&self) -> (r: usize)
        ensures
            r == spec_nibble(self.0, 1),
            r < 16,
    {
        proof {
            lemma_field_bounds(self.0);
        }
        get_nibble(self.0, 1) as usize
    }

    /// The immediate byte operand (bits 0 to 7).
    pub fn byte(&self) -> (r: u8)
        ensures
            r == spec_byte(self.0),
    {
        proof {
            let w = self.0;
            assert(spec_bit_slice(w, 0, 8) as u8 == spec_byte(w)) by (bit_vector);
        }
        bit_slice(self.0, 0, 8) as u8
    }

    /// The 4-bit count operand (bits 0 to 3).
    pub fn nibble(&self) -> (r: u8)
        ensures
            r == spec_nibble(self.0, 0),
            r < 16,
    {
        proof {
            lemma_field_bounds(self.0);
        }
        get_nibble(self.0, 0)
    }

    /// The 12-bit address operand (bits 0 to 11).
    pub fn tribble(&self) -> (r: u16)
        ensures
            r == spec_tribble(self.0),
            r < 0x1000,
    {
        proof {
            let w = self.0;
            assert(spec_bit_slice(w, 0, 12) == spec_tribble(w)) by (bit_vector);
            lemma_field_bounds(w);
        }
        bit_slice(self.0, 0, 12)
    }

    /// All four nibbles, most significant first.
    pub fn to_nibble_tuple(&self) -> (r: (u8, u8, u8, u8))
        ensures
            r.0 == spec_nibble(self.0, 3),
            r.1 == spec_nibble(self.0, 2),
            r.2 == spec_nibble(self.0, 1),
            r.3 == spec_nibble(self.0, 0),
    {
        (
            get_nibble(self.0, 3),
            get_nibble(self.0, 2),
            get_nibble(self.0, 1),
            get_nibble(self.0, 0),
        )
    }
}

/// The 34 operations of the instruction set, with their decoded operands.
/// The leading nibble selects the family; `x` and `y` name registers, `kk`
/// an immediate byte, `nnn` a 12-bit address, `n` a 4-bit count.
#[derive(Clone, Copy, Debug, PartialEq, Eq, Structural)]
pub enum Instr {
    /// `(0,0,E,0)`: clear the screen.
    ClearScreen,
    /// `(0,0,E,E)`: return from a call.
    Return,
    /// `(1,n,n,n)`: jump to the address.
    Jump(u16),
    /// `(2,n,n,n)`: call the address.
    Call(u16),
    /// `(3,x,k,k)`: skip the next instruction when `Vx` equals the byte.
    SkipEqImm(u8, u8),
    /// `(4,x,k,k)`: skip the next instruction when `Vx` differs from the byte.
    SkipNeImm(u8, u8),
    /// `(5,x,y,0)`: skip the next instruction when `Vx` equals `Vy`.
    SkipEqReg(u8, u8),
    /// `(6,x,k,k)`: load the byte into `Vx`.
    LoadImm(u8, u8),
    /// `(7,x,k,k)`: add the byte to `Vx`, wrapping; the flag is untouched.
    AddImm(u8, u8),
    /// `(8,x,y,0)`: copy `Vy` into `Vx`.
    Move(u8, u8),
    /// `(8,x,y,1)`: bitwise or of `Vy` into `Vx`.
    Or(u8, u8),
    /// `(8,x,y,2)`: bitwise and of `Vy` into `Vx`.
    And(u8, u8),
    /// `(8,x,y,3)`: bitwise exclusive or of `Vy` into `Vx`.
    Xor(u8, u8),
    /// `(8,x,y,4)`: add `Vy` to `Vx`; `VF` becomes 1 exactly on unsigned
    /// overflow.
    AddReg(u8, u8),
    /// `(8,x,y,5)`: subtract `Vy` from `Vx`; `VF` becomes 1 exactly when no
    /// borrow occurs.
    Sub(u8, u8),
    /// `(8,x,_,6)`: shift `Vx` right by one; `VF` takes the bit shifted out.
    ShiftRight(u8),
    /// `(8,x,y,7)`: store `Vy` minus `Vx` into `Vx`; `VF` becomes 1 exactly
    /// when no borrow occurs.
    RevSub(u8, u8),
    /// `(8,x,_,E)`: shift `Vx` left by one; `VF` takes the bit shifted out.
    ShiftLeft(u8),
    /// `(9,x,y,0)`: skip the next instruction when `Vx` differs from `Vy`.
    SkipNeReg(u8, u8),
    /// `(A,n,n,n)`: load the address into the index register.
    LoadIndex(u16),
    /// `(B,n,n,n)`: jump to the address plus `V0`.
    JumpPlusV0(u16),
    /// `(C,x,k,k)`: store a random value bounded by the byte into `Vx`.
    Random(u8, u8),
    /// `(D,x,y,n)`: draw the `n`-byte sprite at the index register at
    /// column `Vx`, row `Vy`.
    Draw(u8, u8, u8),
    /// `(E,x,9,E)`: skip the next instruction when the key numbered by `Vx`
    /// is pressed.
    SkipKeyPressed(u8),
    /// `(E,x,A,1)`: skip the next instruction when the key numbered by `Vx`
    /// is not pressed.
    SkipKeyNotPressed(u8),
    /// `(F,x,0,7)`: read the delay timer into `Vx`.
    ReadDelay(u8),
    /// `(F,x,0,A)`: block until any key is pressed, then store its code
    /// into `Vx`.
    WaitKey(u8),
    /// `(F,x,1,5)`: set the delay timer from `Vx`.
    SetDelay(u8),
    /// `(F,x,1,8)`: set the sound timer from `Vx`.
    SetSound(u8),
    /// `(F,x,1,E)`: add `Vx` to the index register, wrapping at 16 bits.
    AddIndex(u8),
    /// `(F,x,2,9)`: point the index register at the font glyph of the digit
    /// held in `Vx`.
    FontGlyph(u8),
    /// `(F,x,3,3)`: store the three decimal digits of `Vx` at the index
    /// register.
    StoreBcd(u8),
    /// `(F,x,5,5)`: store registers `V0` through `Vx` to memory at the
    /// index register.
    StoreRegs(u8),
    /// `(F,x,6,5)`: load registers `V0` through `Vx` from memory at the
    /// index register.
    LoadRegs(u8),
}

/// Every operand of a decoded instruction is in range: register indices and
/// counts are nibbles (below 16), addresses are 12-bit.
pub open spec fn instr_wf(i: Instr) -> bool {
    match i {
        Instr::ClearScreen => true,
        Instr::Return => true,
        Instr::Jump(a) => a < 0x1000,
        Instr::Call(a) => a < 0x1000,
        Instr::SkipEqImm(x, _) => x < 16,
        Instr::SkipNeImm(x, _) => x < 16,
        Instr::SkipEqReg(x, y) => x < 16 && y < 16,
        Instr::LoadImm(x, _) => x < 16,
        Instr::AddImm(x, _) => x < 16,
        Instr::Move(x, y) => x < 16 && y < 16,
        Instr::Or(x, y) => x < 16 && y < 16,
        Instr::And(x, y) => x < 16 && y < 16,
        Instr::Xor(x, y) => x < 16 && y < 16,
        Instr::AddReg(x, y) => x < 16 && y < 16,
        Instr::Sub(x, y) => x < 16 && y < 16,
        Instr::ShiftRight(x) => x < 16,
        Instr::RevSub(x, y) => x < 16 && y < 16,
        Instr::ShiftLeft(x) => x < 16,
        Instr::SkipNeReg(x, y) => x < 16 && y < 16,
        Instr::LoadIndex(a) => a < 0x1000,
        Instr::JumpPlusV0(a) => a < 0x1000,
        Instr::Random(x, _) => x < 16,
        Instr::Draw(x, y, n) => x < 16 && y < 16 && n < 16,
        Instr::SkipKeyPressed(x) => x < 16,
        Instr::SkipKeyNotPressed(x) => x < 16,
        Instr::ReadDelay(x) => x < 16,
        Instr::WaitKey(x) => x < 16,
        Instr::SetDelay(x) => x < 16,
        Instr::SetSound(x) => x < 16,
        Instr::AddIndex(x) => x < 16,
        Instr::FontGlyph(x) => x < 16,
        Instr::StoreBcd(x) => x < 16,
        Instr::StoreRegs(x) => x < 16,
        Instr::LoadRegs(x) => x < 16,
    }
}

/// The dispatch table: which operation a word encodes, or `None` when the
/// word matches no pattern (an unsupported opcode).
pub open spec fn spec_decode(w: u16) -> Option<Instr> {
    let n3 = spec_nibble(w, 3);
    let x = spec_nibble(w, 2);
    let y = spec_nibble(w, 1);
    let n0 = spec_nibble(w, 0);
    let kk = spec_byte(w);
    let nnn = spec_tribble(w);
    if n3 == 0x0 && x == 0x0 && y == 0xe && n0 == 0x0 {
        Some(Instr::ClearScreen)
    } else if n3 == 0x0 && x == 0x0 && y == 0xe && n0 == 0xe {
        Some(Instr::Return)
    } else if n3 == 0x1 {
        Some(Instr::Jump(nnn))
    } else if n3 == 0x2 {
        Some(Instr::Call(nnn))
    } else if n3 == 0x3 {
        Some(Instr::SkipEqImm(x, kk))
    } else if n3 == 0x4 {
        Some(Instr::SkipNeImm(x, kk))
    } else if n3 == 0x5 && n0 == 0x0 {
        Some(Instr::SkipEqReg(x, y))
    } else if n3 == 0x6 {
        Some(Instr::LoadImm(x, kk))
    } else if n3 == 0x7 {
        Some(Instr::AddImm(x, kk))
    } else if n3 == 0x8 && n0 == 0x0 {
        Some(Instr::Move(x, y))
    } else if n3 == 0x8 && n0 == 0x1 {
        Some(Instr::Or(x, y))
    } else if n3 == 0x8 && n0 == 0x2 {
        Some(Instr::And(x, y))
    } else if n3 == 0x8 && n0 == 0x3 {
        Some(Instr::Xor(x, y))
    } else if n3 == 0x8 && n0 == 0x4 {
        Some(Instr::AddReg(x, y))
    } else if n3 == 0x8 && n0 == 0x5 {
        Some(Instr::Sub(x, y))
    } else if n3 == 0x8 && n0 == 0x6 {
        Some(Instr::ShiftRight(x))
    } else if n3 == 0x8 && n0 == 0x7 {
        Some(Instr::RevSub(x, y))
    } else if n3 == 0x8 && n0 == 0xe {
        Some(Instr::ShiftLeft(x))
    } else if n3 == 0x9 && n0 == 0x0 {
        Some(Instr::SkipNeReg(x, y))
    } else if n3 == 0xa {
        Some(Instr::LoadIndex(nnn))
    } else if n3 == 0xb {
        Some(Instr::JumpPlusV0(nnn))
    } else if n3 == 0xc {
        Some(Instr::Random(x, kk))
    } else if n3 == 0xd {
        Some(Instr::Draw(x, y, n0))
    } else if n3 == 0xe && y == 0x9 && n0 == 0xe {
        Some(Instr::SkipKeyPressed(x))
    } else if n3 == 0xe && y == 0xa && n0 == 0x1 {
        Some(Instr::SkipKeyNotPressed(x))
    } else if n3 == 0xf && y == 0x0 && n0 == 0x7 {
        Some(Instr::ReadDelay(x))
    } else if n3 == 0xf && y == 0x0 && n0 == 0xa {
        Some(Instr::WaitKey(x))
    } else if n3 == 0xf && y == 0x1 && n0 == 0x5 {
        Some(Instr::SetDelay(x))
    } else if n3 == 0xf && y == 0x1 && n0 == 0x8 {
        Some(Instr::SetSound(x))
    } else if n3 == 0xf && y == 0x1 && n0 == 0xe {
        Some(Instr::AddIndex(x))
    } else if n3 == 0xf && y == 0x2 && n0 == 0x9 {
        Some(Instr::FontGlyph(x))
    } else if n3 == 0xf && y == 0x3 && n0 == 0x3 {
        Some(Instr::StoreBcd(x))
    } else if n3 == 0xf && y == 0x5 && n0 == 0x5 {
        Some(Instr::StoreRegs(x))
    } else if n3 == 0xf && y == 0x6 && n0 == 0x5 {
        Some(Instr::LoadRegs(x))
    } else {
        None
    }
}

/// Decodes an instruction word against the dispatch table.
pub fn decode(word: u16) -> (r: Option<Instr>)
    ensures
        r == spec_decode(word),
        r matches Some(i) ==> instr_wf(i),
{
    proof {
        lemma_field_bounds(word);
    }
    let op = Opcode(word);
    let (n3, x, y, n0) = op.to_nibble_tuple();
    let kk = op.byte();
    let nnn = op.tribble();
    match (n3, x, y, n0) {
        (0x0, 0x0, 0xe, 0x0) => Some(Instr::ClearScreen),
        (0x0, 0x0, 0xe, 0xe) => Some(Instr::Return),
        (0x1, _, _, _) => Some(Instr::Jump(nnn)),
        (0x2, _, _, _) => Some(Instr::Call(nnn)),
        (0x3, _, _, _) => Some(Instr::SkipEqImm(x, kk)),
        (0x4, _, _, _) => Some(Instr::SkipNeImm(x, kk)),
        (0x5, _, _, 0x0) => Some(Instr::SkipEqReg(x, y)),
        (0x6, _, _, _) => Some(Instr::LoadImm(x, kk)),
        (0x7, _, _, _) => Some(Instr::AddImm(x, kk)),
        (0x8, _, _, 0x0) => Some(Instr::Move(x, y)),
        (0x8, _, _, 0x1) => Some(Instr::Or(x, y)),
        (0x8, _, _, 0x2) => Some(Instr::And(x, y)),
        (0x8, _, _, 0x3) => Some(Instr::Xor(x, y)),
        (0x8, _, _, 0x4) => Some(Instr::AddReg(x, y)),
        (0x8, _, _, 0x5) => Some(Instr::Sub(x, y)),
        (0x8, _, _, 0x6) => Some(Instr::ShiftRight(x)),
        (0x8, _, _, 0x7) => Some(Instr::RevSub(x, y)),
        (0x8, _, _, 0xe) => Some(Instr::ShiftLeft(x)),
        (0x9, _, _, 0x0) => Some(Instr::SkipNeReg(x, y)),
        (0xa, _, _, _) => Some(Instr::LoadIndex(nnn)),
        (0xb, _, _, _) => Some(Instr::JumpPlusV0(nnn)),
        (0xc, _, _, _) => Some(Instr::Random(x, kk)),
        (0xd, _, _, _) => Some(Instr::Draw(x, y, n0)),
        (0xe, _, 0x9, 0xe) => Some(Instr::SkipKeyPressed(x)),
        (0xe, _, 0xa, 0x1) => Some(Instr::SkipKeyNotPressed(x)),
        (0xf, _, 0x0, 0x7) => Some(Instr::ReadDelay(x)),
        (0xf, _, 0x0, 0xa) => Some(Instr::WaitKey(x)),
        (0xf, _, 0x1, 0x5) => Some(Instr::SetDelay(x)),
        (0xf, _, 0x1, 0x8) => Some(Instr::SetSound(x)),
        (0xf, _, 0x1, 0xe) => Some(Instr::AddIndex(x)),
        (0xf, _, 0x2, 0x9) => Some(Instr::FontGlyph(x)),
        (0xf, _, 0x3, 0x3) => Some(Instr::StoreBcd(x)),
        (0xf, _, 0x5, 0x5) => Some(Instr::StoreRegs(x)),
        (0xf, _, 0x6, 0x5) => Some(Instr::LoadRegs(x)),
        _ => None,
    }
}

/// The four nibbles of a word, repacked most significant first, give back
/// exactly the word they were unpacked from.
pub proof fn lemma_nibble_tuple_round_trip(w: u16)
    ensures
        (spec_nibble(w, 3) as u16) * 0x1000 + (spec_nibble(w, 2) as u16) * 0x100 + (spec_nibble(
            w,
            1,
        ) as u16) * 0x10 + (spec_nibble(w, 0) as u16) == w,
{
    assert((spec_nibble(w, 3) as u16) * 0x1000 + (spec_nibble(w, 2) as u16) * 0x100 + (spec_nibble(
        w,
        1,
    ) as u16) * 0x10 + (spec_nibble(w, 0) as u16) == w) by (bit_vector);
}

} // verus!
