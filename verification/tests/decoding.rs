use chip8::opcode::{bit_slice, decode, get_nibble, Instr, Opcode};

#[test]
fn nibble_tuple_round_trips_packed_nibbles() {
    let op = Opcode(0xd123);
    assert_eq!(op.to_nibble_tuple(), (0xd, 0x1, 0x2, 0x3));
    let (n3, n2, n1, n0) = op.to_nibble_tuple();
    let repacked = (n3 as u16) * 0x1000 + (n2 as u16) * 0x100 + (n1 as u16) * 0x10 + (n0 as u16);
    assert_eq!(repacked, 0xd123);
    let op2 = Opcode(0x8ace);
    let (m3, m2, m1, m0) = op2.to_nibble_tuple();
    assert_eq!(
        (m3 as u16) * 0x1000 + (m2 as u16) * 0x100 + (m1 as u16) * 0x10 + (m0 as u16),
        0x8ace
    );
}

#[test]
fn operand_accessors() {
    let op = Opcode(0xd123);
    assert_eq!(op.reg1(), 0x1);
    assert_eq!(op.reg2(), 0x2);
    assert_eq!(op.byte(), 0x23);
    assert_eq!(op.nibble(), 0x3);
    assert_eq!(op.tribble(), 0x123);
}

#[test]
fn bit_slice_and_get_nibble() {
    assert_eq!(bit_slice(0xabcd, 0, 8), 0xcd);
    assert_eq!(bit_slice(0xabcd, 4, 8), 0xbc);
    assert_eq!(bit_slice(0xabcd, 0, 12), 0xbcd);
    assert_eq!(get_nibble(0xabcd, 0), 0xd);
    assert_eq!(get_nibble(0xabcd, 3), 0xa);
}

#[test]
fn decode_fixed_patterns() {
    assert_eq!(decode(0x00e0), Some(Instr::ClearScreen));
    assert_eq!(decode(0x00ee), Some(Instr::Return));
    assert_eq!(decode(0xe19e), Some(Instr::SkipKeyPressed(1)));
    assert_eq!(decode(0xe2a1), Some(Instr::SkipKeyNotPressed(2)));
    assert_eq!(decode(0xf307), Some(Instr::ReadDelay(3)));
    assert_eq!(decode(0xf40a), Some(Instr::WaitKey(4)));
    assert_eq!(decode(0xf515), Some(Instr::SetDelay(5)));
    assert_eq!(decode(0xf618), Some(Instr::SetSound(6)));
    assert_eq!(decode(0xf71e), Some(Instr::AddIndex(7)));
    assert_eq!(decode(0xf829), Some(Instr::FontGlyph(8)));
    assert_eq!(decode(0xf933), Some(Instr::StoreBcd(9)));
    assert_eq!(decode(0xfa55), Some(Instr::StoreRegs(10)));
    assert_eq!(decode(0xfb65), Some(Instr::LoadRegs(11)));
}

#[test]
fn decode_operand_patterns() {
    assert_eq!(decode(0x1abc), Some(Instr::Jump(0xabc)));
    assert_eq!(decode(0x2def), Some(Instr::Call(0xdef)));
    assert_eq!(decode(0x31fe), Some(Instr::SkipEqImm(1, 0xfe)));
    assert_eq!(decode(0x42ab), Some(Instr::SkipNeImm(2, 0xab)));
    assert_eq!(decode(0x5120), Some(Instr::SkipEqReg(1, 2)));
    assert_eq!(decode(0x6c80), Some(Instr::LoadImm(0xc, 0x80)));
    assert_eq!(decode(0x7d01), Some(Instr::AddImm(0xd, 0x01)));
    assert_eq!(decode(0x8120), Some(Instr::Move(1, 2)));
    assert_eq!(decode(0x8341), Some(Instr::Or(3, 4)));
    assert_eq!(decode(0x8562), Some(Instr::And(5, 6)));
    assert_eq!(decode(0x8783), Some(Instr::Xor(7, 8)));
    assert_eq!(decode(0x89a4), Some(Instr::AddReg(9, 0xa)));
    assert_eq!(decode(0x8bc5), Some(Instr::Sub(0xb, 0xc)));
    assert_eq!(decode(0x8d06), Some(Instr::ShiftRight(0xd)));
    assert_eq!(decode(0x8ef7), Some(Instr::RevSub(0xe, 0xf)));
    assert_eq!(decode(0x810e), Some(Instr::ShiftLeft(1)));
    assert_eq!(decode(0x9230), Some(Instr::SkipNeReg(2, 3)));
    assert_eq!(decode(0xa123), Some(Instr::LoadIndex(0x123)));
    assert_eq!(decode(0xb456), Some(Instr::JumpPlusV0(0x456)));
    assert_eq!(decode(0xc7ff), Some(Instr::Random(7, 0xff)));
    assert_eq!(decode(0xd125), Some(Instr::Draw(1, 2, 5)));
}

#[test]
fn decode_rejects_unmatched_words() {
    assert_eq!(decode(0x0000), None);
    assert_eq!(decode(0x00e1), None);
    assert_eq!(decode(0x5121), None);
    assert_eq!(decode(0x8128), None);
    assert_eq!(decode(0x9231), None);
    assert_eq!(decode(0xe19f), None);
    assert_eq!(decode(0xf3ff), None);
}
