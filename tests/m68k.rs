use macfmt::m68k::{decode, Addressing, BitOp, Condition, Direction, IndexReg, Instruction, Size, SizedImm, A, D};

#[test]
fn ori() {
    assert_eq!(decode(&[0x0001, 0x0036]), Some(Instruction::Ori(SizedImm::Byte(0x36), Addressing::DReg(D(1)))));
    assert_eq!(decode(&[0x0042, 0x0100]), Some(Instruction::Ori(SizedImm::Word(0x100), Addressing::DReg(D(2)))));
    assert_eq!(decode(&[0x0080, 0x00ff, 0xffff]), Some(Instruction::Ori(SizedImm::Long(0x00ff_ffff), Addressing::DReg(D(0)))));
    assert_eq!(decode(&[0x0038, 0x0070, 0xf100]), Some(Instruction::Ori(SizedImm::Byte(0x70), Addressing::AbsoluteShort(0xf100))));
    assert_eq!(decode(&[0x0078, 0x2005, 0xf100]), Some(Instruction::Ori(SizedImm::Word(0x2005), Addressing::AbsoluteShort(0xf100))));
    assert_eq!(decode(&[0x0011, 0x0080]), Some(Instruction::Ori(SizedImm::Byte(0x80), Addressing::Addr(A(1)))));
    assert_eq!(decode(&[0x0029, 0x0080, 0x002b]), Some(Instruction::Ori(SizedImm::Byte(0x80), Addressing::AddrDisplacement(A(1), 0x2b))));
    assert_eq!(decode(&[0x0019, 0x0080]), Some(Instruction::Ori(SizedImm::Byte(0x80), Addressing::AddrPostIncrement(A(1)))));
    assert_eq!(decode(&[0x0021, 0x0080]), Some(Instruction::Ori(SizedImm::Byte(0x80), Addressing::AddrPreDecrement(A(1)))));
    assert_eq!(decode(&[0x006c, 0x0777, 0x0004]), Some(Instruction::Ori(SizedImm::Word(0x0777), Addressing::AddrDisplacement(A(4), 4))));
    assert_eq!(decode(&[0x0032, 0x007f, 0x0000]), Some(Instruction::Ori(SizedImm::Byte(0x7f), Addressing::AddrIndex(0, A(2), IndexReg::DReg(D(0)), Size::Word))));
    assert_eq!(decode(&[0x0072, 0x07ff, 0x4010]), Some(Instruction::Ori(SizedImm::Word(0x7ff), Addressing::AddrIndex(0x10, A(2), IndexReg::DReg(D(4)), Size::Word))));
    assert_eq!(decode(&[0x007c, 0x0001]), Some(Instruction::OriSr(1)));
}

#[test]
fn andi() {
    assert_eq!(decode(&[0x0201, 0x0036]), Some(Instruction::Andi(SizedImm::Byte(0x36), Addressing::DReg(D(1)))));
    assert_eq!(decode(&[0x0242, 0x0100]), Some(Instruction::Andi(SizedImm::Word(0x100), Addressing::DReg(D(2)))));
    assert_eq!(decode(&[0x0280, 0x00ff, 0xffff]), Some(Instruction::Andi(SizedImm::Long(0xff_ffff), Addressing::DReg(D(0)))));
    assert_eq!(decode(&[0x0238, 0x0070, 0xf100]), Some(Instruction::Andi(SizedImm::Byte(0x70), Addressing::AbsoluteShort(0xf100))));
    assert_eq!(decode(&[0x0278, 0x2005, 0xf100]), Some(Instruction::Andi(SizedImm::Word(0x2005), Addressing::AbsoluteShort(0xf100))));
    assert_eq!(decode(&[0x211, 0x0080]), Some(Instruction::Andi(SizedImm::Byte(0x80), Addressing::Addr(A(1)))));
    assert_eq!(decode(&[0x0229, 0x0080, 0x002b]), Some(Instruction::Andi(SizedImm::Byte(0x80), Addressing::AddrDisplacement(A(1), 0x2b))));
    assert_eq!(decode(&[0x0219, 0x0080]), Some(Instruction::Andi(SizedImm::Byte(0x80), Addressing::AddrPostIncrement(A(1)))));
    assert_eq!(decode(&[0x221, 0x0080]), Some(Instruction::Andi(SizedImm::Byte(0x80), Addressing::AddrPreDecrement(A(1)))));
    assert_eq!(decode(&[0x026c, 0x0777, 0x0004]), Some(Instruction::Andi(SizedImm::Word(0x0777), Addressing::AddrDisplacement(A(4), 0x4))));
    assert_eq!(decode(&[0x0232, 0x007f, 0x0000]), Some(Instruction::Andi(SizedImm::Byte(0x7f), Addressing::AddrIndex(0x0, A(2), IndexReg::DReg(D(0)), Size::Word))));
    assert_eq!(decode(&[0x0272, 0x07ff, 0x4010]), Some(Instruction::Andi(SizedImm::Word(0x7ff), Addressing::AddrIndex(0x10, A(2), IndexReg::DReg(D(4)), Size::Word))));
    assert_eq!(decode(&[0x027c, 0xfffe]), Some(Instruction::AndiSr(0xfffe)));
}

#[test]
fn subi() {
    assert_eq!(decode(&[0x0401, 0x0020]), Some(Instruction::Subi(SizedImm::Byte(0x20), Addressing::DReg(D(1)))));
    assert_eq!(decode(&[0x0480, 0xffff, 0xe6ac]), Some(Instruction::Subi(SizedImm::Long(0xffffe6ac), Addressing::DReg(D(0)))));
    assert_eq!(decode(&[0x478, 0x1337, 0xf100]), Some(Instruction::Subi(SizedImm::Word(0x1337), Addressing::AbsoluteShort(0xf100))));
    assert_eq!(decode(&[0x479, 0x1337, 0xffff, 0xf100]), Some(Instruction::Subi(SizedImm::Word(0x1337), Addressing::AbsoluteWord(0xffff_f100))));
    assert_eq!(decode(&[0x4b8, 0x1965, 0x0917, 0xf100]), Some(Instruction::Subi(SizedImm::Long(0x1965_0917), Addressing::AbsoluteShort(0xf100))));
    assert_eq!(decode(&[0x0411, 0x0040]), Some(Instruction::Subi(SizedImm::Byte(0x40), Addressing::Addr(A(1)))));
    assert_eq!(decode(&[0x469, 0x0040, 0x001c]), Some(Instruction::Subi(SizedImm::Word(0x40), Addressing::AddrDisplacement(A(1), 0x1c))));
    assert_eq!(decode(&[0x4a9, 0x0000, 0x0500, 0x0064]), Some(Instruction::Subi(SizedImm::Long(0x500), Addressing::AddrDisplacement(A(1), 0x64))));
    assert_eq!(decode(&[0x419, 0x0040]), Some(Instruction::Subi(SizedImm::Byte(0x40), Addressing::AddrPostIncrement(A(1)))));
    assert_eq!(decode(&[0x421, 0x0040]), Some(Instruction::Subi(SizedImm::Byte(0x40), Addressing::AddrPreDecrement(A(1)))));
}

#[test]
fn addi() {
    assert_eq!(decode(&[0x0601, 0x0020]), Some(Instruction::Addi(SizedImm::Byte(0x20), Addressing::DReg(D(1)))));
    assert_eq!(decode(&[0x680, 0xffff, 0xe6ac]), Some(Instruction::Addi(SizedImm::Long(0xffff_e6ac), Addressing::DReg(D(0)))));
    assert_eq!(decode(&[0x0678, 0x1337, 0xf100]), Some(Instruction::Addi(SizedImm::Word(0x1337), Addressing::AbsoluteShort(0xf100))));
    assert_eq!(decode(&[0x0679, 0x1337, 0xffff, 0xf100]), Some(Instruction::Addi(SizedImm::Word(0x1337), Addressing::AbsoluteWord(0xfffff100))));
    assert_eq!(decode(&[0x06b8, 0x1965, 0x0917, 0xf100]), Some(Instruction::Addi(SizedImm::Long(0x1965_0917), Addressing::AbsoluteShort(0xf100))));
    assert_eq!(decode(&[0x611, 0x0040]), Some(Instruction::Addi(SizedImm::Byte(0x40), Addressing::Addr(A(1)))));
    assert_eq!(decode(&[0x0669, 0x0040, 0x001c]), Some(Instruction::Addi(SizedImm::Word(0x40), Addressing::AddrDisplacement(A(1), 0x1c))));
    assert_eq!(decode(&[0x06a9, 0x0000, 0x0500, 0x0064]), Some(Instruction::Addi(SizedImm::Long(0x500), Addressing::AddrDisplacement(A(1), 0x64))));
    assert_eq!(decode(&[0x0619, 0x0040]), Some(Instruction::Addi(SizedImm::Byte(0x40), Addressing::AddrPostIncrement(A(1)))));
    assert_eq!(decode(&[0x0621, 0x0040]), Some(Instruction::Addi(SizedImm::Byte(0x40), Addressing::AddrPreDecrement(A(1)))));
}

#[test]
fn eori() {
    assert_eq!(decode(&[0x0a47, 0x8810]), Some(Instruction::Eori(SizedImm::Word(0x8810), Addressing::DReg(D(7)))));
    assert_eq!(decode(&[0x0a38, 0x0080, 0xf00e]), Some(Instruction::Eori(SizedImm::Byte(0x80), Addressing::AbsoluteShort(0xf00e))));
    assert_eq!(decode(&[0x0a78, 0x3119, 0xf010]), Some(Instruction::Eori(SizedImm::Word(0x3119), Addressing::AbsoluteShort(0xf010))));
    assert_eq!(decode(&[0x0a85, 0x1000, 0x1000]), Some(Instruction::Eori(SizedImm::Long(0x10001000), Addressing::DReg(D(5)))));
    assert_eq!(decode(&[0x0a90, 0x0000, 0xffff]), Some(Instruction::Eori(SizedImm::Long(0xffff), Addressing::Addr(A(0)))));
    assert_eq!(decode(&[0x0aa8, 0x0000, 0xffff, 0x0040]), Some(Instruction::Eori(SizedImm::Long(0xffff), Addressing::AddrDisplacement(A(0), 0x40))));
    assert_eq!(decode(&[0xa98, 0x0000, 0xffff]), Some(Instruction::Eori(SizedImm::Long(0xffff), Addressing::AddrPostIncrement(A(0)))));
    assert_eq!(decode(&[0x0aa0, 0x000, 0xffff]), Some(Instruction::Eori(SizedImm::Long(0xffff), Addressing::AddrPreDecrement(A(0)))));
    assert_eq!(decode(&[0x0a7c, 0x0001]), Some(Instruction::EoriSr(0x0001)));
}

#[test]
fn cmpi() {
    assert_eq!(decode(&[0x0c38, 0x0026, 0xffe4]), Some(Instruction::Cmpi(SizedImm::Byte(0x26), Addressing::AbsoluteShort(0xffe4))));
    assert_eq!(decode(&[0x0c78, 0x4170, 0xffb0]), Some(Instruction::Cmpi(SizedImm::Word(0x4170), Addressing::AbsoluteShort(0xffb0))));
    assert_eq!(decode(&[0x0cb8, 0xfffe, 0x8000, 0xee9c]), Some(Instruction::Cmpi(SizedImm::Long(0xfffe8000), Addressing::AbsoluteShort(0xee9c))));
    assert_eq!(decode(&[0x0c79, 0x0003, 0xffff, 0xff08]), Some(Instruction::Cmpi(SizedImm::Word(0x3), Addressing::AbsoluteWord(0xffff_ff08))));
    assert_eq!(decode(&[0x0c00, 0x0002]), Some(Instruction::Cmpi(SizedImm::Byte(0x2), Addressing::DReg(D(0)))));
    assert_eq!(decode(&[0x0c43, 0x02e0]), Some(Instruction::Cmpi(SizedImm::Word(0x02e0), Addressing::DReg(D(3)))));
    assert_eq!(decode(&[0x0c82, 0x0000, 0x0000]), Some(Instruction::Cmpi(SizedImm::Long(0x0), Addressing::DReg(D(2)))));
    assert_eq!(decode(&[0x0c10, 0x0002]), Some(Instruction::Cmpi(SizedImm::Byte(0x2), Addressing::Addr(A(0)))));
    assert_eq!(decode(&[0x0c29, 0x0002, 0x0020]), Some(Instruction::Cmpi(SizedImm::Byte(0x2), Addressing::AddrDisplacement(A(1), 0x20))));
    assert_eq!(decode(&[0x0c68, 0x1044, 0x0010]), Some(Instruction::Cmpi(SizedImm::Word(0x1044), Addressing::AddrDisplacement(A(0), 0x10))));
    assert_eq!(decode(&[0x0c18, 0x0002]), Some(Instruction::Cmpi(SizedImm::Byte(0x2), Addressing::AddrPostIncrement(A(0)))));
    assert_eq!(decode(&[0x0c20, 0x0002]), Some(Instruction::Cmpi(SizedImm::Byte(0x2), Addressing::AddrPreDecrement(A(0)))));
}

#[test]
fn btst() {
    assert_eq!(decode(&[0x0838, 0x0006, 0xf604]), Some(Instruction::BitImm(BitOp::Tst, 6, Addressing::AbsoluteShort(0xf604))));
    assert_eq!(decode(&[0x801, 0x0004]), Some(Instruction::BitImm(BitOp::Tst, 4, Addressing::DReg(D(1)))));
    assert_eq!(decode(&[0x0810, 0x0006]), Some(Instruction::BitImm(BitOp::Tst, 6, Addressing::Addr(A(0)))));
    assert_eq!(decode(&[0x0828, 0x0006, 0x002a]), Some(Instruction::BitImm(BitOp::Tst, 6, Addressing::AddrDisplacement(A(0), 0x2a))));
    assert_eq!(decode(&[0x0d38, 0xf604]), Some(Instruction::Bit(BitOp::Tst, D(6), Addressing::AbsoluteShort(0xf604))));
    assert_eq!(decode(&[0x0d01]), Some(Instruction::Bit(BitOp::Tst, D(6), Addressing::DReg(D(1)))));
    assert_eq!(decode(&[0x0d10]), Some(Instruction::Bit(BitOp::Tst, D(6), Addressing::Addr(A(0)))));
    assert_eq!(decode(&[0x0d28, 0x002a]), Some(Instruction::Bit(BitOp::Tst, D(6), Addressing::AddrDisplacement(A(0), 0x2a))));
}

#[test]
fn bclr() {
    assert_eq!(decode(&[0x08b8, 0x0007, 0xe43d]), Some(Instruction::BitImm(BitOp::Clr, 7, Addressing::AbsoluteShort(0xe43d))));
    assert_eq!(decode(&[0x0882, 0x0007]), Some(Instruction::BitImm(BitOp::Clr, 7, Addressing::DReg(D(2)))));
    assert_eq!(decode(&[0x891, 0x0003]), Some(Instruction::BitImm(BitOp::Clr, 3, Addressing::Addr(A(1)))));
    assert_eq!(decode(&[0x08a9, 0x0003, 0x002a]), Some(Instruction::BitImm(BitOp::Clr, 3, Addressing::AddrDisplacement(A(1), 0x2a))));
    assert_eq!(decode(&[0x0db8, 0xe43d]), Some(Instruction::Bit(BitOp::Clr, D(6), Addressing::AbsoluteShort(0xe43d))));
    assert_eq!(decode(&[0x0d82]), Some(Instruction::Bit(BitOp::Clr, D(6), Addressing::DReg(D(2)))));
    assert_eq!(decode(&[0x0d90]), Some(Instruction::Bit(BitOp::Clr, D(6), Addressing::Addr(A(0)))));
    assert_eq!(decode(&[0x0da8, 0x002a]), Some(Instruction::Bit(BitOp::Clr, D(6), Addressing::AddrDisplacement(A(0), 0x2a))));
}

#[test]
fn bset() {
    assert_eq!(decode(&[0x08f8, 0x0003, 0xfe05]), Some(Instruction::BitImm(BitOp::SetBit, 3, Addressing::AbsoluteShort(0xfe05))));
    assert_eq!(decode(&[0x08c2, 0x0003]), Some(Instruction::BitImm(BitOp::SetBit, 3, Addressing::DReg(D(2)))));
    assert_eq!(decode(&[0x08d0, 0x0002]), Some(Instruction::BitImm(BitOp::SetBit, 2, Addressing::Addr(A(0)))));
    assert_eq!(decode(&[0x08e8, 0x0002, 0x002a]), Some(Instruction::BitImm(BitOp::SetBit, 2, Addressing::AddrDisplacement(A(0), 0x2a))));
    assert_eq!(decode(&[0x01f8, 0xfe05]), Some(Instruction::Bit(BitOp::SetBit, D(0), Addressing::AbsoluteShort(0xfe05))));
    assert_eq!(decode(&[0x01c2]), Some(Instruction::Bit(BitOp::SetBit, D(0), Addressing::DReg(D(2)))));
    assert_eq!(decode(&[0x01d2]), Some(Instruction::Bit(BitOp::SetBit, D(0), Addressing::Addr(A(2)))));
    assert_eq!(decode(&[0x01ea, 0x002a]), Some(Instruction::Bit(BitOp::SetBit, D(0), Addressing::AddrDisplacement(A(2), 0x2a))));
}

#[test]
fn bchg() {
    assert_eq!(decode(&[0x0878, 0x0004, 0xffb2]), Some(Instruction::BitImm(BitOp::Chg, 4, Addressing::AbsoluteShort(0xffb2))));
    assert_eq!(decode(&[0x0842, 0x0004]), Some(Instruction::BitImm(BitOp::Chg, 4, Addressing::DReg(D(2)))));
    assert_eq!(decode(&[0x0853, 0x0004]), Some(Instruction::BitImm(BitOp::Chg, 4, Addressing::Addr(A(3)))));
    assert_eq!(decode(&[0x086b, 0x0004, 0x002a]), Some(Instruction::BitImm(BitOp::Chg, 4, Addressing::AddrDisplacement(A(3), 0x2a))));
    assert_eq!(decode(&[0x0778, 0xffb2]), Some(Instruction::Bit(BitOp::Chg, D(3), Addressing::AbsoluteShort(0xffb2))));
    assert_eq!(decode(&[0x0742]), Some(Instruction::Bit(BitOp::Chg, D(3), Addressing::DReg(D(2)))));
    assert_eq!(decode(&[0x0753]), Some(Instruction::Bit(BitOp::Chg, D(3), Addressing::Addr(A(3)))));
    assert_eq!(decode(&[0x076b, 0x002a]), Some(Instruction::Bit(BitOp::Chg, D(3), Addressing::AddrDisplacement(A(3), 0x2a))));
}

#[test]
fn movep() {
    assert_eq!(decode(&[0x0708, 0x0000]), Some(Instruction::Movep(Size::Word, Direction::ToMemory, D(3), A(0), 0)));
    assert_eq!(decode(&[0x0748, 0x0000]), Some(Instruction::Movep(Size::Long, Direction::ToMemory, D(3), A(0), 0)));
    assert_eq!(decode(&[0x0588, 0x0000]), Some(Instruction::Movep(Size::Word, Direction::ToRegister, D(2), A(0), 0)));
    assert_eq!(decode(&[0x05c8, 0x0000]), Some(Instruction::Movep(Size::Long, Direction::ToRegister, D(2), A(0), 0)));
}

#[test]
fn move_instructions() {
    assert_eq!(decode(&[0x11fc, 0x0064, 0xffe0]), Some(Instruction::Move(Size::Byte, Addressing::ImmediateByte(0x64), Addressing::AbsoluteShort(0xffe0))));
    assert_eq!(decode(&[0x31fc, 0x03e8, 0xffe0]), Some(Instruction::Move(Size::Word, Addressing::ImmediateWord(0x03e8), Addressing::AbsoluteShort(0xffe0))));
    assert_eq!(decode(&[0x21fc, 0x05f5, 0xe100, 0xffe0]), Some(Instruction::Move(Size::Long, Addressing::ImmediateLong(0x05f5_e100), Addressing::AbsoluteShort(0xffe0))));
    assert_eq!(decode(&[0x123c, 0x0020]), Some(Instruction::Move(Size::Byte, Addressing::ImmediateByte(0x20), Addressing::DReg(D(1)))));
    assert_eq!(decode(&[0x203c, 0x6000, 0x0003]), Some(Instruction::Move(Size::Long, Addressing::ImmediateLong(0x6000_0003), Addressing::DReg(D(0)))));
    assert_eq!(decode(&[0x32bc, 0x0101]), Some(Instruction::Move(Size::Word, Addressing::ImmediateWord(0x101), Addressing::Addr(A(1)))));
    assert_eq!(decode(&[0x157c, 0x003c, 0x0002]), Some(Instruction::Move(Size::Byte, Addressing::ImmediateByte(0x3c), Addressing::AddrDisplacement(A(2), 0x2))));
    assert_eq!(decode(&[0x337c, 0x2fa0, 0x0010]), Some(Instruction::Move(Size::Word, Addressing::ImmediateWord(0x2fa0), Addressing::AddrDisplacement(A(1), 0x10))));
    assert_eq!(decode(&[0x36fc, 0x0000]), Some(Instruction::Move(Size::Word, Addressing::ImmediateWord(0), Addressing::AddrPostIncrement(A(3)))));
    assert_eq!(decode(&[0x373c, 0x0000]), Some(Instruction::Move(Size::Word, Addressing::ImmediateWord(0), Addressing::AddrPreDecrement(A(3)))));
    assert_eq!(decode(&[0x31f8, 0xff0a, 0xff08]), Some(Instruction::Move(Size::Word, Addressing::AbsoluteShort(0xff0a), Addressing::AbsoluteShort(0xff08))));
    assert_eq!(decode(&[0x33f8, 0xff0a, 0xffff, 0xff08]), Some(Instruction::Move(Size::Word, Addressing::AbsoluteShort(0xff0a), Addressing::AbsoluteWord(0xffff_ff08))));
    assert_eq!(decode(&[0x31f9, 0xffff, 0x01a5, 0xffe0]), Some(Instruction::Move(Size::Word, Addressing::AbsoluteWord(0xffff_01a5), Addressing::AbsoluteShort(0xffe0))));
    assert_eq!(decode(&[0x3038, 0xee18]), Some(Instruction::Move(Size::Word, Addressing::AbsoluteShort(0xee18), Addressing::DReg(D(0)))));
    assert_eq!(decode(&[0x10b8, 0xff0b]), Some(Instruction::Move(Size::Byte, Addressing::AbsoluteShort(0xff0b), Addressing::Addr(A(0)))));
    assert_eq!(decode(&[0x1178, 0xff0b, 0x0022]), Some(Instruction::Move(Size::Byte, Addressing::AbsoluteShort(0xff0b), Addressing::AddrDisplacement(A(0), 0x22))));
    assert_eq!(decode(&[0x10f8, 0xff0b]), Some(Instruction::Move(Size::Byte, Addressing::AbsoluteShort(0xff0b), Addressing::AddrPostIncrement(A(0)))));
    assert_eq!(decode(&[0x1138, 0xff0b]), Some(Instruction::Move(Size::Byte, Addressing::AbsoluteShort(0xff0b), Addressing::AddrPreDecrement(A(0)))));
    assert_eq!(decode(&[0x11c0, 0xf604]), Some(Instruction::Move(Size::Byte, Addressing::DReg(D(0)), Addressing::AbsoluteShort(0xf604))));
    assert_eq!(decode(&[0x23c1, 0xffff, 0xffe0]), Some(Instruction::Move(Size::Long, Addressing::DReg(D(1)), Addressing::AbsoluteWord(0xffff_ffe0))));
    assert_eq!(decode(&[0x3601]), Some(Instruction::Move(Size::Word, Addressing::DReg(D(1)), Addressing::DReg(D(3)))));
    assert_eq!(decode(&[0x2e00]), Some(Instruction::Move(Size::Long, Addressing::DReg(D(0)), Addressing::DReg(D(7)))));
    assert_eq!(decode(&[0x3c80]), Some(Instruction::Move(Size::Word, Addressing::DReg(D(0)), Addressing::Addr(A(6)))));
    assert_eq!(decode(&[0x1143, 0x0026]), Some(Instruction::Move(Size::Byte, Addressing::DReg(D(3)), Addressing::AddrDisplacement(A(0), 0x26))));
    assert_eq!(decode(&[0x34c3]), Some(Instruction::Move(Size::Word, Addressing::DReg(D(3)), Addressing::AddrPostIncrement(A(2)))));
    assert_eq!(decode(&[0x3503]), Some(Instruction::Move(Size::Word, Addressing::DReg(D(3)), Addressing::AddrPreDecrement(A(2)))));
    assert_eq!(decode(&[0x1213]), Some(Instruction::Move(Size::Byte, Addressing::Addr(A(3)), Addressing::DReg(D(1)))));
    assert_eq!(decode(&[0x1893]), Some(Instruction::Move(Size::Byte, Addressing::Addr(A(3)), Addressing::Addr(A(4)))));
    assert_eq!(decode(&[0x1551, 0x0003]), Some(Instruction::Move(Size::Byte, Addressing::Addr(A(1)), Addressing::AddrDisplacement(A(2), 3))));
    assert_eq!(decode(&[0x2550, 0x0080]), Some(Instruction::Move(Size::Long, Addressing::Addr(A(0)), Addressing::AddrDisplacement(A(2), 0x80))));
    assert_eq!(decode(&[0x18d3]), Some(Instruction::Move(Size::Byte, Addressing::Addr(A(3)), Addressing::AddrPostIncrement(A(4)))));
    assert_eq!(decode(&[0x1913]), Some(Instruction::Move(Size::Byte, Addressing::Addr(A(3)), Addressing::AddrPreDecrement(A(4)))));
    assert_eq!(decode(&[0x31e8, 0x0034, 0xff08]), Some(Instruction::Move(Size::Word, Addressing::AddrDisplacement(A(0), 0x34), Addressing::AbsoluteShort(0xff08))));
    assert_eq!(decode(&[0x1029, 0x0008]), Some(Instruction::Move(Size::Byte, Addressing::AddrDisplacement(A(1), 0x8), Addressing::DReg(D(0)))));
    assert_eq!(decode(&[0x1c28, 0x0026]), Some(Instruction::Move(Size::Byte, Addressing::AddrDisplacement(A(0), 0x26), Addressing::DReg(D(6)))));
    assert_eq!(decode(&[0x2629, 0x0064]), Some(Instruction::Move(Size::Long, Addressing::AddrDisplacement(A(1), 0x64), Addressing::DReg(D(3)))));
    assert_eq!(decode(&[0x14aa, 0x0001]), Some(Instruction::Move(Size::Byte, Addressing::AddrDisplacement(A(2), 0x1), Addressing::Addr(A(2)))));
    assert_eq!(decode(&[0x156a, 0x0003, 0x0002]), Some(Instruction::Move(Size::Byte, Addressing::AddrDisplacement(A(2), 0x3), Addressing::AddrDisplacement(A(2), 0x2))));
    assert_eq!(decode(&[0x3569, 0x0014, 0x0054]), Some(Instruction::Move(Size::Word, Addressing::AddrDisplacement(A(1), 0x14), Addressing::AddrDisplacement(A(2), 0x54))));
    assert_eq!(decode(&[0x2569, 0x0010, 0x0050]), Some(Instruction::Move(Size::Long, Addressing::AddrDisplacement(A(1), 0x10), Addressing::AddrDisplacement(A(2), 0x50))));
    assert_eq!(decode(&[0x14ea, 0x0001]), Some(Instruction::Move(Size::Byte, Addressing::AddrDisplacement(A(2), 0x1), Addressing::AddrPostIncrement(A(2)))));
    assert_eq!(decode(&[0x152a, 0x0001]), Some(Instruction::Move(Size::Byte, Addressing::AddrDisplacement(A(2), 0x1), Addressing::AddrPreDecrement(A(2)))));
    assert_eq!(decode(&[0x11dc, 0xffb2]), Some(Instruction::Move(Size::Byte, Addressing::AddrPostIncrement(A(4)), Addressing::AbsoluteShort(0xffb2))));
    assert_eq!(decode(&[0x101c]), Some(Instruction::Move(Size::Byte, Addressing::AddrPostIncrement(A(4)), Addressing::DReg(D(0)))));
    assert_eq!(decode(&[0x201c]), Some(Instruction::Move(Size::Long, Addressing::AddrPostIncrement(A(4)), Addressing::DReg(D(0)))));
    assert_eq!(decode(&[0x2298]), Some(Instruction::Move(Size::Long, Addressing::AddrPostIncrement(A(0)), Addressing::Addr(A(1)))));
    assert_eq!(decode(&[0x2559, 0x0074]), Some(Instruction::Move(Size::Long, Addressing::AddrPostIncrement(A(1)), Addressing::AddrDisplacement(A(2), 0x74))));
    assert_eq!(decode(&[0x22d8]), Some(Instruction::Move(Size::Long, Addressing::AddrPostIncrement(A(0)), Addressing::AddrPostIncrement(A(1)))));
    assert_eq!(decode(&[0x1023]), Some(Instruction::Move(Size::Byte, Addressing::AddrPreDecrement(A(3)), Addressing::DReg(D(0)))));
    assert_eq!(decode(&[0x3024]), Some(Instruction::Move(Size::Word, Addressing::AddrPreDecrement(A(4)), Addressing::DReg(D(0)))));
    assert_eq!(decode(&[0x3325]), Some(Instruction::Move(Size::Word, Addressing::AddrPreDecrement(A(5)), Addressing::AddrPreDecrement(A(1)))));
    assert_eq!(decode(&[0x21c9, 0xe446]), Some(Instruction::Move(Size::Long, Addressing::AReg(A(1)), Addressing::AbsoluteShort(0xe446))));
    assert_eq!(decode(&[0x2009]), Some(Instruction::Move(Size::Long, Addressing::AReg(A(1)), Addressing::DReg(D(0)))));
    assert_eq!(decode(&[0x2089]), Some(Instruction::Move(Size::Long, Addressing::AReg(A(1)), Addressing::Addr(A(0)))));
    assert_eq!(decode(&[0x314a, 0x003c]), Some(Instruction::Move(Size::Word, Addressing::AReg(A(2)), Addressing::AddrDisplacement(A(0), 0x3c))));
    assert_eq!(decode(&[0x2e8a]), Some(Instruction::Move(Size::Long, Addressing::AReg(A(2)), Addressing::Addr(A(7)))));
    assert_eq!(decode(&[0x2eca]), Some(Instruction::Move(Size::Long, Addressing::AReg(A(2)), Addressing::AddrPostIncrement(A(7)))));
    assert_eq!(decode(&[0x2f0a]), Some(Instruction::Move(Size::Long, Addressing::AReg(A(2)), Addressing::AddrPreDecrement(A(7)))));
    assert_eq!(decode(&[0x11f2, 0x6014, 0xe446]), Some(Instruction::Move(Size::Byte, Addressing::AddrIndex(0x14, A(2), IndexReg::DReg(D(6)), Size::Word), Addressing::AbsoluteShort(0xe446))));
    assert_eq!(decode(&[0x1232, 0x0000]), Some(Instruction::Move(Size::Byte, Addressing::AddrIndex(0, A(2), IndexReg::DReg(D(0)), Size::Word), Addressing::DReg(D(1)))));
    assert_eq!(decode(&[0x3c34, 0x0004]), Some(Instruction::Move(Size::Word, Addressing::AddrIndex(0x4, A(4), IndexReg::DReg(D(0)), Size::Word), Addressing::DReg(D(6)))));
    assert_eq!(decode(&[0x1833, 0x401d]), Some(Instruction::Move(Size::Byte, Addressing::AddrIndex(0x1d, A(3), IndexReg::DReg(D(4)), Size::Word), Addressing::DReg(D(4)))));
    assert_eq!(decode(&[0x16b2, 0x2000]), Some(Instruction::Move(Size::Byte, Addressing::AddrIndex(0, A(2), IndexReg::DReg(D(2)), Size::Word), Addressing::Addr(A(3)))));
    assert_eq!(decode(&[0x1772, 0x6014, 0x003c]), Some(Instruction::Move(Size::Byte, Addressing::AddrIndex(0x14, A(2), IndexReg::DReg(D(6)), Size::Word), Addressing::AddrDisplacement(A(3), 0x3c))));
    assert_eq!(decode(&[0x16f2, 0x2000]), Some(Instruction::Move(Size::Byte, Addressing::AddrIndex(0, A(2), IndexReg::DReg(D(2)), Size::Word), Addressing::AddrPostIncrement(A(3)))));
    assert_eq!(decode(&[0x1732, 0x2000]), Some(Instruction::Move(Size::Byte, Addressing::AddrIndex(0, A(2), IndexReg::DReg(D(2)), Size::Word), Addressing::AddrPreDecrement(A(3)))));
    assert_eq!(decode(&[0x11fb, 0x305e, 0xe446]), Some(Instruction::Move(Size::Byte, Addressing::PcIndex(0x5e, IndexReg::DReg(D(3)), Size::Word), Addressing::AbsoluteShort(0xe446))));
    assert_eq!(decode(&[0x143b, 0x005e]), Some(Instruction::Move(Size::Byte, Addressing::PcIndex(0x5e, IndexReg::DReg(D(0)), Size::Word), Addressing::DReg(D(2)))));
    assert_eq!(decode(&[0x12bb, 0x005e]), Some(Instruction::Move(Size::Byte, Addressing::PcIndex(0x5e, IndexReg::DReg(D(0)), Size::Word), Addressing::Addr(A(1)))));
    assert_eq!(decode(&[0x137b, 0x005e, 0x0022]), Some(Instruction::Move(Size::Byte, Addressing::PcIndex(0x5e, IndexReg::DReg(D(0)), Size::Word), Addressing::AddrDisplacement(A(1), 0x22))));
    assert_eq!(decode(&[0x46fc, 0x2700]), Some(Instruction::MoveToSr(Addressing::ImmediateWord(0x2700))));
}

#[test]
fn movea() {
    assert_eq!(decode(&[0x387c, 0x6000]), Some(Instruction::Movea(Size::Word, Addressing::ImmediateWord(0x6000), A(4))));
    assert_eq!(decode(&[0x3878, 0xee4a]), Some(Instruction::Movea(Size::Word, Addressing::AbsoluteShort(0xee4a), A(4))));
    assert_eq!(decode(&[0x3841]), Some(Instruction::Movea(Size::Word, Addressing::DReg(D(1)), A(4))));
    assert_eq!(decode(&[0x2c4a]), Some(Instruction::Movea(Size::Long, Addressing::AReg(A(2)), A(6))));
    assert_eq!(decode(&[0x3253]), Some(Instruction::Movea(Size::Word, Addressing::Addr(A(3)), A(1))));
    assert_eq!(decode(&[0x326b, 0x002c]), Some(Instruction::Movea(Size::Word, Addressing::AddrDisplacement(A(3), 0x2c), A(1))));
    assert_eq!(decode(&[0x2459]), Some(Instruction::Movea(Size::Long, Addressing::AddrPostIncrement(A(1)), A(2))));
    assert_eq!(decode(&[0x2461]), Some(Instruction::Movea(Size::Long, Addressing::AddrPreDecrement(A(1)), A(2))));
    assert_eq!(decode(&[0x2457]), Some(Instruction::Movea(Size::Long, Addressing::Addr(A(7)), A(2))));
    assert_eq!(decode(&[0x245f]), Some(Instruction::Movea(Size::Long, Addressing::AddrPostIncrement(A(7)), A(2))));
    assert_eq!(decode(&[0x2467]), Some(Instruction::Movea(Size::Long, Addressing::AddrPreDecrement(A(7)), A(2))));
    assert_eq!(decode(&[0x2674, 0x0000]), Some(Instruction::Movea(Size::Long, Addressing::AddrIndex(0x00, A(4), IndexReg::DReg(D(0)), Size::Word), A(3))));
    assert_eq!(decode(&[0x2674, 0x0018]), Some(Instruction::Movea(Size::Long, Addressing::AddrIndex(0x18, A(4), IndexReg::DReg(D(0)), Size::Word), A(3))));
}

#[test]
fn clr() {
    assert_eq!(decode(&[0x4242]), Some(Instruction::Clr(Size::Word, Addressing::DReg(D(2)))));
    assert_eq!(decode(&[0x4280]), Some(Instruction::Clr(Size::Long, Addressing::DReg(D(0)))));
    assert_eq!(decode(&[0x4278, 0x8500]), Some(Instruction::Clr(Size::Word, Addressing::AbsoluteShort(0x8500))));
    assert_eq!(decode(&[0x4228, 0x003c]), Some(Instruction::Clr(Size::Byte, Addressing::AddrDisplacement(A(0), 0x3c))));
    assert_eq!(decode(&[0x4268, 0x001a]), Some(Instruction::Clr(Size::Word, Addressing::AddrDisplacement(A(0), 0x1a))));
    assert_eq!(decode(&[0x4291]), Some(Instruction::Clr(Size::Long, Addressing::Addr(A(1)))));
    assert_eq!(decode(&[0x42a9, 0x0004]), Some(Instruction::Clr(Size::Long, Addressing::AddrDisplacement(A(1), 0x4))));
    assert_eq!(decode(&[0x4299]), Some(Instruction::Clr(Size::Long, Addressing::AddrPostIncrement(A(1)))));
    assert_eq!(decode(&[0x42a1]), Some(Instruction::Clr(Size::Long, Addressing::AddrPreDecrement(A(1)))));
}

#[test]
fn neg() {
    assert_eq!(decode(&[0x4478, 0xfe26]), Some(Instruction::Neg(Size::Word, Addressing::AbsoluteShort(0xfe26))));
    assert_eq!(decode(&[0x4480]), Some(Instruction::Neg(Size::Long, Addressing::DReg(D(0)))));
    assert_eq!(decode(&[0x4451]), Some(Instruction::Neg(Size::Word, Addressing::Addr(A(1)))));
    assert_eq!(decode(&[0x4469, 0x001a]), Some(Instruction::Neg(Size::Word, Addressing::AddrDisplacement(A(1), 0x1a))));
    assert_eq!(decode(&[0x4459]), Some(Instruction::Neg(Size::Word, Addressing::AddrPostIncrement(A(1)))));
    assert_eq!(decode(&[0x4461]), Some(Instruction::Neg(Size::Word, Addressing::AddrPreDecrement(A(1)))));
}

#[test]
fn not() {
    assert_eq!(decode(&[0x4678, 0xfe26]), Some(Instruction::Not(Size::Word, Addressing::AbsoluteShort(0xfe26))));
    assert_eq!(decode(&[0x4680]), Some(Instruction::Not(Size::Long, Addressing::DReg(D(0)))));
    assert_eq!(decode(&[0x4651]), Some(Instruction::Not(Size::Word, Addressing::Addr(A(1)))));
    assert_eq!(decode(&[0x4669, 0x001a]), Some(Instruction::Not(Size::Word, Addressing::AddrDisplacement(A(1), 0x1a))));
    assert_eq!(decode(&[0x4659]), Some(Instruction::Not(Size::Word, Addressing::AddrPostIncrement(A(1)))));
    assert_eq!(decode(&[0x4661]), Some(Instruction::Not(Size::Word, Addressing::AddrPreDecrement(A(1)))));
}

#[test]
fn swap() {
    assert_eq!(decode(&[0x4840]), Some(Instruction::Swap(D(0))));
}

#[test]
fn ext() {
    assert_eq!(decode(&[0x4880]), Some(Instruction::Ext(Size::Word, D(0))));
    assert_eq!(decode(&[0x48c1]), Some(Instruction::Ext(Size::Long, D(1))));
}

#[test]
fn pea() {
    assert_eq!(decode(&[0x4878, 0xe53c]), Some(Instruction::Pea(Addressing::AbsoluteShort(0xe53c))));
    assert_eq!(decode(&[0x4852]), Some(Instruction::Pea(Addressing::Addr(A(2)))));
    assert_eq!(decode(&[0x4868, 0x002a]), Some(Instruction::Pea(Addressing::AddrDisplacement(A(0), 0x2a))));
}

#[test]
fn illegal() {
    assert_eq!(decode(&[0x4afc]), Some(Instruction::Illegal));
}

#[test]
fn tas() {
    assert_eq!(decode(&[0x4af8, 0xfe00]), Some(Instruction::Tas(Addressing::AbsoluteShort(0xfe00))));
    assert_eq!(decode(&[0x4ac1]), Some(Instruction::Tas(Addressing::DReg(D(1)))));
    assert_eq!(decode(&[0x4ad2]), Some(Instruction::Tas(Addressing::Addr(A(2)))));
    assert_eq!(decode(&[0x4ae8, 0x002a]), Some(Instruction::Tas(Addressing::AddrDisplacement(A(0), 0x2a))));
}

#[test]
fn tst() {
    assert_eq!(decode(&[0x4a04]), Some(Instruction::Tst(Size::Byte, Addressing::DReg(D(4)))));
    assert_eq!(decode(&[0x4a81]), Some(Instruction::Tst(Size::Long, Addressing::DReg(D(1)))));
    assert_eq!(decode(&[0x4a38, 0xaa80]), Some(Instruction::Tst(Size::Byte, Addressing::AbsoluteShort(0xaa80))));
    assert_eq!(decode(&[0x4a78, 0xaa80]), Some(Instruction::Tst(Size::Word, Addressing::AbsoluteShort(0xaa80))));
    assert_eq!(decode(&[0x4a79, 0x00a1, 0x000c]), Some(Instruction::Tst(Size::Word, Addressing::AbsoluteWord(0xa1000c))));
    assert_eq!(decode(&[0x4ab9, 0x00a1, 0x0008]), Some(Instruction::Tst(Size::Long, Addressing::AbsoluteWord(0xa10008))));
    assert_eq!(decode(&[0x4a54]), Some(Instruction::Tst(Size::Word, Addressing::Addr(A(4)))));
    assert_eq!(decode(&[0x4a69, 0x001a]), Some(Instruction::Tst(Size::Word, Addressing::AddrDisplacement(A(1), 0x1a))));
}

#[test]
fn trap() {
    assert_eq!(decode(&[0x4e41]), Some(Instruction::Trap(1)));
}

#[test]
fn trapv() {
    assert_eq!(decode(&[0x4e76]), Some(Instruction::Trapv));
}

#[test]
fn link() {
    assert_eq!(decode(&[0x4e54, 0x1087]), Some(Instruction::Link(A(4), 0x1087)));
}

#[test]
fn unlk() {
    assert_eq!(decode(&[0x4e58]), Some(Instruction::Unlk(A(0))));
}

#[test]
fn nop() {
    assert_eq!(decode(&[0x4e71]), Some(Instruction::Nop));
}

#[test]
fn stop() {
    assert_eq!(decode(&[0x4e72, 0x2500]), Some(Instruction::Stop(0x2500)));
}

#[test]
fn rte() {
    assert_eq!(decode(&[0x4e73]), Some(Instruction::Rte));
}

#[test]
fn rtr() {
    assert_eq!(decode(&[0x4e77]), Some(Instruction::Rtr));
}

#[test]
fn rts() {
    assert_eq!(decode(&[0x4e75]), Some(Instruction::Rts));
}

#[test]
fn jsr() {
    assert_eq!(decode(&[0x4eb9, 0x0004, 0xb98c]), Some(Instruction::Jsr(Addressing::AbsoluteWord(0x4b98c))));
}

#[test]
fn jmp() {
    assert_eq!(decode(&[0x4ed1]), Some(Instruction::Jmp(Addressing::Addr(A(1)))));
    assert_eq!(decode(&[0x4ee9, 0x0010]), Some(Instruction::Jmp(Addressing::AddrDisplacement(A(1), 0x10))));
    assert_eq!(decode(&[0x4ef9, 0x0006, 0x5a70]), Some(Instruction::Jmp(Addressing::AbsoluteWord(0x65a70))));
}

#[test]
fn lea() {
    assert_eq!(decode(&[0x41f8, 0xfff4]), Some(Instruction::Lea(Addressing::AbsoluteShort(0xfff4), A(0))));
    assert_eq!(decode(&[0x43f9, 0xffff, 0x7cc0]), Some(Instruction::Lea(Addressing::AbsoluteWord(0xffff_7cc0), A(1))));
    assert_eq!(decode(&[0x45d6]), Some(Instruction::Lea(Addressing::Addr(A(6)), A(2))));
    assert_eq!(decode(&[0x43e9, 0x0130]), Some(Instruction::Lea(Addressing::AddrDisplacement(A(1), 0x130), A(1))));
    assert_eq!(decode(&[0x45f3, 0x3000]), Some(Instruction::Lea(Addressing::AddrIndex(0x0, A(3), IndexReg::DReg(D(3)), Size::Word), A(2))));
}

#[test]
fn scc() {
    assert_eq!(decode(&[0x50f8, 0xf000]), Some(Instruction::S(Condition::True, Addressing::AbsoluteShort(0xf000))));
    assert_eq!(decode(&[0x51f8, 0xf000]), Some(Instruction::S(Condition::False, Addressing::AbsoluteShort(0xf000))));
    assert_eq!(decode(&[0x52f8, 0xf000]), Some(Instruction::S(Condition::Higher, Addressing::AbsoluteShort(0xf000))));
    assert_eq!(decode(&[0x53f8, 0xf000]), Some(Instruction::S(Condition::LowerOrSame, Addressing::AbsoluteShort(0xf000))));
    assert_eq!(decode(&[0x54f8, 0xf000]), Some(Instruction::S(Condition::CarryClear, Addressing::AbsoluteShort(0xf000))));
    assert_eq!(decode(&[0x55f8, 0xf000]), Some(Instruction::S(Condition::CarrySet, Addressing::AbsoluteShort(0xf000))));
    assert_eq!(decode(&[0x56f8, 0xf000]), Some(Instruction::S(Condition::NotEqual, Addressing::AbsoluteShort(0xf000))));
    assert_eq!(decode(&[0x57f8, 0xf000]), Some(Instruction::S(Condition::Equal, Addressing::AbsoluteShort(0xf000))));
    assert_eq!(decode(&[0x58f8, 0xf000]), Some(Instruction::S(Condition::OverflowClear, Addressing::AbsoluteShort(0xf000))));
    assert_eq!(decode(&[0x59f8, 0xf000]), Some(Instruction::S(Condition::OverflowSet, Addressing::AbsoluteShort(0xf000))));
    assert_eq!(decode(&[0x5af8, 0xf000]), Some(Instruction::S(Condition::Plus, Addressing::AbsoluteShort(0xf000))));
    assert_eq!(decode(&[0x5bf8, 0xf000]), Some(Instruction::S(Condition::Minus, Addressing::AbsoluteShort(0xf000))));
    assert_eq!(decode(&[0x5cf8, 0xf000]), Some(Instruction::S(Condition::GreaterOrEqual, Addressing::AbsoluteShort(0xf000))));
    assert_eq!(decode(&[0x5df8, 0xf000]), Some(Instruction::S(Condition::LessThan, Addressing::AbsoluteShort(0xf000))));
    assert_eq!(decode(&[0x5ef8, 0xf000]), Some(Instruction::S(Condition::GreaterThan, Addressing::AbsoluteShort(0xf000))));
    assert_eq!(decode(&[0x5ff8, 0xf000]), Some(Instruction::S(Condition::LessOrEqual, Addressing::AbsoluteShort(0xf000))));
}

#[test]
fn dbcc() {
    assert_eq!(decode(&[0x51c8, 0x556a]), Some(Instruction::Db(Condition::False, D(0), 0x556a)));
    assert_eq!(decode(&[0x51cb, 0xffa0]), Some(Instruction::Db(Condition::False, D(3), 0xffa0)));
    assert_eq!(decode(&[0x57c9, 0xfffc]), Some(Instruction::Db(Condition::Equal, D(1), 0xfffc)));
    assert_eq!(decode(&[0x5bcc, 0xffdc]), Some(Instruction::Db(Condition::Minus, D(4), 0xffdc)));
}

#[test]
fn branches() {
    assert_eq!(decode(&[0x6024]), Some(Instruction::Bra(0x24)));
    assert_eq!(decode(&[0x6000, 0x4e1a]), Some(Instruction::Bra(0x4e1a)));
    assert_eq!(decode(&[0x6110]), Some(Instruction::Bsr(0x10)));
    assert_eq!(decode(&[0x6510]), Some(Instruction::B(Condition::CarrySet, 0x10)));
}

#[test]
fn moveq() {
    assert_eq!(decode(&[0x7280]), Some(Instruction::Moveq(0x80, D(1))));
}

#[test]
fn divs() {
    assert_eq!(decode(&[0x81fc, 0x000a]), Some(Instruction::Divs(Addressing::ImmediateWord(0xa), D(0))));
}

#[test]
fn divu() {
    assert_eq!(decode(&[0x82f8, 0xf314]), Some(Instruction::Divu(Addressing::AbsoluteShort(0xf314), D(1))));
    assert_eq!(decode(&[0x82c1]), Some(Instruction::Divu(Addressing::DReg(D(1)), D(1))));
    assert_eq!(decode(&[0x82d1]), Some(Instruction::Divu(Addressing::Addr(A(1)), D(1))));
    assert_eq!(decode(&[0x82e8, 0x0004]), Some(Instruction::Divu(Addressing::AddrDisplacement(A(0), 4), D(1))));
    assert_eq!(decode(&[0x82d9]), Some(Instruction::Divu(Addressing::AddrPostIncrement(A(1)), D(1))));
    assert_eq!(decode(&[0x82e1]), Some(Instruction::Divu(Addressing::AddrPreDecrement(A(1)), D(1))));
}

#[test]
fn lib_ori() {
    assert_eq!(decode(&[0x0001, 0x0036]), Some(Instruction::Ori(SizedImm::Byte(0x36), Addressing::DReg(D(1)))));
    assert_eq!(decode(&[0x0042, 0x0100]), Some(Instruction::Ori(SizedImm::Word(0x100), Addressing::DReg(D(2)))));
    assert_eq!(decode(&[0x0080, 0x00ff, 0xffff]), Some(Instruction::Ori(SizedImm::Long(0x00ff_ffff), Addressing::DReg(D(0)))));
    assert_eq!(decode(&[0x0038, 0x0070, 0xf100]), Some(Instruction::Ori(SizedImm::Byte(0x70), Addressing::AbsoluteShort(0xf100))));
    assert_eq!(decode(&[0x0078, 0x2005, 0xf100]), Some(Instruction::Ori(SizedImm::Word(0x2005), Addressing::AbsoluteShort(0xf100))));
    assert_eq!(decode(&[0x0011, 0x0080]), Some(Instruction::Ori(SizedImm::Byte(0x80), Addressing::Addr(A(1)))));
    assert_eq!(decode(&[0x0029, 0x0080, 0x002b]), Some(Instruction::Ori(SizedImm::Byte(0x80), Addressing::AddrDisplacement(A(1), 0x2b))));
    assert_eq!(decode(&[0x0019, 0x0080]), Some(Instruction::Ori(SizedImm::Byte(0x80), Addressing::AddrPostIncrement(A(1)))));
    assert_eq!(decode(&[0x0021, 0x0080]), Some(Instruction::Ori(SizedImm::Byte(0x80), Addressing::AddrPreDecrement(A(1)))));
    assert_eq!(decode(&[0x006c, 0x0777, 0x0004]), Some(Instruction::Ori(SizedImm::Word(0x0777), Addressing::AddrDisplacement(A(4), 4))));
    assert_eq!(decode(&[0x0032, 0x007f, 0x0000]), Some(Instruction::Ori(SizedImm::Byte(0x7f), Addressing::AddrIndex(0, A(2), IndexReg::DReg(D(0)), Size::Word))));
    assert_eq!(decode(&[0x0072, 0x07ff, 0x4010]), Some(Instruction::Ori(SizedImm::Word(0x7ff), Addressing::AddrIndex(0x10, A(2), IndexReg::DReg(D(4)), Size::Word))));
    assert_eq!(decode(&[0x007c, 0x0001]), Some(Instruction::OriSr(1)));
}

#[test]
fn lib_andi() {
    assert_eq!(decode(&[0x0201, 0x0036]), Some(Instruction::Andi(SizedImm::Byte(0x36), Addressing::DReg(D(1)))));
    assert_eq!(decode(&[0x0242, 0x0100]), Some(Instruction::Andi(SizedImm::Word(0x100), Addressing::DReg(D(2)))));
    assert_eq!(decode(&[0x0280, 0x00ff, 0xffff]), Some(Instruction::Andi(SizedImm::Long(0xff_ffff), Addressing::DReg(D(0)))));
    assert_eq!(decode(&[0x0238, 0x0070, 0xf100]), Some(Instruction::Andi(SizedImm::Byte(0x70), Addressing::AbsoluteShort(0xf100))));
    assert_eq!(decode(&[0x0278, 0x2005, 0xf100]), Some(Instruction::Andi(SizedImm::Word(0x2005), Addressing::AbsoluteShort(0xf100))));
    assert_eq!(decode(&[0x211, 0x0080]), Some(Instruction::Andi(SizedImm::Byte(0x80), Addressing::Addr(A(1)))));
    assert_eq!(decode(&[0x0229, 0x0080, 0x002b]), Some(Instruction::Andi(SizedImm::Byte(0x80), Addressing::AddrDisplacement(A(1), 0x2b))));
    assert_eq!(decode(&[0x0219, 0x0080]), Some(Instruction::Andi(SizedImm::Byte(0x80), Addressing::AddrPostIncrement(A(1)))));
    assert_eq!(decode(&[0x221, 0x0080]), Some(Instruction::Andi(SizedImm::Byte(0x80), Addressing::AddrPreDecrement(A(1)))));
    assert_eq!(decode(&[0x026c, 0x0777, 0x0004]), Some(Instruction::Andi(SizedImm::Word(0x0777), Addressing::AddrDisplacement(A(4), 0x4))));
    assert_eq!(decode(&[0x0232, 0x007f, 0x0000]), Some(Instruction::Andi(SizedImm::Byte(0x7f), Addressing::AddrIndex(0x0, A(2), IndexReg::DReg(D(0)), Size::Word))));
    assert_eq!(decode(&[0x0272, 0x07ff, 0x4010]), Some(Instruction::Andi(SizedImm::Word(0x7ff), Addressing::AddrIndex(0x10, A(2), IndexReg::DReg(D(4)), Size::Word))));
    assert_eq!(decode(&[0x027c, 0xfffe]), Some(Instruction::AndiSr(0xfffe)));
}

#[test]
fn lib_subi() {
    assert_eq!(decode(&[0x0401, 0x0020]), Some(Instruction::Subi(SizedImm::Byte(0x20), Addressing::DReg(D(1)))));
    assert_eq!(decode(&[0x0480, 0xffff, 0xe6ac]), Some(Instruction::Subi(SizedImm::Long(0xffffe6ac), Addressing::DReg(D(0)))));
    assert_eq!(decode(&[0x478, 0x1337, 0xf100]), Some(Instruction::Subi(SizedImm::Word(0x1337), Addressing::AbsoluteShort(0xf100))));
    assert_eq!(decode(&[0x479, 0x1337, 0xffff, 0xf100]), Some(Instruction::Subi(SizedImm::Word(0x1337), Addressing::AbsoluteWord(0xffff_f100))));
    assert_eq!(decode(&[0x4b8, 0x1965, 0x0917, 0xf100]), Some(Instruction::Subi(SizedImm::Long(0x1965_0917), Addressing::AbsoluteShort(0xf100))));
    assert_eq!(decode(&[0x0411, 0x0040]), Some(Instruction::Subi(SizedImm::Byte(0x40), Addressing::Addr(A(1)))));
    assert_eq!(decode(&[0x469, 0x0040, 0x001c]), Some(Instruction::Subi(SizedImm::Word(0x40), Addressing::AddrDisplacement(A(1), 0x1c))));
    assert_eq!(decode(&[0x4a9, 0x0000, 0x0500, 0x0064]), Some(Instruction::Subi(SizedImm::Long(0x500), Addressing::AddrDisplacement(A(1), 0x64))));
    assert_eq!(decode(&[0x419, 0x0040]), Some(Instruction::Subi(SizedImm::Byte(0x40), Addressing::AddrPostIncrement(A(1)))));
    assert_eq!(decode(&[0x421, 0x0040]), Some(Instruction::Subi(SizedImm::Byte(0x40), Addressing::AddrPreDecrement(A(1)))));
}

#[test]
fn lib_addi() {
    assert_eq!(decode(&[0x0601, 0x0020]), Some(Instruction::Addi(SizedImm::Byte(0x20), Addressing::DReg(D(1)))));
    assert_eq!(decode(&[0x680, 0xffff, 0xe6ac]), Some(Instruction::Addi(SizedImm::Long(0xffff_e6ac), Addressing::DReg(D(0)))));
    assert_eq!(decode(&[0x0678, 0x1337, 0xf100]), Some(Instruction::Addi(SizedImm::Word(0x1337), Addressing::AbsoluteShort(0xf100))));
    assert_eq!(decode(&[0x0679, 0x1337, 0xffff, 0xf100]), Some(Instruction::Addi(SizedImm::Word(0x1337), Addressing::AbsoluteWord(0xfffff100))));
    assert_eq!(decode(&[0x06b8, 0x1965, 0x0917, 0xf100]), Some(Instruction::Addi(SizedImm::Long(0x1965_0917), Addressing::AbsoluteShort(0xf100))));
    assert_eq!(decode(&[0x611, 0x0040]), Some(Instruction::Addi(SizedImm::Byte(0x40), Addressing::Addr(A(1)))));
    assert_eq!(decode(&[0x0669, 0x0040, 0x001c]), Some(Instruction::Addi(SizedImm::Word(0x40), Addressing::AddrDisplacement(A(1), 0x1c))));
    assert_eq!(decode(&[0x06a9, 0x0000, 0x0500, 0x0064]), Some(Instruction::Addi(SizedImm::Long(0x500), Addressing::AddrDisplacement(A(1), 0x64))));
    assert_eq!(decode(&[0x0619, 0x0040]), Some(Instruction::Addi(SizedImm::Byte(0x40), Addressing::AddrPostIncrement(A(1)))));
    assert_eq!(decode(&[0x0621, 0x0040]), Some(Instruction::Addi(SizedImm::Byte(0x40), Addressing::AddrPreDecrement(A(1)))));
}

#[test]
fn lib_eori() {
    assert_eq!(decode(&[0x0a47, 0x8810]), Some(Instruction::Eori(SizedImm::Word(0x8810), Addressing::DReg(D(7)))));
    assert_eq!(decode(&[0x0a38, 0x0080, 0xf00e]), Some(Instruction::Eori(SizedImm::Byte(0x80), Addressing::AbsoluteShort(0xf00e))));
    assert_eq!(decode(&[0x0a78, 0x3119, 0xf010]), Some(Instruction::Eori(SizedImm::Word(0x3119), Addressing::AbsoluteShort(0xf010))));
    assert_eq!(decode(&[0x0a85, 0x1000, 0x1000]), Some(Instruction::Eori(SizedImm::Long(0x10001000), Addressing::DReg(D(5)))));
    assert_eq!(decode(&[0x0a90, 0x0000, 0xffff]), Some(Instruction::Eori(SizedImm::Long(0xffff), Addressing::Addr(A(0)))));
    assert_eq!(decode(&[0x0aa8, 0x0000, 0xffff, 0x0040]), Some(Instruction::Eori(SizedImm::Long(0xffff), Addressing::AddrDisplacement(A(0), 0x40))));
    assert_eq!(decode(&[0xa98, 0x0000, 0xffff]), Some(Instruction::Eori(SizedImm::Long(0xffff), Addressing::AddrPostIncrement(A(0)))));
    assert_eq!(decode(&[0x0aa0, 0x000, 0xffff]), Some(Instruction::Eori(SizedImm::Long(0xffff), Addressing::AddrPreDecrement(A(0)))));
    assert_eq!(decode(&[0x0a7c, 0x0001]), Some(Instruction::EoriSr(0x0001)));
}

#[test]
fn lib_cmpi() {
    assert_eq!(decode(&[0x0c38, 0x0026, 0xffe4]), Some(Instruction::Cmpi(SizedImm::Byte(0x26), Addressing::AbsoluteShort(0xffe4))));
    assert_eq!(decode(&[0x0c78, 0x4170, 0xffb0]), Some(Instruction::Cmpi(SizedImm::Word(0x4170), Addressing::AbsoluteShort(0xffb0))));
    assert_eq!(decode(&[0x0cb8, 0xfffe, 0x8000, 0xee9c]), Some(Instruction::Cmpi(SizedImm::Long(0xfffe8000), Addressing::AbsoluteShort(0xee9c))));
    assert_eq!(decode(&[0x0c79, 0x0003, 0xffff, 0xff08]), Some(Instruction::Cmpi(SizedImm::Word(0x3), Addressing::AbsoluteWord(0xffff_ff08))));
    assert_eq!(decode(&[0x0c00, 0x0002]), Some(Instruction::Cmpi(SizedImm::Byte(0x2), Addressing::DReg(D(0)))));
    assert_eq!(decode(&[0x0c43, 0x02e0]), Some(Instruction::Cmpi(SizedImm::Word(0x02e0), Addressing::DReg(D(3)))));
    assert_eq!(decode(&[0x0c82, 0x0000, 0x0000]), Some(Instruction::Cmpi(SizedImm::Long(0x0), Addressing::DReg(D(2)))));
    assert_eq!(decode(&[0x0c10, 0x0002]), Some(Instruction::Cmpi(SizedImm::Byte(0x2), Addressing::Addr(A(0)))));
    assert_eq!(decode(&[0x0c29, 0x0002, 0x0020]), Some(Instruction::Cmpi(SizedImm::Byte(0x2), Addressing::AddrDisplacement(A(1), 0x20))));
    assert_eq!(decode(&[0x0c68, 0x1044, 0x0010]), Some(Instruction::Cmpi(SizedImm::Word(0x1044), Addressing::AddrDisplacement(A(0), 0x10))));
    assert_eq!(decode(&[0x0c18, 0x0002]), Some(Instruction::Cmpi(SizedImm::Byte(0x2), Addressing::AddrPostIncrement(A(0)))));
    assert_eq!(decode(&[0x0c20, 0x0002]), Some(Instruction::Cmpi(SizedImm::Byte(0x2), Addressing::AddrPreDecrement(A(0)))));
}

#[test]
fn lib_btst() {
    assert_eq!(decode(&[0x0838, 0x0006, 0xf604]), Some(Instruction::BitImm(BitOp::Tst, 6, Addressing::AbsoluteShort(0xf604))));
    assert_eq!(decode(&[0x801, 0x0004]), Some(Instruction::BitImm(BitOp::Tst, 4, Addressing::DReg(D(1)))));
    assert_eq!(decode(&[0x0810, 0x0006]), Some(Instruction::BitImm(BitOp::Tst, 6, Addressing::Addr(A(0)))));
    assert_eq!(decode(&[0x0828, 0x0006, 0x002a]), Some(Instruction::BitImm(BitOp::Tst, 6, Addressing::AddrDisplacement(A(0), 0x2a))));
    assert_eq!(decode(&[0x0d38, 0xf604]), Some(Instruction::Bit(BitOp::Tst, D(6), Addressing::AbsoluteShort(0xf604))));
    assert_eq!(decode(&[0x0d01]), Some(Instruction::Bit(BitOp::Tst, D(6), Addressing::DReg(D(1)))));
    assert_eq!(decode(&[0x0d10]), Some(Instruction::Bit(BitOp::Tst, D(6), Addressing::Addr(A(0)))));
    assert_eq!(decode(&[0x0d28, 0x002a]), Some(Instruction::Bit(BitOp::Tst, D(6), Addressing::AddrDisplacement(A(0), 0x2a))));
}

#[test]
fn lib_bclr() {
    assert_eq!(decode(&[0x08b8, 0x0007, 0xe43d]), Some(Instruction::BitImm(BitOp::Clr, 7, Addressing::AbsoluteShort(0xe43d))));
    assert_eq!(decode(&[0x0882, 0x0007]), Some(Instruction::BitImm(BitOp::Clr, 7, Addressing::DReg(D(2)))));
    assert_eq!(decode(&[0x891, 0x0003]), Some(Instruction::BitImm(BitOp::Clr, 3, Addressing::Addr(A(1)))));
    assert_eq!(decode(&[0x08a9, 0x0003, 0x002a]), Some(Instruction::BitImm(BitOp::Clr, 3, Addressing::AddrDisplacement(A(1), 0x2a))));
    assert_eq!(decode(&[0x0db8, 0xe43d]), Some(Instruction::Bit(BitOp::Clr, D(6), Addressing::AbsoluteShort(0xe43d))));
    assert_eq!(decode(&[0x0d82]), Some(Instruction::Bit(BitOp::Clr, D(6), Addressing::DReg(D(2)))));
    assert_eq!(decode(&[0x0d90]), Some(Instruction::Bit(BitOp::Clr, D(6), Addressing::Addr(A(0)))));
    assert_eq!(decode(&[0x0da8, 0x002a]), Some(Instruction::Bit(BitOp::Clr, D(6), Addressing::AddrDisplacement(A(0), 0x2a))));
}

#[test]
fn lib_bset() {
    assert_eq!(decode(&[0x08f8, 0x0003, 0xfe05]), Some(Instruction::BitImm(BitOp::SetBit, 3, Addressing::AbsoluteShort(0xfe05))));
    assert_eq!(decode(&[0x08c2, 0x0003]), Some(Instruction::BitImm(BitOp::SetBit, 3, Addressing::DReg(D(2)))));
    assert_eq!(decode(&[0x08d0, 0x0002]), Some(Instruction::BitImm(BitOp::SetBit, 2, Addressing::Addr(A(0)))));
    assert_eq!(decode(&[0x08e8, 0x0002, 0x002a]), Some(Instruction::BitImm(BitOp::SetBit, 2, Addressing::AddrDisplacement(A(0), 0x2a))));
    assert_eq!(decode(&[0x01f8, 0xfe05]), Some(Instruction::Bit(BitOp::SetBit, D(0), Addressing::AbsoluteShort(0xfe05))));
    assert_eq!(decode(&[0x01c2]), Some(Instruction::Bit(BitOp::SetBit, D(0), Addressing::DReg(D(2)))));
    assert_eq!(decode(&[0x01d2]), Some(Instruction::Bit(BitOp::SetBit, D(0), Addressing::Addr(A(2)))));
    assert_eq!(decode(&[0x01ea, 0x002a]), Some(Instruction::Bit(BitOp::SetBit, D(0), Addressing::AddrDisplacement(A(2), 0x2a))));
}

#[test]
fn lib_bchg() {
    assert_eq!(decode(&[0x0878, 0x0004, 0xffb2]), Some(Instruction::BitImm(BitOp::Chg, 4, Addressing::AbsoluteShort(0xffb2))));
    assert_eq!(decode(&[0x0842, 0x0004]), Some(Instruction::BitImm(BitOp::Chg, 4, Addressing::DReg(D(2)))));
    assert_eq!(decode(&[0x0853, 0x0004]), Some(Instruction::BitImm(BitOp::Chg, 4, Addressing::Addr(A(3)))));
    assert_eq!(decode(&[0x086b, 0x0004, 0x002a]), Some(Instruction::BitImm(BitOp::Chg, 4, Addressing::AddrDisplacement(A(3), 0x2a))));
    assert_eq!(decode(&[0x0778, 0xffb2]), Some(Instruction::Bit(BitOp::Chg, D(3), Addressing::AbsoluteShort(0xffb2))));
    assert_eq!(decode(&[0x0742]), Some(Instruction::Bit(BitOp::Chg, D(3), Addressing::DReg(D(2)))));
    assert_eq!(decode(&[0x0753]), Some(Instruction::Bit(BitOp::Chg, D(3), Addressing::Addr(A(3)))));
    assert_eq!(decode(&[0x076b, 0x002a]), Some(Instruction::Bit(BitOp::Chg, D(3), Addressing::AddrDisplacement(A(3), 0x2a))));
}

#[test]
fn lib_movep() {
    assert_eq!(decode(&[0x0708, 0x0000]), Some(Instruction::Movep(Size::Word, Direction::ToMemory, D(3), A(0), 0)));
    assert_eq!(decode(&[0x0748, 0x0000]), Some(Instruction::Movep(Size::Long, Direction::ToMemory, D(3), A(0), 0)));
    assert_eq!(decode(&[0x0588, 0x0000]), Some(Instruction::Movep(Size::Word, Direction::ToRegister, D(2), A(0), 0)));
    assert_eq!(decode(&[0x05c8, 0x0000]), Some(Instruction::Movep(Size::Long, Direction::ToRegister, D(2), A(0), 0)));
}

