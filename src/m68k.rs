//! A decoder for a subset of the Motorola 68000 instruction set, used to
//! inspect boot block and resource code.
use vstd::prelude::*;

verus! {

/// Operand size.
#[derive(Debug, Clone, Copy, PartialEq, Eq, Structural)]
pub enum Size {
    Byte,
    Word,
    Long,
}

/// The size encoded in bits 6 and 7 of an opcode, where one is.
pub open spec fn size_of_bits(d: u16) -> Option<Size> {
    let v = (d >> 6u16) & 3u16;
    if v == 0 {
        Some(Size::Byte)
    } else if v == 1 {
        Some(Size::Word)
    } else if v == 2 {
        Some(Size::Long)
    } else {
        None
    }
}

impl Size {
    pub fn decode(d: u16) -> (r: Option<Size>)
        ensures
            r == size_of_bits(d),
    {
        let v = (d >> 6u16) & 3u16;
        if v == 0 {
            Some(Size::Byte)
        } else if v == 1 {
            Some(Size::Word)
        } else if v == 2 {
            Some(Size::Long)
        } else {
            None
        }
    }
}

/// An immediate operand with its size.
#[derive(Debug, Clone, Copy, PartialEq, Eq, Structural)]
pub enum SizedImm {
    Byte(u8),
    Word(u16),
    Long(u32),
}

/// A data register.
#[derive(Debug, Clone, Copy, PartialEq, Eq, Structural)]
pub struct D(pub u8);

/// An address register.
#[derive(Debug, Clone, Copy, PartialEq, Eq, Structural)]
pub struct A(pub u8);

/// The index register of an indexed mode.
#[derive(Debug, Clone, Copy, PartialEq, Eq, Structural)]
pub enum IndexReg {
    DReg(D),
    AReg(A),
}

/// Register-to-register or memory-to-memory operands.
#[derive(Debug, Clone, Copy, PartialEq, Eq, Structural)]
pub enum Rm {
    R(D, D),
    M(A, A),
}

/// An effective address.
#[derive(Debug, Clone, Copy, PartialEq, Eq, Structural)]
pub enum Addressing {
    DReg(D),
    AReg(A),
    Addr(A),
    AddrPostIncrement(A),
    AddrPreDecrement(A),
    AddrDisplacement(A, u16),
    AddrIndex(u8, A, IndexReg, Size),
    PcDisplacement(u16),
    PcIndex(u8, IndexReg, Size),
    AbsoluteShort(u16),
    AbsoluteWord(u32),
    ImmediateByte(u8),
    ImmediateWord(u16),
    ImmediateLong(u32),
}

/// Kind of bit operation.
#[derive(Debug, Clone, Copy, PartialEq, Eq, Structural)]
pub enum BitOp {
    Tst,
    Chg,
    Clr,
    SetBit,
}

/// Direction of a transfer.
#[derive(Debug, Clone, Copy, PartialEq, Eq, Structural)]
pub enum Direction {
    ToRegister,
    ToMemory,
}

/// Where the result of an operation goes.
#[derive(Debug, Clone, Copy, PartialEq, Eq, Structural)]
pub enum OpResult {
    Register,
    EffectiveAddress,
}

/// A condition code test.
#[derive(Debug, Clone, Copy, PartialEq, Eq, Structural)]
pub enum Condition {
    True,
    False,
    Higher,
    LowerOrSame,
    CarryClear,
    CarrySet,
    NotEqual,
    Equal,
    OverflowClear,
    OverflowSet,
    Plus,
    Minus,
    GreaterOrEqual,
    LessThan,
    GreaterThan,
    LessOrEqual,
}

/// The condition in bits 8 to 11 of an opcode.
pub open spec fn condition_of(v: u16) -> Condition {
    let c = (v & 0x0f00u16) >> 8u16;
    if c == 0 {
        Condition::True
    } else if c == 1 {
        Condition::False
    } else if c == 2 {
        Condition::Higher
    } else if c == 3 {
        Condition::LowerOrSame
    } else if c == 4 {
        Condition::CarryClear
    } else if c == 5 {
        Condition::CarrySet
    } else if c == 6 {
        Condition::NotEqual
    } else if c == 7 {
        Condition::Equal
    } else if c == 8 {
        Condition::OverflowClear
    } else if c == 9 {
        Condition::OverflowSet
    } else if c == 10 {
        Condition::Plus
    } else if c == 11 {
        Condition::Minus
    } else if c == 12 {
        Condition::GreaterOrEqual
    } else if c == 13 {
        Condition::LessThan
    } else if c == 14 {
        Condition::GreaterThan
    } else {
        Condition::LessOrEqual
    }
}

impl Condition {
    pub fn decode(v: u16) -> (r: Condition)
        ensures
            r == condition_of(v),
    {
        let c = (v & 0x0f00u16) >> 8u16;
        if c == 0 {
            Condition::True
        } else if c == 1 {
            Condition::False
        } else if c == 2 {
            Condition::Higher
        } else if c == 3 {
            Condition::LowerOrSame
        } else if c == 4 {
            Condition::CarryClear
        } else if c == 5 {
            Condition::CarrySet
        } else if c == 6 {
            Condition::NotEqual
        } else if c == 7 {
            Condition::Equal
        } else if c == 8 {
            Condition::OverflowClear
        } else if c == 9 {
            Condition::OverflowSet
        } else if c == 10 {
            Condition::Plus
        } else if c == 11 {
            Condition::Minus
        } else if c == 12 {
            Condition::GreaterOrEqual
        } else if c == 13 {
            Condition::LessThan
        } else if c == 14 {
            Condition::GreaterThan
        } else {
            Condition::LessOrEqual
        }
    }
}

/// A decoded instruction.
#[derive(Debug, Clone, Copy, PartialEq, Eq, Structural)]
pub enum Instruction {
    OriCcr(u8),
    OriSr(u16),
    Ori(SizedImm, Addressing),
    AndiCcr(u8),
    AndiSr(u16),
    Andi(SizedImm, Addressing),
    EoriCcr(u8),
    EoriSr(u16),
    Eori(SizedImm, Addressing),
    Subi(SizedImm, Addressing),
    Addi(SizedImm, Addressing),
    Cmpi(SizedImm, Addressing),
    Bit(BitOp, D, Addressing),
    BitImm(BitOp, u8, Addressing),
    Movep(Size, Direction, D, A, u16),
    Movea(Size, Addressing, A),
    Move(Size, Addressing, Addressing),
    MoveFromSr(Addressing),
    MoveToCcr(Addressing),
    MoveToSr(Addressing),
    Negx(Size, Addressing),
    Clr(Size, Addressing),
    Neg(Size, Addressing),
    Not(Size, Addressing),
    Nbcd(Addressing),
    Swap(D),
    Ext(Size, D),
    Pea(Addressing),
    Illegal,
    Tas(Addressing),
    Tst(Size, Addressing),
    Trap(u8),
    Link(A, u16),
    Unlk(A),
    MoveUsp(Direction, A),
    Reset,
    Nop,
    Stop(u16),
    Rte,
    Rts,
    Trapv,
    Rtr,
    Jsr(Addressing),
    Jmp(Addressing),
    Movem(Direction, Size, Addressing, u16),
    Lea(Addressing, A),
    Chk(D, Addressing),
    Addq(Size, u8, Addressing),
    Subq(Size, u8, Addressing),
    S(Condition, Addressing),
    Db(Condition, D, u16),
    Bra(u16),
    Bsr(u16),
    B(Condition, u16),
    Moveq(u8, D),
    Sbcd(Rm),
    Divu(Addressing, D),
    Divs(Addressing, D),
    ATrap(u16),
}

/// A stream of instruction words with a read position.
#[derive(Debug, Clone)]
pub struct Fetch {
    pub words: Vec<u16>,
    pub pos: usize,
}

impl Fetch {
    pub fn new(words: Vec<u16>) -> (r: Fetch)
        ensures
            r.words@ == words@,
            r.pos == 0,
    {
        Fetch { words, pos: 0 }
    }

    /// The next word, truncated to its low byte.
    pub fn next_u8(&mut self) -> (r: Option<u8>)
        ensures
            final(self).words == old(self).words,
            old(self).pos < old(self).words@.len() ==> r == Some((old(self).words@[old(self).pos as int] % 256) as u8)
                && final(self).pos == old(self).pos + 1,
            old(self).pos >= old(self).words@.len() ==> r is None && final(self).pos == old(self).pos,
    {
        match self.next_u16() {
            Some(v) => Some((v % 256) as u8),
            None => None,
        }
    }

    /// The next word.
    pub fn next_u16(&mut self) -> (r: Option<u16>)
        ensures
            final(self).words == old(self).words,
            old(self).pos < old(self).words@.len() ==> r == Some(old(self).words@[old(self).pos as int])
                && final(self).pos == old(self).pos + 1,
            old(self).pos >= old(self).words@.len() ==> r is None && final(self).pos == old(self).pos,
    {
        if self.pos < self.words.len() {
            let v = self.words[self.pos];
            self.pos = self.pos + 1;
            Some(v)
        } else {
            None
        }
    }

    /// The next two words, high word first.
    pub fn next_u32(&mut self) -> (r: Option<u32>)
        ensures
            final(self).words == old(self).words,
            old(self).pos + 1 < old(self).words@.len() ==> r == Some(
                ((old(self).words@[old(self).pos as int] as nat) * 65536 + old(self).words@[old(self).pos + 1] as nat) as u32,
            ) && final(self).pos == old(self).pos + 2,
            r is None <==> old(self).pos + 1 >= old(self).words@.len(),
            old(self).pos <= final(self).pos <= old(self).pos + 2,
    {
        let hi = match self.next_u16() {
            Some(v) => v,
            None => return None,
        };
        let lo = match self.next_u16() {
            Some(v) => v,
            None => return None,
        };
        assert((hi as nat) * 65536 + lo as nat <= 0xffff_ffff) by (nonlinear_arith)
            requires hi <= 0xffff, lo <= 0xffff;
        Some((hi as u32) * 65536 + lo as u32)
    }

}

impl SizedImm {
    /// Reads an immediate of `size`: the low byte of a word, a word, or two
    /// words high first.
    pub fn new(size: Size, iter: &mut Fetch) -> (r: Option<SizedImm>)
        ensures
            final(iter).words == old(iter).words,
            old(iter).pos <= final(iter).pos,
            size is Word && old(iter).pos < old(iter).words@.len()
                ==> r == Some(SizedImm::Word(old(iter).words@[old(iter).pos as int])),
            size is Byte && old(iter).pos < old(iter).words@.len()
                ==> r == Some(SizedImm::Byte((old(iter).words@[old(iter).pos as int] % 256) as u8)),
            size is Long ==> (r is None <==> old(iter).pos + 1 >= old(iter).words@.len()),
            !(size is Long) ==> (r is None <==> old(iter).pos >= old(iter).words@.len()),
            r == imm_spec(size, old(iter).words@, old(iter).pos as int).0,
            r is Some ==> final(iter).pos == old(iter).pos + imm_spec(size, old(iter).words@, old(iter).pos as int).1,
    {
        match size {
            Size::Byte => match iter.next_u8() {
                Some(b) => Some(SizedImm::Byte(b)),
                None => None,
            },
            Size::Word => match iter.next_u16() {
                Some(w) => Some(SizedImm::Word(w)),
                None => None,
            },
            Size::Long => match iter.next_u32() {
                Some(l) => Some(SizedImm::Long(l)),
                None => None,
            },
        }
    }
}

/// An immediate of `size` taken from `words` at `pos`, and how many words
/// it takes: the low byte of a word, a word, or two words high first.
pub open spec fn imm_spec(size: Size, words: Seq<u16>, pos: int) -> (Option<SizedImm>, int) {
    match size {
        Size::Byte => if pos < words.len() { (Some(SizedImm::Byte((words[pos] % 256) as u8)), 1) } else { (None, 0) },
        Size::Word => if pos < words.len() { (Some(SizedImm::Word(words[pos])), 1) } else { (None, 0) },
        Size::Long => if pos + 1 < words.len() {
            (Some(SizedImm::Long(((words[pos] as nat) * 65536 + words[pos + 1] as nat) as u32)), 2)
        } else {
            (None, 0)
        },
    }
}

/// The displacement, index register and index size of an extension word:
/// the low byte, then bit 15 (address register) with bits 12 to 14, then
/// bit 11 (long index).
pub open spec fn index_of(word: u16) -> (u8, IndexReg, Size) {
    let regno = ((word >> 12u16) & 7u16) as u8;
    (
        (word & 0xffu16) as u8,
        if (word & 0x8000u16) == 0 { IndexReg::DReg(D(regno)) } else { IndexReg::AReg(A(regno)) },
        if (word & 0x800u16) == 0 { Size::Word } else { Size::Long },
    )
}

/// The effective address of mode `m` and register `x` with its extension
/// words taken from `words` at `pos`, and how many words it takes; `None`
/// where the mode needs words that are missing, or names no address.
pub open spec fn ea_spec(m: u8, x: u8, size: Option<Size>, words: Seq<u16>, pos: int) -> (Option<Addressing>, int) {
    let has1 = pos < words.len();
    let has2 = pos + 1 < words.len();
    if m == 0 {
        (Some(Addressing::DReg(D(x))), 0)
    } else if m == 1 {
        (Some(Addressing::AReg(A(x))), 0)
    } else if m == 2 {
        (Some(Addressing::Addr(A(x))), 0)
    } else if m == 3 {
        (Some(Addressing::AddrPostIncrement(A(x))), 0)
    } else if m == 4 {
        (Some(Addressing::AddrPreDecrement(A(x))), 0)
    } else if m == 5 {
        if has1 { (Some(Addressing::AddrDisplacement(A(x), words[pos])), 1) } else { (None, 0) }
    } else if m == 6 {
        if has1 {
            let (d, r, sz) = index_of(words[pos]);
            (Some(Addressing::AddrIndex(d, A(x), r, sz)), 1)
        } else {
            (None, 0)
        }
    } else if x == 0 {
        if has1 { (Some(Addressing::AbsoluteShort(words[pos])), 1) } else { (None, 0) }
    } else if x == 1 {
        if has2 {
            (Some(Addressing::AbsoluteWord(((words[pos] as nat) * 65536 + words[pos + 1] as nat) as u32)), 2)
        } else {
            (None, 0)
        }
    } else if x == 2 {
        if has1 { (Some(Addressing::PcDisplacement(words[pos])), 1) } else { (None, 0) }
    } else if x == 3 {
        if has1 {
            let (d, r, sz) = index_of(words[pos]);
            (Some(Addressing::PcIndex(d, r, sz)), 1)
        } else {
            (None, 0)
        }
    } else if x == 4 {
        match size {
            Some(Size::Byte) => if has1 { (Some(Addressing::ImmediateByte((words[pos] % 256) as u8)), 1) } else { (None, 0) },
            Some(Size::Word) => if has1 { (Some(Addressing::ImmediateWord(words[pos])), 1) } else { (None, 0) },
            Some(Size::Long) => if has2 {
                (Some(Addressing::ImmediateLong(((words[pos] as nat) * 65536 + words[pos + 1] as nat) as u32)), 2)
            } else {
                (None, 0)
            },
            None => (None, 0),
        }
    } else {
        (None, 0)
    }
}

/// The index register, size and displacement of an extension word.
fn index_word(word: u16) -> (r: (u8, IndexReg, Size))
    ensures
        r == index_of(word),
{
    let displacement = (word & 0xffu16) as u8;
    let regno = ((word >> 12u16) & 7u16) as u8;
    let reg = if (word & 0x8000u16) == 0 {
        IndexReg::DReg(D(regno))
    } else {
        IndexReg::AReg(A(regno))
    };
    let size = if (word & 0x800u16) == 0 {
        Size::Word
    } else {
        Size::Long
    };
    (displacement, reg, size)
}

impl Addressing {
    /// The effective address of mode `m` and register `x`, with its
    /// extension words. An immediate needs a size.
    pub fn decode_mx(m: u8, x: u8, size: Option<Size>, v: &mut Fetch) -> (r: Option<Addressing>)
        requires
            m < 8,
        ensures
            final(v).words == old(v).words,
            old(v).pos <= final(v).pos,
            m == 0 ==> r == Some(Addressing::DReg(D(x))),
            m == 1 ==> r == Some(Addressing::AReg(A(x))),
            m == 2 ==> r == Some(Addressing::Addr(A(x))),
            m == 3 ==> r == Some(Addressing::AddrPostIncrement(A(x))),
            m == 4 ==> r == Some(Addressing::AddrPreDecrement(A(x))),
            r == ea_spec(m, x, size, old(v).words@, old(v).pos as int).0,
            r is Some ==> final(v).pos == old(v).pos + ea_spec(m, x, size, old(v).words@, old(v).pos as int).1,
    {
        if m == 0 {
            Some(Addressing::DReg(D(x)))
        } else if m == 1 {
            Some(Addressing::AReg(A(x)))
        } else if m == 2 {
            Some(Addressing::Addr(A(x)))
        } else if m == 3 {
            Some(Addressing::AddrPostIncrement(A(x)))
        } else if m == 4 {
            Some(Addressing::AddrPreDecrement(A(x)))
        } else if m == 5 {
            match v.next_u16() {
                Some(d) => Some(Addressing::AddrDisplacement(A(x), d)),
                None => None,
            }
        } else if m == 6 {
            match v.next_u16() {
                Some(word) => {
                    let (disp, reg, sz) = index_word(word);
                    Some(Addressing::AddrIndex(disp, A(x), reg, sz))
                },
                None => None,
            }
        } else if x == 0 {
            match v.next_u16() {
                Some(w) => Some(Addressing::AbsoluteShort(w)),
                None => None,
            }
        } else if x == 1 {
            match v.next_u32() {
                Some(l) => Some(Addressing::AbsoluteWord(l)),
                None => None,
            }
        } else if x == 2 {
            match v.next_u16() {
                Some(w) => Some(Addressing::PcDisplacement(w)),
                None => None,
            }
        } else if x == 3 {
            match v.next_u16() {
                Some(word) => {
                    let (disp, reg, sz) = index_word(word);
                    Some(Addressing::PcIndex(disp, reg, sz))
                },
                None => None,
            }
        } else if x == 4 {
            match size {
                Some(Size::Byte) => match v.next_u8() {
                    Some(b) => Some(Addressing::ImmediateByte(b)),
                    None => None,
                },
                Some(Size::Word) => match v.next_u16() {
                    Some(w) => Some(Addressing::ImmediateWord(w)),
                    None => None,
                },
                Some(Size::Long) => match v.next_u32() {
                    Some(l) => Some(Addressing::ImmediateLong(l)),
                    None => None,
                },
                None => None,
            }
        } else {
            None
        }
    }

    /// The effective address in the low six bits, without an immediate.
    pub fn noimm(d: u16, v: &mut Fetch) -> (r: Option<Addressing>)
        ensures
            final(v).words == old(v).words,
            old(v).pos <= final(v).pos,
            r == ea_spec(((d & 0o70u16) >> 3u16) as u8, (d & 0o7u16) as u8, None, old(v).words@, old(v).pos as int).0,
            r is Some ==> final(v).pos == old(v).pos + ea_spec(((d & 0o70u16) >> 3u16) as u8, (d & 0o7u16) as u8, None, old(v).words@, old(v).pos as int).1,
    {
        Self::decode(d, None, v)
    }

    /// The effective address in the low six bits.
    pub fn decode(d: u16, size: Option<Size>, v: &mut Fetch) -> (r: Option<Addressing>)
        ensures
            final(v).words == old(v).words,
            old(v).pos <= final(v).pos,
            r == ea_spec(((d & 0o70u16) >> 3u16) as u8, (d & 0o7u16) as u8, size, old(v).words@, old(v).pos as int).0,
            r is Some ==> final(v).pos == old(v).pos + ea_spec(((d & 0o70u16) >> 3u16) as u8, (d & 0o7u16) as u8, size, old(v).words@, old(v).pos as int).1,
    {
        let m = ((d & 0o70u16) >> 3u16) as u8;
        let x = (d & 0o7u16) as u8;
        assert(m < 8) by (bit_vector)
            requires m == ((d & 0o70u16) >> 3u16) as u8;
        Self::decode_mx(m, x, size, v)
    }

    /// The destination effective address in bits 6 to 11, register first.
    pub fn decode_left(d: u16, size: Option<Size>, v: &mut Fetch) -> (r: Option<Addressing>)
        ensures
            final(v).words == old(v).words,
            old(v).pos <= final(v).pos,
            r == ea_spec(((d & 0o0700u16) >> 6u16) as u8, ((d & 0o7000u16) >> 9u16) as u8, size, old(v).words@, old(v).pos as int).0,
            r is Some ==> final(v).pos == old(v).pos + ea_spec(((d & 0o0700u16) >> 6u16) as u8, ((d & 0o7000u16) >> 9u16) as u8, size, old(v).words@, old(v).pos as int).1,
    {
        let m = ((d & 0o0700u16) >> 6u16) as u8;
        let x = ((d & 0o7000u16) >> 9u16) as u8;
        assert(m < 8) by (bit_vector)
            requires m == ((d & 0o0700u16) >> 6u16) as u8;
        Self::decode_mx(m, x, size, v)
    }
}

/// Decodes one instruction from `words`.
pub fn decode(words: &[u16]) -> (r: Option<Instruction>)
    ensures
        words@.len() == 0 ==> r is None,
        words@.len() > 0 && (words@[0] >> 12u16) == 0xa ==> r == Some(Instruction::ATrap(words@[0])),
        words@.len() > 0 && words@[0] == 0x4e71 ==> r == Some(Instruction::Nop),
        words@.len() > 0 && words@[0] == 0x4e75 ==> r == Some(Instruction::Rts),
        words@.len() > 0 && is_moveq(words@[0]) ==> r == Some(
            Instruction::Moveq((words@[0] & 0xffu16) as u8, D(((words@[0] >> 9u16) & 7u16) as u8)),
        ),
        words@.len() > 0 && (words@[0] & 0xfff0u16) == 0x4e40 ==> r == Some(Instruction::Trap((words@[0] & 0xfu16) as u8)),
        words@.len() > 0 && is_short_bra(words@[0]) ==> r == Some(Instruction::Bra(words@[0] & 0xffu16)),
        words@.len() > 0 && words@[0] == 0x4afc ==> r == Some(Instruction::Illegal),
        words@.len() > 0 && is_to_sr(words@[0]) ==> r == (if words@.len() > 1 {
            Some(to_sr(words@[0], words@[1]))
        } else {
            None
        }),
        words@.len() > 0 && words@[0] == 0x6000 ==> r == (if words@.len() > 1 {
            Some(Instruction::Bra(words@[1]))
        } else {
            None
        }),
        words@.len() > 0 && is_imm_group(words@[0]) ==> r == imm_group_of(words@[0], words@, 1),
        words@.len() > 0 && is_move_group(words@[0]) ==> r == move_group_of(words@[0], words@, 1),
        words@.len() > 0 && words@[0] == 0x4e72 ==> r == (if words@.len() > 1 {
            Some(Instruction::Stop(words@[1]))
        } else {
            None
        }),
        words@.len() > 0 && is_ori_d(words@[0]) ==> r == (if words@.len() > 1 {
            Some(ori_d_of(words@[0], words@[1]))
        } else {
            None
        }),
        words@.len() > 0 && is_movep(words@[0]) ==> r == (if words@.len() > 1 {
            Some(movep_of(words@[0], words@[1]))
        } else {
            None
        }),
        words@.len() > 0 && is_move_dd(words@[0]) ==> r == Some(
            Instruction::Move(
                move_size(words@[0]),
                Addressing::DReg(D((words@[0] & 7u16) as u8)),
                Addressing::DReg(D(((words@[0] >> 9u16) & 7u16) as u8)),
            ),
        ),
        words@.len() > 0 && is_dbcc(words@[0]) ==> r == (if words@.len() > 1 {
            Some(Instruction::Db(condition_of(words@[0]), D((words@[0] & 7u16) as u8), words@[1]))
        } else {
            None
        }),
{
    let mut f = Fetch::new(vstd::slice::slice_to_vec(words));
    decode_inner(&mut f)
}

/// Decodes instructions one after the other.
#[derive(Debug, Clone)]
pub struct Decoder(pub Fetch);

impl Decoder {
    /// The next instruction, or `None` where the words end or do not decode.
    pub fn next(&mut self) -> (r: Option<Instruction>)
        ensures
            final(self).0.words == old(self).0.words,
            old(self).0.pos <= final(self).0.pos,
            old(self).0.pos >= old(self).0.words@.len() ==> r is None,
            old(self).0.pos < old(self).0.words@.len() && old(self).0.words@[old(self).0.pos as int] == 0x4e71
                ==> r == Some(Instruction::Nop),
            old(self).0.pos < old(self).0.words@.len() && old(self).0.words@[old(self).0.pos as int] == 0x4e75
                ==> r == Some(Instruction::Rts),
            old(self).0.pos < old(self).0.words@.len() && is_single_word(old(self).0.words@[old(self).0.pos as int])
                ==> final(self).0.pos == old(self).0.pos + 1,
    {
        decode_inner(&mut self.0)
    }
}

/// A decoder over `words`, from the first.
pub fn decode_iter(words: Vec<u16>) -> (r: Decoder)
    ensures
        r.0.words@ == words@,
        r.0.pos == 0,
{
    Decoder(Fetch::new(words))
}

/// The opcode of a trap to the A-line dispatcher.
pub open spec fn is_a_trap(op: u16) -> bool {
    (op >> 12u16) == 0xa
}

/// Instructions held in their opcode word alone: A-line traps, `moveq`,
/// `trap`, `nop`, `rts` and `illegal`.
pub open spec fn is_single_word(op: u16) -> bool {
    (op >> 12u16) == 0xa || is_moveq(op) || (op & 0xfff0u16) == 0x4e40 || op == 0x4e71 || op == 0x4e75
        || op == 0x4afc
}

/// `ori`, `andi` or `eori` to the status register.
pub open spec fn is_to_sr(op: u16) -> bool {
    op == 0x007c || op == 0x027c || op == 0x0a7c
}

/// The status register operation of opcode `op` with immediate `w`.
pub open spec fn to_sr(op: u16, w: u16) -> Instruction {
    if op == 0x007c {
        Instruction::OriSr(w)
    } else if op == 0x027c {
        Instruction::AndiSr(w)
    } else {
        Instruction::EoriSr(w)
    }
}

/// The immediate group: `ori`, `andi`, `eori` (also to CCR and SR),
/// `subi`, `addi` and `cmpi`.
pub open spec fn is_imm_group(op: u16) -> bool {
    let n2 = ((op & 0x0f00u16) >> 8u16) as u8;
    ((op & 0xf000u16) >> 12u16) as u8 == 0 && (n2 == 0 || n2 == 2 || n2 == 4 || n2 == 6 || n2 == 0xa || n2 == 0xc)
}

/// An instruction of the immediate group: the immediate at `pos`, sized by
/// bits 6 and 7, then the destination address after it. Without an address,
/// a byte immediate goes to CCR and a word one to SR.
pub open spec fn imm_group_of(op: u16, words: Seq<u16>, pos: int) -> Option<Instruction> {
    let n2 = ((op & 0x0f00u16) >> 8u16) as u8;
    let o3 = ((op & 0o7000u16) >> 9u16) as u8;
    let m = ((op & 0o70u16) >> 3u16) as u8;
    let x = (op & 0o7u16) as u8;
    match size_of_bits(op) {
        None => None,
        Some(sz) => {
            let (imm, k) = imm_spec(sz, words, pos);
            match imm {
                None => None,
                Some(i) => {
                    let ea = ea_spec(m, x, None, words, pos + k).0;
                    if n2 == 0 || n2 == 2 || n2 == 0xa {
                        match ea {
                            Some(a) => if o3 == 0 {
                                Some(Instruction::Ori(i, a))
                            } else if o3 == 1 {
                                Some(Instruction::Andi(i, a))
                            } else if o3 == 5 {
                                Some(Instruction::Eori(i, a))
                            } else {
                                None
                            },
                            None => match i {
                                SizedImm::Byte(b) => if o3 == 0 {
                                    Some(Instruction::OriCcr(b))
                                } else if o3 == 1 {
                                    Some(Instruction::AndiCcr(b))
                                } else if o3 == 5 {
                                    Some(Instruction::EoriCcr(b))
                                } else {
                                    None
                                },
                                SizedImm::Word(w) => if o3 == 0 {
                                    Some(Instruction::OriSr(w))
                                } else if o3 == 1 {
                                    Some(Instruction::AndiSr(w))
                                } else if o3 == 5 {
                                    Some(Instruction::EoriSr(w))
                                } else {
                                    None
                                },
                                SizedImm::Long(_) => None,
                            },
                        }
                    } else {
                        match ea {
                            Some(a) => if n2 == 4 {
                                Some(Instruction::Subi(i, a))
                            } else if n2 == 6 {
                                Some(Instruction::Addi(i, a))
                            } else {
                                Some(Instruction::Cmpi(i, a))
                            },
                            None => None,
                        }
                    }
                },
            }
        },
    }
}

/// The move group: opcodes starting with 1, 2 or 3.
pub open spec fn is_move_group(op: u16) -> bool {
    let n3 = ((op & 0xf000u16) >> 12u16) as u8;
    n3 == 1 || n3 == 2 || n3 == 3
}

/// A `move` or `movea`: the source address with its words from `pos`, then
/// the destination (an address register for `movea`).
pub open spec fn move_group_of(op: u16, words: Seq<u16>, pos: int) -> Option<Instruction> {
    let low = ((op & 0xf000u16) >> 12u16) as u8 & 0x3u8;
    let size = if low == 1 { Size::Byte } else if low == 2 { Size::Long } else { Size::Word };
    let o2 = ((op & 0o0700u16) >> 6u16) as u8;
    let o3 = ((op & 0o7000u16) >> 9u16) as u8;
    let (src, k) = ea_spec(((op & 0o70u16) >> 3u16) as u8, (op & 0o7u16) as u8, Some(size), words, pos);
    match src {
        None => None,
        Some(a) => if o2 == 1 && size != Size::Byte {
            Some(Instruction::Movea(size, a, A(o3)))
        } else {
            match ea_spec(((op & 0o0700u16) >> 6u16) as u8, ((op & 0o7000u16) >> 9u16) as u8, None, words, pos + k).0 {
                Some(d) => Some(Instruction::Move(size, a, d)),
                None => None,
            }
        },
    }
}

/// `movep`: moves between a data register and alternate bytes of memory.
pub open spec fn is_movep(op: u16) -> bool {
    (op & 0xf138u16) == 0x0108
}

/// `movep` of opcode `op` with displacement `disp`: bit 6 selects a long
/// transfer, bit 7 the direction to the register.
pub open spec fn movep_of(op: u16, disp: u16) -> Instruction {
    Instruction::Movep(
        if (op & 0x40u16) == 0 { Size::Word } else { Size::Long },
        if (op & 0x80u16) == 0 { Direction::ToMemory } else { Direction::ToRegister },
        D(((op >> 9u16) & 7u16) as u8),
        A((op & 7u16) as u8),
        disp,
    )
}

/// `move` from one data register to another.
pub open spec fn is_move_dd(op: u16) -> bool {
    1 <= (op >> 12u16) <= 3 && (op & 0x1f8u16) == 0
}

/// The operand size of a `move` opcode: 1 byte, 2 long, 3 word.
pub open spec fn move_size(op: u16) -> Size {
    if (op >> 12u16) == 1 { Size::Byte } else if (op >> 12u16) == 2 { Size::Long } else { Size::Word }
}

/// `ori` of a byte or word immediate into a data register.
pub open spec fn is_ori_d(op: u16) -> bool {
    (op & 0xfff8u16) == 0x0000 || (op & 0xfff8u16) == 0x0040
}

/// The `ori` of opcode `op` with extension word `w`.
pub open spec fn ori_d_of(op: u16, w: u16) -> Instruction {
    Instruction::Ori(
        if (op & 0xfff8u16) == 0x0000 { SizedImm::Byte((w % 256) as u8) } else { SizedImm::Word(w) },
        Addressing::DReg(D((op & 7u16) as u8)),
    )
}

/// `dbcc`: decrement and branch on a condition.
pub open spec fn is_dbcc(op: u16) -> bool {
    (op & 0xf0f8u16) == 0x50c8
}

/// `moveq`: an 8-bit immediate into a data register.
pub open spec fn is_moveq(op: u16) -> bool {
    (op >> 12u16) == 7 && (op & 0x100u16) == 0
}

/// `bra` with its displacement in the opcode word.
pub open spec fn is_short_bra(op: u16) -> bool {
    (op & 0xff00u16) == 0x6000 && (op & 0xffu16) != 0
}

/// Decodes the instruction at the read position of `iter`, consuming its
/// opcode and extension words. Opcodes outside the supported subset give
/// `None`. The result is stated exactly for the immediate group, `move` and
/// `movea`, `movep`, `dbcc`, the branches, `stop`, `trap`, `nop`, `rts`,
/// `illegal`, `moveq` and A-line traps, including `None` where an extension
/// word is missing; for the other opcodes (bit operations, single-operand
/// arithmetic, `movem`, `lea`, `chk`, `jsr`, `jmp`, `scc`, `sbcd`, division)
/// it is left unspecified.
pub fn decode_inner(iter: &mut Fetch) -> (r: Option<Instruction>)
    ensures
        final(iter).words == old(iter).words,
        old(iter).pos <= final(iter).pos,
        old(iter).pos >= old(iter).words@.len() ==> r is None,
        old(iter).pos < old(iter).words@.len() && is_a_trap(old(iter).words@[old(iter).pos as int])
            ==> r == Some(Instruction::ATrap(old(iter).words@[old(iter).pos as int])),
        old(iter).pos < old(iter).words@.len() && old(iter).words@[old(iter).pos as int] == 0x4e71 ==> r == Some(Instruction::Nop),
        old(iter).pos < old(iter).words@.len() && old(iter).words@[old(iter).pos as int] == 0x4e75 ==> r == Some(Instruction::Rts),
        old(iter).pos < old(iter).words@.len() && is_moveq(old(iter).words@[old(iter).pos as int]) ==> r == Some(
            Instruction::Moveq(
                (old(iter).words@[old(iter).pos as int] & 0xffu16) as u8,
                D(((old(iter).words@[old(iter).pos as int] >> 9u16) & 7u16) as u8),
            ),
        ),
        old(iter).pos < old(iter).words@.len() && (old(iter).words@[old(iter).pos as int] & 0xfff0u16) == 0x4e40 ==> r == Some(
            Instruction::Trap((old(iter).words@[old(iter).pos as int] & 0xfu16) as u8),
        ),
        old(iter).pos < old(iter).words@.len() && is_short_bra(old(iter).words@[old(iter).pos as int]) ==> r == Some(
            Instruction::Bra(old(iter).words@[old(iter).pos as int] & 0xffu16),
        ),
        old(iter).pos < old(iter).words@.len() && is_single_word(old(iter).words@[old(iter).pos as int])
            ==> final(iter).pos == old(iter).pos + 1,
        old(iter).pos < old(iter).words@.len() && old(iter).words@[old(iter).pos as int] == 0x4afc
            ==> r == Some(Instruction::Illegal),
        old(iter).pos < old(iter).words@.len() && is_to_sr(old(iter).words@[old(iter).pos as int]) ==> r == (
            if old(iter).pos + 1 < old(iter).words@.len() {
                Some(to_sr(old(iter).words@[old(iter).pos as int], old(iter).words@[old(iter).pos + 1]))
            } else {
                None
            }),
        old(iter).pos < old(iter).words@.len() && old(iter).words@[old(iter).pos as int] == 0x6000 ==> r == (
            if old(iter).pos + 1 < old(iter).words@.len() {
                Some(Instruction::Bra(old(iter).words@[old(iter).pos + 1]))
            } else {
                None
            }),
        old(iter).pos < old(iter).words@.len() && is_imm_group(old(iter).words@[old(iter).pos as int])
            ==> r == imm_group_of(old(iter).words@[old(iter).pos as int], old(iter).words@, old(iter).pos + 1),
        old(iter).pos < old(iter).words@.len() && is_move_group(old(iter).words@[old(iter).pos as int])
            ==> r == move_group_of(old(iter).words@[old(iter).pos as int], old(iter).words@, old(iter).pos + 1),
        old(iter).pos < old(iter).words@.len() && old(iter).words@[old(iter).pos as int] == 0x4e72 ==> r == (
            if old(iter).pos + 1 < old(iter).words@.len() {
                Some(Instruction::Stop(old(iter).words@[old(iter).pos + 1]))
            } else {
                None
            }),
        old(iter).pos < old(iter).words@.len() && is_ori_d(old(iter).words@[old(iter).pos as int]) ==> r == (
            if old(iter).pos + 1 < old(iter).words@.len() {
                Some(ori_d_of(old(iter).words@[old(iter).pos as int], old(iter).words@[old(iter).pos + 1]))
            } else {
                None
            }),
        old(iter).pos < old(iter).words@.len() && is_movep(old(iter).words@[old(iter).pos as int]) ==> r == (
            if old(iter).pos + 1 < old(iter).words@.len() {
                Some(movep_of(old(iter).words@[old(iter).pos as int], old(iter).words@[old(iter).pos + 1]))
            } else {
                None
            }),
        old(iter).pos < old(iter).words@.len() && is_move_dd(old(iter).words@[old(iter).pos as int]) ==> r == Some(
            Instruction::Move(
                move_size(old(iter).words@[old(iter).pos as int]),
                Addressing::DReg(D((old(iter).words@[old(iter).pos as int] & 7u16) as u8)),
                Addressing::DReg(D(((old(iter).words@[old(iter).pos as int] >> 9u16) & 7u16) as u8)),
            ),
        ) && final(iter).pos == old(iter).pos + 1,
        old(iter).pos < old(iter).words@.len() && is_dbcc(old(iter).words@[old(iter).pos as int]) ==> r == (
            if old(iter).pos + 1 < old(iter).words@.len() {
                Some(Instruction::Db(
                    condition_of(old(iter).words@[old(iter).pos as int]),
                    D((old(iter).words@[old(iter).pos as int] & 7u16) as u8),
                    old(iter).words@[old(iter).pos + 1],
                ))
            } else {
                None
            }),
{
    let op = iter.next_u16()?;
    let n0 = (op & 0x000fu16) as u8;
    let n1 = ((op & 0x00f0u16) >> 4u16) as u8;
    let n2 = ((op & 0x0f00u16) >> 8u16) as u8;
    let n3 = ((op & 0xf000u16) >> 12u16) as u8;
    let o0 = (op & 0o0007u16) as u8;
    let o1 = ((op & 0o0070u16) >> 3u16) as u8;
    let o2 = ((op & 0o0700u16) >> 6u16) as u8;
    let o3 = ((op & 0o7000u16) >> 9u16) as u8;
    assert(n3 == 0xa <==> (op >> 12u16) == 0xa) by (bit_vector)
        requires n3 == ((op & 0xf000u16) >> 12u16) as u8;
    assert(op == 0x4e71 ==> n3 == 4 && n2 == 0xe && n1 == 7 && n0 == 1) by (bit_vector)
        requires n0 == (op & 0x000fu16) as u8, n1 == ((op & 0x00f0u16) >> 4u16) as u8,
            n2 == ((op & 0x0f00u16) >> 8u16) as u8, n3 == ((op & 0xf000u16) >> 12u16) as u8;
    assert(op == 0x4e75 ==> n3 == 4 && n2 == 0xe && n1 == 7 && n0 == 5) by (bit_vector)
        requires n0 == (op & 0x000fu16) as u8, n1 == ((op & 0x00f0u16) >> 4u16) as u8,
            n2 == ((op & 0x0f00u16) >> 8u16) as u8, n3 == ((op & 0xf000u16) >> 12u16) as u8;
    assert(is_moveq(op) ==> n3 == 7 && n2 & 1u8 == 0 && o3 == ((op >> 9u16) & 7u16) as u8) by (bit_vector)
        requires n2 == ((op & 0x0f00u16) >> 8u16) as u8, n3 == ((op & 0xf000u16) >> 12u16) as u8,
            o3 == ((op & 0o7000u16) >> 9u16) as u8;
    assert((op & 0xfff0u16) == 0x4e40 ==> n3 == 4 && n2 == 0xe && n1 == 4 && n0 == (op & 0xfu16) as u8) by (bit_vector)
        requires n0 == (op & 0x000fu16) as u8, n1 == ((op & 0x00f0u16) >> 4u16) as u8,
            n2 == ((op & 0x0f00u16) >> 8u16) as u8, n3 == ((op & 0xf000u16) >> 12u16) as u8;
    assert(is_short_bra(op) ==> n3 == 6 && (op & 0x0f00u16) >> 8u16 == 0 && op & 0xffu16 != 0) by (bit_vector)
        requires n3 == ((op & 0xf000u16) >> 12u16) as u8;
    assert(op == 0x4afc ==> n3 == 4 && n2 == 0xa && o1 == 7 && o0 == 4 && ((op >> 6u16) & 3u16) == 3) by (bit_vector)
        requires n2 == ((op & 0x0f00u16) >> 8u16) as u8, n3 == ((op & 0xf000u16) >> 12u16) as u8,
            o0 == (op & 0o0007u16) as u8, o1 == ((op & 0o0070u16) >> 3u16) as u8;
    assert(is_to_sr(op) ==> n3 == 0 && (n2 == 0 || n2 == 2 || n2 == 0xa) && ((op >> 6u16) & 3u16) == 1
        && ((op & 0o70u16) >> 3u16) as u8 == 7 && (op & 0o7u16) as u8 == 4
        && (op == 0x007c ==> o3 == 0) && (op == 0x027c ==> o3 == 1) && (op == 0x0a7c ==> o3 == 5)) by (bit_vector)
        requires n2 == ((op & 0x0f00u16) >> 8u16) as u8, n3 == ((op & 0xf000u16) >> 12u16) as u8,
            o3 == ((op & 0o7000u16) >> 9u16) as u8;
    assert(op == 0x4e72 ==> n3 == 4 && n2 == 0xe && n1 == 7 && n0 == 2) by (bit_vector)
        requires n0 == (op & 0x000fu16) as u8, n1 == ((op & 0x00f0u16) >> 4u16) as u8,
            n2 == ((op & 0x0f00u16) >> 8u16) as u8, n3 == ((op & 0xf000u16) >> 12u16) as u8;
    assert(op == 0x6000 ==> n3 == 6 && op & 0xffu16 == 0 && (op & 0x0f00u16) >> 8u16 == 0) by (bit_vector)
        requires n3 == ((op & 0xf000u16) >> 12u16) as u8;
    assert(is_dbcc(op) ==> n3 == 5 && ((op >> 6u16) & 3u16) == 3 && o1 == 1 && o0 == (op & 7u16) as u8) by (bit_vector)
        requires n3 == ((op & 0xf000u16) >> 12u16) as u8, o0 == (op & 0o0007u16) as u8,
            o1 == ((op & 0o0070u16) >> 3u16) as u8;
    assert(((op >> 6u16) & 3u16) <= 3) by (bit_vector);
    assert(is_ori_d(op) ==> n3 == 0 && n2 == 0 && o3 == 0 && ((op & 0o70u16) >> 3u16) as u8 == 0
        && (op & 0o7u16) as u8 == (op & 7u16) as u8
        && (((op & 0xfff8u16) == 0x0000) ==> ((op >> 6u16) & 3u16) == 0)
        && (((op & 0xfff8u16) == 0x0040) ==> ((op >> 6u16) & 3u16) == 1)) by (bit_vector)
        requires n2 == ((op & 0x0f00u16) >> 8u16) as u8, n3 == ((op & 0xf000u16) >> 12u16) as u8,
            o3 == ((op & 0o7000u16) >> 9u16) as u8;
    assert(is_movep(op) ==> n3 == 0 && n2 != 0 && n2 != 2 && n2 != 4 && n2 != 6 && n2 != 0xa && n2 != 0xc && o1 == 1
        && ((o2 & 0b010u8) == 0 <==> (op & 0x80u16) == 0) && ((o2 & 0b001u8) == 0 <==> (op & 0x40u16) == 0)
        && o3 == ((op >> 9u16) & 7u16) as u8 && o0 == (op & 7u16) as u8) by (bit_vector)
        requires n2 == ((op & 0x0f00u16) >> 8u16) as u8, n3 == ((op & 0xf000u16) >> 12u16) as u8,
            o0 == (op & 0o0007u16) as u8, o1 == ((op & 0o0070u16) >> 3u16) as u8,
            o2 == ((op & 0o0700u16) >> 6u16) as u8, o3 == ((op & 0o7000u16) >> 9u16) as u8;
    assert(is_move_dd(op) ==> (n3 == 1 || n3 == 2 || n3 == 3) && ((n3 & 3u8) == 1 <==> (op >> 12u16) == 1)
        && ((n3 & 3u8) == 2 <==> (op >> 12u16) == 2) && o2 == 0
        && ((op & 0o70u16) >> 3u16) as u8 == 0 && (op & 0o7u16) as u8 == (op & 7u16) as u8
        && ((op & 0o0700u16) >> 6u16) as u8 == 0 && ((op & 0o7000u16) >> 9u16) as u8 == ((op >> 9u16) & 7u16) as u8)
        by (bit_vector)
        requires n3 == ((op & 0xf000u16) >> 12u16) as u8, o2 == ((op & 0o0700u16) >> 6u16) as u8;
    assert(((op >> 6u16) & 3u16) == 3 <==> size_of_bits(op) is None);
    if n3 == 0xa {
        Some(Instruction::ATrap(op))
    } else if n3 == 0 {
        if n2 == 0x0 || n2 == 0x2 || n2 == 0xa || n2 == 0x4 || n2 == 0x6 || n2 == 0xc {
            decode_imm_group(op, iter)
        } else if o1 != 1 {
            if o2 < 4 {
                let bit = iter.next_u8()?;
                let kind = if o2 == 0 {
                    BitOp::Tst
                } else if o2 == 1 {
                    BitOp::Chg
                } else if o2 == 2 {
                    BitOp::Clr
                } else {
                    BitOp::SetBit
                };
                Some(Instruction::BitImm(kind, bit, Addressing::noimm(op, iter)?))
            } else {
                let kind = if o2 == 4 {
                    BitOp::Tst
                } else if o2 == 5 {
                    BitOp::Chg
                } else if o2 == 6 {
                    BitOp::Clr
                } else {
                    BitOp::SetBit
                };
                Some(Instruction::Bit(kind, D(o3), Addressing::noimm(op, iter)?))
            }
        } else {
            let dir = if (o2 & 0b010u8) == 0 {
                Direction::ToMemory
            } else {
                Direction::ToRegister
            };
            let size = if (o2 & 0b001u8) == 0 {
                Size::Word
            } else {
                Size::Long
            };
            Some(Instruction::Movep(size, dir, D(o3), A(o0), iter.next_u16()?))
        }
    } else if n3 == 1 || n3 == 2 || n3 == 3 {
        decode_move_group(op, iter)
    } else if n3 == 4 {
        decode_misc(op, n0, n1, n2, o0, o1, o2, o3, iter)
    } else if n3 == 5 {
        match Size::decode(op) {
            Some(size) => {
                if o2 & 0b100u8 == 0 {
                    Some(Instruction::Addq(size, o3, Addressing::noimm(op, iter)?))
                } else {
                    Some(Instruction::Subq(size, o3, Addressing::noimm(op, iter)?))
                }
            },
            None => {
                if o1 == 0b001 {
                    Some(Instruction::Db(Condition::decode(op), D(o0), iter.next_u16()?))
                } else {
                    Some(Instruction::S(Condition::decode(op), Addressing::noimm(op, iter)?))
                }
            },
        }
    } else if n3 == 6 {
        let target = if op & 0xffu16 == 0 {
            iter.next_u16()?
        } else {
            op & 0xffu16
        };
        match Condition::decode(op) {
            Condition::True => Some(Instruction::Bra(target)),
            Condition::False => Some(Instruction::Bsr(target)),
            cond => Some(Instruction::B(cond, target)),
        }
    } else if n3 == 7 && n2 & 1u8 == 0 {
        Some(Instruction::Moveq((op & 0xffu16) as u8, D(o3)))
    } else if n3 == 8 {
        match Size::decode(op) {
            Some(_size) => {
                if n1 == 0 && n2 & 1u8 == 1 {
                    let rm = if o1 & 1u8 == 0 {
                        Rm::R(D(o0), D(o3))
                    } else {
                        Rm::M(A(o0), A(o3))
                    };
                    Some(Instruction::Sbcd(rm))
                } else {
                    None
                }
            },
            None => {
                if o2 == 0b011 {
                    Some(Instruction::Divu(Addressing::decode(op, Some(Size::Word), iter)?, D(o3)))
                } else {
                    Some(Instruction::Divs(Addressing::decode(op, Some(Size::Word), iter)?, D(o3)))
                }
            },
        }
    } else {
        None
    }
}

/// Decodes a `move` or `movea`, its opcode `op` already read.
fn decode_move_group(op: u16, iter: &mut Fetch) -> (r: Option<Instruction>)
    requires
        is_move_group(op),
    ensures
        final(iter).words == old(iter).words,
        old(iter).pos <= final(iter).pos,
        r == move_group_of(op, old(iter).words@, old(iter).pos as int),
        is_move_dd(op) ==> final(iter).pos == old(iter).pos,
{
    assert(is_move_dd(op) ==> ((op & 0o70u16) >> 3u16) as u8 == 0 && ((op & 0o0700u16) >> 6u16) as u8 == 0) by (bit_vector);
    let n3 = ((op & 0xf000u16) >> 12u16) as u8;
    let o2 = ((op & 0o0700u16) >> 6u16) as u8;
    let o3 = ((op & 0o7000u16) >> 9u16) as u8;
    let low = n3 & 0x3u8;
    let size = if low == 1 {
        Size::Byte
    } else if low == 2 {
        Size::Long
    } else {
        Size::Word
    };
    let src = Addressing::decode(op, Some(size), iter)?;
    if o2 == 1 && size != Size::Byte {
        Some(Instruction::Movea(size, src, A(o3)))
    } else {
        let dst = Addressing::decode_left(op, None, iter)?;
        Some(Instruction::Move(size, src, dst))
    }
}

/// Decodes an instruction of the immediate group, its opcode `op` already read.
fn decode_imm_group(op: u16, iter: &mut Fetch) -> (r: Option<Instruction>)
    requires
        is_imm_group(op),
    ensures
        final(iter).words == old(iter).words,
        old(iter).pos <= final(iter).pos,
        r == imm_group_of(op, old(iter).words@, old(iter).pos as int),
{
    let n2 = ((op & 0x0f00u16) >> 8u16) as u8;
    let o3 = ((op & 0o7000u16) >> 9u16) as u8;
    if n2 == 0x0 || n2 == 0x2 || n2 == 0xa {
        let size = SizedImm::new(Size::decode(op)?, iter)?;
        match Addressing::decode(op, None, iter) {
            Some(addr) => {
                if o3 == 0 {
                    Some(Instruction::Ori(size, addr))
                } else if o3 == 1 {
                    Some(Instruction::Andi(size, addr))
                } else if o3 == 5 {
                    Some(Instruction::Eori(size, addr))
                } else {
                    None
                }
            },
            None => {
                match size {
                    SizedImm::Byte(b) => {
                        if o3 == 0 {
                            Some(Instruction::OriCcr(b))
                        } else if o3 == 1 {
                            Some(Instruction::AndiCcr(b))
                        } else if o3 == 5 {
                            Some(Instruction::EoriCcr(b))
                        } else {
                            None
                        }
                    },
                    SizedImm::Word(w) => {
                        if o3 == 0 {
                            Some(Instruction::OriSr(w))
                        } else if o3 == 1 {
                            Some(Instruction::AndiSr(w))
                        } else if o3 == 5 {
                            Some(Instruction::EoriSr(w))
                        } else {
                            None
                        }
                    },
                    SizedImm::Long(_) => None,
                }
            },
        }
    } else if n2 == 0x4 {
        let imm = SizedImm::new(Size::decode(op)?, iter)?;
        Some(Instruction::Subi(imm, Addressing::noimm(op, iter)?))
    } else if n2 == 0x6 {
        let imm = SizedImm::new(Size::decode(op)?, iter)?;
        Some(Instruction::Addi(imm, Addressing::noimm(op, iter)?))
    } else if n2 == 0xc {
        let imm = SizedImm::new(Size::decode(op)?, iter)?;
        Some(Instruction::Cmpi(imm, Addressing::noimm(op, iter)?))
    } else {
        None
    }
}

/// The instructions whose opcode starts with 4: moves to and from the status
/// register, single-operand arithmetic, traps, links, returns, jumps, `movem`,
/// `lea` and `chk`.
fn decode_misc(op: u16, n0: u8, n1: u8, n2: u8, o0: u8, o1: u8, o2: u8, o3: u8, iter: &mut Fetch) -> (r: Option<Instruction>)
    ensures
        final(iter).words == old(iter).words,
        old(iter).pos <= final(iter).pos,
        n2 == 0xe && n1 == 7 && n0 == 1 ==> r == Some(Instruction::Nop),
        n2 == 0xe && n1 == 7 && n0 == 5 ==> r == Some(Instruction::Rts),
        n2 == 0xe && n1 == 4 ==> r == Some(Instruction::Trap(n0)),
        n2 == 0xe && (n1 == 4 || (n1 == 7 && (n0 == 1 || n0 == 5))) ==> final(iter).pos == old(iter).pos,
        n2 == 0xe && n1 == 7 && n0 == 2 ==> r == (if old(iter).pos < old(iter).words@.len() {
            Some(Instruction::Stop(old(iter).words@[old(iter).pos as int]))
        } else {
            None
        }),
        n2 == 0xa && size_of_bits(op) is None && o1 == 7 && o0 == 4 ==> r == Some(Instruction::Illegal)
            && final(iter).pos == old(iter).pos,
{
    if n2 == 0 && o2 == 3 {
        Some(Instruction::MoveFromSr(Addressing::noimm(op, iter)?))
    } else if n2 == 4 && o2 == 3 {
        Some(Instruction::MoveToCcr(Addressing::decode(op, Some(Size::Byte), iter)?))
    } else if n2 == 6 && o2 == 3 {
        Some(Instruction::MoveToSr(Addressing::decode(op, Some(Size::Word), iter)?))
    } else if n2 == 0 {
        let size = Size::decode(op)?;
        Some(Instruction::Negx(size, Addressing::noimm(op, iter)?))
    } else if n2 == 2 {
        let size = Size::decode(op)?;
        Some(Instruction::Clr(size, Addressing::noimm(op, iter)?))
    } else if n2 == 4 {
        let size = Size::decode(op)?;
        Some(Instruction::Neg(size, Addressing::noimm(op, iter)?))
    } else if n2 == 6 {
        let size = Size::decode(op)?;
        Some(Instruction::Not(size, Addressing::noimm(op, iter)?))
    } else if n2 == 8 {
        if o1 == 0 {
            if o2 == 0 {
                Some(Instruction::Nbcd(Addressing::noimm(op, iter)?))
            } else if o2 == 1 {
                Some(Instruction::Swap(D(o0)))
            } else if o2 == 2 {
                Some(Instruction::Ext(Size::Word, D(o0)))
            } else if o2 == 3 {
                Some(Instruction::Ext(Size::Long, D(o0)))
            } else {
                None
            }
        } else {
            if o2 == 0 {
                Some(Instruction::Nbcd(Addressing::noimm(op, iter)?))
            } else if o2 == 1 {
                Some(Instruction::Pea(Addressing::decode(op, Some(Size::Long), iter)?))
            } else {
                None
            }
        }
    } else if n2 == 0xa {
        match Size::decode(op) {
            Some(size) => Some(Instruction::Tst(size, Addressing::noimm(op, iter)?)),
            None => {
                if o1 == 0b111 && o0 == 0b100 {
                    Some(Instruction::Illegal)
                } else {
                    Some(Instruction::Tas(Addressing::noimm(op, iter)?))
                }
            },
        }
    } else if n2 == 0xe {
        if n1 == 4 {
            Some(Instruction::Trap(n0))
        } else if n1 == 5 {
            if n0 & 0x8u8 == 0 {
                Some(Instruction::Link(A(o0), iter.next_u16()?))
            } else {
                Some(Instruction::Unlk(A(o0)))
            }
        } else if n1 == 6 {
            let dir = if n0 & 0x8u8 == 0 {
                Direction::ToMemory
            } else {
                Direction::ToRegister
            };
            Some(Instruction::MoveUsp(dir, A(o0)))
        } else if n1 == 7 {
            if n0 == 0 {
                Some(Instruction::Reset)
            } else if n0 == 1 {
                Some(Instruction::Nop)
            } else if n0 == 2 {
                Some(Instruction::Stop(iter.next_u16()?))
            } else if n0 == 3 {
                Some(Instruction::Rte)
            } else if n0 == 5 {
                Some(Instruction::Rts)
            } else if n0 == 6 {
                Some(Instruction::Trapv)
            } else if n0 == 7 {
                Some(Instruction::Rtr)
            } else {
                None
            }
        } else if o2 == 0b010 {
            Some(Instruction::Jsr(Addressing::noimm(op, iter)?))
        } else if o2 == 0b011 {
            Some(Instruction::Jmp(Addressing::noimm(op, iter)?))
        } else {
            None
        }
    } else if o2 == 0b011 || o2 == 0b010 {
        let dir = if o3 == 0b100 {
            Direction::ToRegister
        } else if o3 == 0b110 {
            Direction::ToMemory
        } else {
            return None;
        };
        let size = if o2 == 0b010 {
            Size::Word
        } else {
            Size::Long
        };
        let mask = iter.next_u16()?;
        Some(Instruction::Movem(dir, size, Addressing::noimm(op, iter)?, mask))
    } else if o2 == 0b111 {
        Some(Instruction::Lea(Addressing::noimm(op, iter)?, A(o3)))
    } else if o2 == 0b110 {
        Some(Instruction::Chk(D(o3), Addressing::noimm(op, iter)?))
    } else {
        None
    }
}

} // verus!
