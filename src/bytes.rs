//! Big-endian field access on byte buffers.
use vstd::prelude::*;

verus! {

/// The big-endian 16-bit value of two bytes.
pub open spec fn be16(hi: u8, lo: u8) -> nat {
    hi as nat * 256 + lo as nat
}

/// The big-endian 32-bit value of four bytes.
pub open spec fn be32(a: u8, b: u8, c: u8, d: u8) -> nat {
    ((a as nat * 256 + b as nat) * 256 + c as nat) * 256 + d as nat
}

/// The 16-bit field at `at` of `s`.
pub open spec fn field16(s: Seq<u8>, at: int) -> nat {
    be16(s[at], s[at + 1])
}

/// The 32-bit field at `at` of `s`.
pub open spec fn field32(s: Seq<u8>, at: int) -> nat {
    be32(s[at], s[at + 1], s[at + 2], s[at + 3])
}

/// Reads the big-endian `u16` at `at`.
pub fn read_u16(b: &[u8], at: usize) -> (r: u16)
    requires
        at + 2 <= b@.len(),
    ensures
        r as nat == field16(b@, at as int),
{
    let hi = b[at] as u16;
    let lo = b[at + 1] as u16;
    assert(hi * 256 + lo <= 65535) by (nonlinear_arith)
        requires hi < 256, lo < 256;
    hi * 256 + lo
}

/// Reads the big-endian `u32` at `at`.
pub fn read_u32(b: &[u8], at: usize) -> (r: u32)
    requires
        at + 4 <= b@.len(),
    ensures
        r as nat == field32(b@, at as int),
{
    let a = b[at] as u32;
    let c1 = b[at + 1] as u32;
    let c2 = b[at + 2] as u32;
    let d = b[at + 3] as u32;
    assert(((a * 256 + c1) * 256 + c2) * 256 + d <= 0xffff_ffff) by (nonlinear_arith)
        requires a < 256, c1 < 256, c2 < 256, d < 256;
    ((a * 256 + c1) * 256 + c2) * 256 + d
}

/// Writes `v` big-endian at `at`.
pub fn write_u16(b: &mut Vec<u8>, at: usize, v: u16)
    requires
        at + 2 <= old(b)@.len(),
    ensures
        final(b)@.len() == old(b)@.len(),
        field16(final(b)@, at as int) == v as nat,
        forall|i: int| 0 <= i < final(b)@.len() && i != at && i != at + 1 ==> final(b)@[i] == old(b)@[i],
{
    let _n = b.len();
    let hi = (v / 256) as u8;
    let lo = (v % 256) as u8;
    b.set(at, hi);
    b.set(at + 1, lo);
}

/// Writes `v` big-endian at `at`.
pub fn write_u32(b: &mut Vec<u8>, at: usize, v: u32)
    requires
        at + 4 <= old(b)@.len(),
    ensures
        final(b)@.len() == old(b)@.len(),
        field32(final(b)@, at as int) == v as nat,
        forall|i: int| 0 <= i < final(b)@.len() && !(at <= i < at + 4) ==> final(b)@[i] == old(b)@[i],
{
    let _n = b.len();
    let a = (v / 0x100_0000) as u8;
    let c1 = ((v / 0x1_0000) % 256) as u8;
    let c2 = ((v / 256) % 256) as u8;
    let d = (v % 256) as u8;
    b.set(at, a);
    b.set(at + 1, c1);
    b.set(at + 2, c2);
    b.set(at + 3, d);
    assert(((a as nat * 256 + c1 as nat) * 256 + c2 as nat) * 256 + d as nat == v as nat) by (nonlinear_arith)
        requires a == v / 0x100_0000, c1 == (v / 0x1_0000) % 256, c2 == (v / 256) % 256, d == v % 256, v <= 0xffff_ffff;
}

} // verus!
