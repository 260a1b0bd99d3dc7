//! Records of the Apple partition map that locate a volume inside a disk
//! image: the driver descriptor block and its driver entries.
use vstd::prelude::*;

use crate::bytes::{field16, field32, read_u16, read_u32};

verus! {

/// The operating system a driver is for.
#[derive(Clone, Copy, Debug, PartialEq, Eq, Structural)]
pub enum OsType {
    MacOs,
    Other(u16),
}

impl OsType {
    /// The system of a driver entry's type word: 1 is Mac OS.
    pub fn from_u16(v: u16) -> (r: OsType)
        ensures
            r == (if v == 1 { OsType::MacOs } else { OsType::Other(v) }),
    {
        if v == 1 { OsType::MacOs } else { OsType::Other(v) }
    }
}

/// A device driver entry of the driver descriptor block.
#[derive(Clone, Copy, Debug, PartialEq, Eq, Structural)]
pub struct Driver {
    pub start: u32,
    pub size: u16,
    pub os_type: OsType,
}

impl Driver {
    pub fn start(&self) -> (r: u32)
        ensures
            r == self.start,
    {
        self.start
    }

    pub fn size(&self) -> (r: u16)
        ensures
            r == self.size,
    {
        self.size
    }

    pub fn os_type(&self) -> (r: OsType)
        ensures
            r == self.os_type,
    {
        self.os_type
    }

    /// Reads the eight-byte driver entry at `at`.
    pub fn parse(b: &[u8], at: usize) -> (r: Driver)
        requires
            at + 8 <= b@.len(),
        ensures
            r.start as nat == field32(b@, at as int),
            r.size as nat == field16(b@, at + 4),
            r.os_type == (if field16(b@, at + 6) == 1 { OsType::MacOs } else { OsType::Other(field16(b@, at + 6) as u16) }),
    {
        let _n = b.len();
        Driver { start: read_u32(b, at), size: read_u16(b, at + 4), os_type: OsType::from_u16(read_u16(b, at + 6)) }
    }
}

/// The driver descriptor block, the first block of a partitioned disk.
#[derive(Clone, Debug)]
pub struct Block0 {
    pub block_size: u16,
    pub block_count: u32,
    pub drivers: Vec<Driver>,
}

impl Block0 {
    /// Decodes the block at the start of `b`; it starts with "ER" and lists
    /// its drivers from byte 18, eight bytes each.
    pub fn parse(b: &[u8]) -> (r: Option<Block0>)
        ensures
            r matches Some(z) ==> b@.len() >= 18 && b@[0] == 0x45 && b@[1] == 0x52
                && z.block_size as nat == field16(b@, 2) && z.block_count as nat == field32(b@, 4)
                && z.drivers@.len() == field16(b@, 16),
            b@.len() >= 18 && !(b@[0] == 0x45 && b@[1] == 0x52) ==> r is None,
    {
        let len = b.len();
        if len < 18 || b[0] != 0x45 || b[1] != 0x52 {
            return None;
        }
        let count = read_u16(b, 16);
        let mut drivers: Vec<Driver> = Vec::new();
        let mut pos: usize = 18;
        let mut i: u16 = 0;
        while i < count
            invariant
                len == b@.len(),
                pos <= len,
                drivers@.len() == i,
                i <= count,
            decreases count - i,
        {
            if len - pos < 8 {
                return None;
            }
            drivers.push(Driver::parse(b, pos));
            pos = pos + 8;
            i = i + 1;
        }
        Some(Block0 { block_size: read_u16(b, 2), block_count: read_u32(b, 4), drivers })
    }
}

/// The kind of a partition, from its type name.
#[derive(Clone, Debug, PartialEq, Eq)]
pub enum PartitionType {
    ApplePartitionMap,
    AppleDriver,
    AppleDriver43,
    AppleMfs,
    AppleHfs,
    AppleUnixSvr2,
    AppleProDos,
    AppleFree,
    AppleScratch,
    AppleBootstrap,
    Linux,
    LinuxRaid,
    LinuxSwap,
    Other(Vec<u8>),
}

/// The processor a partition's boot code is for.
#[derive(Clone, Debug, PartialEq, Eq)]
pub enum ProcessorType {
    M68000,
    M68008,
    M68010,
    M68012,
    M68020,
    M68030,
    M68040,
    PowerPc,
    Unspecified,
    Other(Vec<u8>),
}

} // verus!
