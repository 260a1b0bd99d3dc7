//! The boot blocks at the start of a volume: system file names, heap sizes
//! and the boot code, which the 68000 decoder can list.
use vstd::prelude::*;

use crate::bytes::{field16, field32, read_u16, read_u32};
use crate::common::PascalString;
use crate::m68k::{decode_iter, Decoder};

verus! {

/// Size of the fixed part of the boot block header, before its optional
/// extension and its code.
pub const BOOT_HEADER_LEN: usize = 138;

/// Heap sizing fields present when bit 13 of the version is set.
#[derive(Clone, Copy, Debug, PartialEq, Eq)]
pub struct BootBlockExtra {
    pub system_heap_extra: u32,
    pub system_heap_fract: u32,
}

/// The header of the boot blocks, with the boot code that follows it.
#[derive(Clone, Debug)]
pub struct BootBlockHeader {
    pub entry_point: u32,
    pub version: u16,
    pub page_flags: u16,
    pub system_filename: PascalString<15>,
    pub shell_filename: PascalString<15>,
    pub debugger_filename: PascalString<15>,
    pub debugger_filename2: PascalString<15>,
    pub startup_screen: PascalString<15>,
    pub startup_program_filename: PascalString<15>,
    pub system_scrap_filename: PascalString<15>,
    pub fcb_count: u16,
    pub event_queue_count: u16,
    pub system_heap_size_128k: u32,
    pub system_heap_size_256k: u32,
    pub system_heap_size: u32,
    pub extra_data: Option<BootBlockExtra>,
    pub code: Vec<u16>,
}

/// The boot blocks of an MFS volume: the same header with a two-word code stub.
pub type BootBlocks = BootBlockHeader;

/// Reads the Pascal string of capacity 15 at `at`.
fn read_name(b: &[u8], at: usize) -> (r: PascalString<15>)
    requires
        at + 16 <= b@.len(),
    ensures
        r.len == b@[at as int],
        r.data@ == b@.subrange(at + 1, at + 16),
{
    let _n = b.len();
    let mut data = [0u8; 15];
    let mut k: usize = 0;
    while k < 15
        invariant
            _n == b@.len(),
            at + 16 <= _n,
            k <= 15,
            forall|q: int| 0 <= q < k ==> data@[q] == b@[at + 1 + q],
        decreases 15 - k,
    {
        data[k] = b[at + 1 + k];
        k = k + 1;
    }
    assert(data@ =~= b@.subrange(at + 1, at + 16));
    PascalString { len: b[at], data }
}

impl BootBlockHeader {
    /// Decodes boot blocks that start with "LK", followed by `code_words`
    /// words of boot code; the heap extension is present when bit 13 of the
    /// version is set.
    pub fn parse(b: &[u8], code_words: usize) -> (r: Option<BootBlockHeader>)
        ensures
            r matches Some(h) ==> {
                &&& b@.len() >= BOOT_HEADER_LEN
                &&& b@[0] == 0x4c && b@[1] == 0x4b
                &&& h.entry_point as nat == field32(b@, 2)
                &&& h.version as nat == field16(b@, 6)
                &&& h.code@.len() == code_words
                &&& (h.extra_data is Some <==> (h.version / 0x2000) % 2 == 1)
            },
            b@.len() >= BOOT_HEADER_LEN && !(b@[0] == 0x4c && b@[1] == 0x4b) ==> r is None,
    {
        let len = b.len();
        if len < BOOT_HEADER_LEN || b[0] != 0x4c || b[1] != 0x4b {
            return None;
        }
        let version = read_u16(b, 6);
        let mut pos: usize = BOOT_HEADER_LEN;
        let extra_data = if (version / 0x2000) % 2 == 1 {
            if len - pos < 10 {
                return None;
            }
            let e = BootBlockExtra { system_heap_extra: read_u32(b, pos + 2), system_heap_fract: read_u32(b, pos + 6) };
            pos = pos + 10;
            Some(e)
        } else {
            None
        };
        let mut code: Vec<u16> = Vec::new();
        let mut i: usize = 0;
        while i < code_words
            invariant
                len == b@.len(),
                pos <= len,
                code@.len() == i,
                i <= code_words,
            decreases code_words - i,
        {
            if len - pos < 2 {
                return None;
            }
            code.push(read_u16(b, pos));
            pos = pos + 2;
            i = i + 1;
        }
        Some(BootBlockHeader {
            entry_point: read_u32(b, 2),
            version,
            page_flags: read_u16(b, 8),
            system_filename: read_name(b, 10),
            shell_filename: read_name(b, 26),
            debugger_filename: read_name(b, 42),
            debugger_filename2: read_name(b, 58),
            startup_screen: read_name(b, 74),
            startup_program_filename: read_name(b, 90),
            system_scrap_filename: read_name(b, 106),
            fcb_count: read_u16(b, 122),
            event_queue_count: read_u16(b, 124),
            system_heap_size_128k: read_u32(b, 126),
            system_heap_size_256k: read_u32(b, 130),
            system_heap_size: read_u32(b, 134),
            extra_data,
            code,
        })
    }

    /// A decoder over the boot code, from its first word.
    pub fn code_iter(&self) -> (r: Decoder)
        ensures
            r.0.words@ == self.code@,
            r.0.pos == 0,
    {
        decode_iter(self.code.clone())
    }
}

} // verus!
