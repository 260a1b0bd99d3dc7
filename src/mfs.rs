//! The flat MFS volume: the volume information block, the packed block map,
//! the file directory, and the allocation region, held in memory; fork reads,
//! file creation and appends work on that image.
use vstd::prelude::*;

use crate::blockmap::{
    lemma_chain_unchanged,
    chain, chain_len, ends_at, gimme_block_map, lemma_chain_extend, linked_at, terminates, unpacked,
    walk, BlockMap,
};
use crate::bytes::{field16, field32, read_u16, read_u32};
use crate::common::{DateTime, DynamicPascalString, PascalString, SizedString};
use crate::error::FsError;
use crate::counting::lemma_distinct_within;
use crate::tree::bytes_equal;
use vstd::slice::slice_subrange;
use vstd::set_lib::{lemma_int_range, lemma_len_subset, set_int_range};
use vstd::string::StringSliceAdditionalSpecFns;

verus! {

/// One of the two byte streams of a file.
#[derive(Clone, Copy, Debug, PartialEq, Eq, Structural)]
pub enum Fork {
    Resource,
    Data,
}

/// The position of a file in the volume's file directory.
#[derive(Clone, Copy, Debug, PartialEq, Eq, Structural)]
pub struct FileHandle(pub usize);

/// The file exists (the directory entry is in use).
pub const FILE_EXISTS: u8 = 0x80;

/// The file is locked.
pub const FILE_LOCKED: u8 = 0x01;

/// Byte offset of the volume information block.
pub const MDB_OFFSET: usize = 0x400;

/// Byte offset of the packed block map, right after the volume information.
pub const BLOCK_MAP_OFFSET: usize = 0x440;

/// Size of the sectors that the volume information counts in.
pub const SECTOR: usize = 512;

/// Size of a file directory entry before its name.
pub const ENTRY_FIXED_LEN: usize = 51;

/// The volume information block.
#[derive(Clone, Debug)]
pub struct VolumeInformation {
    pub creation_date: DateTime,
    pub last_backup_date: DateTime,
    pub attributes: u16,
    pub file_count: u16,
    pub file_directory_start: u16,
    pub file_directory_length: u16,
    pub alloc_block_count: u16,
    pub alloc_block_size: u32,
    pub clump_size: u32,
    pub alloc_block_start: u16,
    pub next_file_num: u32,
    pub free_alloc_blocks: u16,
    pub name: PascalString<27>,
}

/// One entry of the file directory.
#[derive(Clone, Debug)]
pub struct FileDirectoryBlock {
    pub flags: u8,
    pub version: u8,
    pub file_type: SizedString<4>,
    pub file_creator: SizedString<4>,
    pub finder_flags: u16,
    pub position: u32,
    pub folder_number: i16,
    pub file_number: u32,
    pub data_fork_start: u16,
    pub data_fork_size: u32,
    pub data_fork_allocated_space: u32,
    pub resource_fork_start: u16,
    pub resource_fork_size: u32,
    pub resource_fork_allocated_space: u32,
    pub creation_date: DateTime,
    pub modification_date: DateTime,
    pub name: DynamicPascalString,
}

impl FileDirectoryBlock {
    pub open spec fn spec_fork_start(&self, fork: Fork) -> u16 {
        match fork {
            Fork::Data => self.data_fork_start,
            Fork::Resource => self.resource_fork_start,
        }
    }

    pub open spec fn spec_fork_size(&self, fork: Fork) -> u32 {
        match fork {
            Fork::Data => self.data_fork_size,
            Fork::Resource => self.resource_fork_size,
        }
    }

    pub open spec fn spec_fork_allocated(&self, fork: Fork) -> u32 {
        match fork {
            Fork::Data => self.data_fork_allocated_space,
            Fork::Resource => self.resource_fork_allocated_space,
        }
    }

    /// The entry with the given fork's start, size and allocated space
    /// replaced and everything else kept.
    pub open spec fn with_fork(self, fork: Fork, start: u16, size: u32, alloc: u32) -> Self {
        match fork {
            Fork::Data => FileDirectoryBlock {
                data_fork_start: start,
                data_fork_size: size,
                data_fork_allocated_space: alloc,
                ..self
            },
            Fork::Resource => FileDirectoryBlock {
                resource_fork_start: start,
                resource_fork_size: size,
                resource_fork_allocated_space: alloc,
                ..self
            },
        }
    }

    pub fn fork_start(&self, fork: Fork) -> (r: u16)
        ensures
            r == self.spec_fork_start(fork),
    {
        match fork {
            Fork::Data => self.data_fork_start,
            Fork::Resource => self.resource_fork_start,
        }
    }

    pub fn fork_size(&self, fork: Fork) -> (r: u32)
        ensures
            r == self.spec_fork_size(fork),
    {
        match fork {
            Fork::Data => self.data_fork_size,
            Fork::Resource => self.resource_fork_size,
        }
    }

    pub fn fork_allocated_space(&self, fork: Fork) -> (r: u32)
        ensures
            r == self.spec_fork_allocated(fork),
    {
        match fork {
            Fork::Data => self.data_fork_allocated_space,
            Fork::Resource => self.resource_fork_allocated_space,
        }
    }

    pub fn data_fork_size(&self) -> (r: u32)
        ensures
            r == self.data_fork_size,
    {
        self.data_fork_size
    }

    pub fn resource_fork_size(&self) -> (r: u32)
        ensures
            r == self.resource_fork_size,
    {
        self.resource_fork_size
    }

    pub fn creation_date(&self) -> (r: DateTime)
        ensures
            r == self.creation_date,
    {
        self.creation_date
    }

    pub fn modification_date(&self) -> (r: DateTime)
        ensures
            r == self.modification_date,
    {
        self.modification_date
    }

    /// The name, as the bytes stored on disk.
    pub fn name(&self) -> (r: &[u8])
        ensures
            r@ == self.name.data@,
    {
        self.name.as_bytes()
    }

    pub fn number(&self) -> (r: u32)
        ensures
            r == self.file_number,
    {
        self.file_number
    }

    /// The entry with the given fork's start, size and allocated space replaced.
    pub fn set_fork(self, fork: Fork, start: u16, size: u32, alloc: u32) -> (r: Self)
        ensures
            r == self.with_fork(fork, start, size, alloc),
    {
        let mut r = self;
        match fork {
            Fork::Data => {
                r.data_fork_start = start;
                r.data_fork_size = size;
                r.data_fork_allocated_space = alloc;
            },
            Fork::Resource => {
                r.resource_fork_start = start;
                r.resource_fork_size = size;
                r.resource_fork_allocated_space = alloc;
            },
        }
        r
    }

    /// The entry is in use.
    pub fn in_use(&self) -> (r: bool)
        ensures
            r == (self.flags / 128 == 1),
    {
        self.flags / 128 == 1
    }
}

/// The allocated-space field for `n` blocks of `bs` bytes, saturated to
/// the field's range.
pub open spec fn allocated_field(n: nat, bs: nat) -> u32 {
    if n * bs <= u32::MAX { (n * bs) as u32 } else { u32::MAX }
}

/// The link entries that can be linked to a chain `blocks`: free (0), with a
/// block number that fits a 12-bit link, and not on the chain.
pub open spec fn free_entries(map: Seq<u16>, blocks: Seq<u16>) -> Set<int> {
    Set::new(|f: int| 0 <= f < map.len() && f < 4094 && map[f] == 0 && !blocks.contains(f as u16))
}

/// The free entries are finitely many.
pub proof fn lemma_free_entries_finite(map: Seq<u16>, blocks: Seq<u16>)
    ensures
        free_entries(map, blocks).finite(),
{
    lemma_int_range(0, map.len() as int);
    assert(free_entries(map, blocks).subset_of(set_int_range(0, map.len() as int)));
    lemma_len_subset(free_entries(map, blocks), set_int_range(0, map.len() as int));
}

/// The byte of the allocation region that holds byte `i` of a fork whose
/// logical blocks are `blocks`.
pub open spec fn byte_pos(blocks: Seq<u16>, bs: nat, i: int) -> int {
    blocks[i / bs as int] as int * bs as int + i % bs as int
}

/// No block occurs twice.
pub open spec fn distinct(s: Seq<u16>) -> bool {
    forall|k: int, l: int| 0 <= k < l < s.len() ==> s[k] != s[l]
}

/// The end of the directory entry at `at`: after its fixed part, its name,
/// and the pad byte that aligns the next entry.
pub open spec fn entry_end(disk: Seq<u8>, at: int) -> int {
    let end = at + ENTRY_FIXED_LEN + disk[at + 50] as int;
    if end % 2 == 0 { end } else { end + 1 }
}

/// Where directory entry `i` starts, counting from the one at `at`.
pub open spec fn entry_at(disk: Seq<u8>, at: int, i: nat) -> int
    decreases i,
{
    if i == 0 { at } else { entry_end(disk, entry_at(disk, at, (i - 1) as nat)) }
}

/// Where the entries in use among the first `count` from `at` start, in order.
pub open spec fn kept_entries(disk: Seq<u8>, at: int, count: nat) -> Seq<int>
    decreases count,
{
    if count == 0 {
        Seq::empty()
    } else {
        let prev = kept_entries(disk, at, (count - 1) as nat);
        let p = entry_at(disk, at, (count - 1) as nat);
        if disk[p] >= 0x80 { prev.push(p) } else { prev }
    }
}

/// `e` is the directory entry decoded from the bytes at `p`.
pub open spec fn entry_decoded(e: FileDirectoryBlock, disk: Seq<u8>, p: int) -> bool {
    &&& e.flags == disk[p]
    &&& e.file_number as nat == field32(disk, p + 18)
    &&& e.data_fork_start as nat == field16(disk, p + 22)
    &&& e.data_fork_size as nat == field32(disk, p + 24)
    &&& e.data_fork_allocated_space as nat == field32(disk, p + 28)
    &&& e.resource_fork_start as nat == field16(disk, p + 32)
    &&& e.resource_fork_size as nat == field32(disk, p + 34)
    &&& e.resource_fork_allocated_space as nat == field32(disk, p + 38)
    &&& e.creation_date.0 as nat == field32(disk, p + 42)
    &&& e.modification_date.0 as nat == field32(disk, p + 46)
    &&& e.name.data@ == disk.subrange(p + 51, p + 51 + disk[p + 50])
}

/// `count` directory entries follow one another from `at`, each with its
/// fixed part and its name inside `disk`.
pub open spec fn dir_fits(disk: Seq<u8>, at: int, count: nat) -> bool
    decreases count,
{
    count == 0 || (at + ENTRY_FIXED_LEN <= disk.len() && at + ENTRY_FIXED_LEN + disk[at + 50] <= disk.len()
        && dir_fits(disk, entry_end(disk, at), (count - 1) as nat))
}

/// `b` is an MFS image: the volume information carries its magic and a
/// non-zero block size, and the block map, the file directory and the
/// allocation region all lie inside `b`.
pub open spec fn mfs_image_ok(b: Seq<u8>) -> bool {
    &&& b.len() >= BLOCK_MAP_OFFSET
    &&& b[0x400] == 0xd2 && b[0x401] == 0xd7
    &&& field32(b, 0x414) > 0
    &&& BLOCK_MAP_OFFSET + (field16(b, 0x412) * 12) / 8 <= b.len()
    &&& field16(b, 0x41c) * 512 + field16(b, 0x412) * field32(b, 0x414) <= b.len()
    &&& dir_fits(b, (field16(b, 0x40e) * 512) as int, field16(b, 0x410))
}

/// An MFS volume held in memory.
#[derive(Clone, Debug)]
pub struct Mfs {
    pub info: VolumeInformation,
    pub block_map: BlockMap,
    pub files: Vec<FileDirectoryBlock>,
    pub contents: Vec<u8>,
}

/// Byte `r` of block `a`, for a block below `count`, lies inside `count` blocks.
proof fn lemma_pos_bound(a: int, count: int, bs: int, r: int)
    requires
        0 <= a < count,
        0 <= r < bs,
    ensures
        0 <= a * bs + r < count * bs,
{
    assert((a + 1) * bs <= count * bs) by (nonlinear_arith)
        requires a + 1 <= count, bs > 0;
    assert(0 <= a * bs) by (nonlinear_arith)
        requires a >= 0, bs > 0;
    assert((a + 1) * bs == a * bs + bs) by (nonlinear_arith);
}

/// Two block/offset pairs with offsets below the block size land on the same
/// byte only when they are the same pair.
proof fn lemma_split_unique(a: int, r: int, b: int, s: int, bs: int)
    requires
        0 <= a,
        0 <= b,
        0 <= r < bs,
        0 <= s < bs,
        a * bs + r == b * bs + s,
    ensures
        a == b,
        r == s,
{
    if a < b {
        assert(a * bs + bs <= b * bs) by (nonlinear_arith)
            requires a + 1 <= b, bs > 0;
    } else if b < a {
        assert(b * bs + bs <= a * bs) by (nonlinear_arith)
            requires b + 1 <= a, bs > 0;
    }
}

/// Distinct fork offsets are held by distinct bytes of the allocation region.
proof fn lemma_byte_pos_injective(blocks: Seq<u16>, bs: nat, i: int, j: int)
    requires
        bs > 0,
        distinct(blocks),
        0 <= i < blocks.len() * bs,
        0 <= j < blocks.len() * bs,
        i != j,
    ensures
        byte_pos(blocks, bs, i) != byte_pos(blocks, bs, j),
{
    lemma_div_below(i, blocks.len() as int, bs as int);
    lemma_div_below(j, blocks.len() as int, bs as int);
    if byte_pos(blocks, bs, i) == byte_pos(blocks, bs, j) {
        let bi = blocks[i / bs as int] as int;
        let bj = blocks[j / bs as int] as int;
        lemma_split_unique(bi, i % bs as int, bj, j % bs as int, bs as int);
        assert(i / bs as int == j / bs as int);
        assert(i == bs as int * (i / bs as int) + i % bs as int) by (nonlinear_arith)
            requires bs > 0;
        assert(j == bs as int * (j / bs as int) + j % bs as int) by (nonlinear_arith)
            requires bs > 0;
    }
}

/// The block of an offset below `n` blocks is below `n`.
proof fn lemma_div_below(i: int, n: int, bs: int)
    requires
        bs > 0,
        0 <= i < n * bs,
    ensures
        0 <= i / bs < n,
        0 <= i % bs < bs,
{
    assert(0 <= i / bs < n) by (nonlinear_arith)
        requires bs > 0, 0 <= i < n * bs;
}

/// The byte that holds fork offset `i` lies in the allocation region.
proof fn lemma_byte_pos_in_region(blocks: Seq<u16>, bs: nat, count: nat, i: int)
    requires
        bs > 0,
        forall|k: int| 0 <= k < blocks.len() ==> blocks[k] < count,
        0 <= i < blocks.len() * bs,
    ensures
        0 <= byte_pos(blocks, bs, i) < count * bs,
{
    lemma_div_below(i, blocks.len() as int, bs as int);
    lemma_pos_bound(blocks[i / bs as int] as int, count as int, bs as int, i % bs as int);
}

impl Mfs {
    /// The in-memory image is consistent: the allocation region holds every
    /// allocation block, and the block map has no entry past the last block.
    pub open spec fn wf(&self) -> bool {
        &&& self.info.alloc_block_size > 0
        &&& self.contents@.len() == self.info.alloc_block_count as nat * self.info.alloc_block_size as nat
        &&& self.block_map@.len() <= self.info.alloc_block_count
    }

    pub open spec fn bs(&self) -> nat {
        self.info.alloc_block_size as nat
    }

    /// The fork's block chain ends and is long enough for its declared length.
    pub open spec fn fork_valid(&self, f: FileDirectoryBlock, fork: Fork) -> bool {
        &&& terminates(self.block_map@, f.spec_fork_start(fork))
        &&& f.spec_fork_size(fork) as nat <= chain_len(self.block_map@, f.spec_fork_start(fork)) * self.bs()
    }

    /// The logical blocks of a fork.
    pub open spec fn fork_blocks(&self, f: FileDirectoryBlock, fork: Fork) -> Seq<u16> {
        chain(self.block_map@, f.spec_fork_start(fork))
    }

    /// The bytes of a fork: its declared length, read through its block chain.
    pub open spec fn fork_bytes(&self, f: FileDirectoryBlock, fork: Fork) -> Seq<u8> {
        Seq::new(
            f.spec_fork_size(fork) as nat,
            |i: int| self.contents@[byte_pos(self.fork_blocks(f, fork), self.bs(), i)],
        )
    }

    /// Decodes a volume image. The volume information must carry its magic;
    /// the block map, the file directory and the allocation region must lie in
    /// the image. Directory entries not marked as existing are dropped.
    pub fn new(disk: &[u8]) -> (r: Result<Mfs, FsError>)
        ensures
            disk@.len() < BLOCK_MAP_OFFSET ==> r == Err::<Mfs, FsError>(FsError::IoError),
            disk@.len() >= BLOCK_MAP_OFFSET && (disk@[0x400] != 0xd2 || disk@[0x401] != 0xd7 || field32(disk@, 0x414) == 0)
                <==> r == Err::<Mfs, FsError>(FsError::FormatMismatch),
            r is Ok ==> mfs_image_ok(disk@),
            mfs_image_ok(disk@) && disk@.len() < usize::MAX ==> r is Ok,
            r matches Err(e) ==> e == FsError::FormatMismatch || e == FsError::IoError,
            r matches Ok(m) ==> {
                &&& m.wf()
                &&& disk@[0x400] == 0xd2 && disk@[0x401] == 0xd7
                &&& m.info.alloc_block_count as nat == field16(disk@, 0x412)
                &&& m.info.alloc_block_size as nat == field32(disk@, 0x414)
                &&& m.info.alloc_block_start as nat == field16(disk@, 0x41c)
                &&& m.info.next_file_num as nat == field32(disk@, 0x41e)
                &&& m.block_map@ == unpacked(
                    disk@.subrange(0x440, 0x440 + (m.info.alloc_block_count as int * 12) / 8),
                )
                &&& m.contents@ == disk@.subrange(
                    m.info.alloc_block_start as int * 512,
                    m.info.alloc_block_start as int * 512 + m.contents@.len(),
                )
                &&& m.files@.len() <= field16(disk@, 0x410)
                &&& forall|i: int| 0 <= i < m.files@.len() ==> m.files@[i].flags / 128 == 1
                &&& m.files@.len() == kept_entries(disk@, (field16(disk@, 0x40e) * 512) as int, field16(disk@, 0x410)).len()
                &&& forall|i: int| 0 <= i < m.files@.len() ==> #[trigger] entry_decoded(
                    m.files@[i],
                    disk@,
                    kept_entries(disk@, (field16(disk@, 0x40e) * 512) as int, field16(disk@, 0x410))[i],
                )
            },
    {
        let len = disk.len();
        if len < BLOCK_MAP_OFFSET {
            return Err(FsError::IoError);
        }
        if disk[MDB_OFFSET] != 0xd2 || disk[MDB_OFFSET + 1] != 0xd7 {
            return Err(FsError::FormatMismatch);
        }
        let mut name_data = [0u8; 27];
        let mut k: usize = 0;
        while k < 27
            invariant
                len == disk@.len(),
                len >= BLOCK_MAP_OFFSET,
                k <= 27,
            decreases 27 - k,
        {
            name_data[k] = disk[0x425 + k];
            k = k + 1;
        }
        let info = VolumeInformation {
            creation_date: DateTime::parse(disk, 0x402),
            last_backup_date: DateTime::parse(disk, 0x406),
            attributes: read_u16(disk, 0x40a),
            file_count: read_u16(disk, 0x40c),
            file_directory_start: read_u16(disk, 0x40e),
            file_directory_length: read_u16(disk, 0x410),
            alloc_block_count: read_u16(disk, 0x412),
            alloc_block_size: read_u32(disk, 0x414),
            clump_size: read_u32(disk, 0x418),
            alloc_block_start: read_u16(disk, 0x41c),
            next_file_num: read_u32(disk, 0x41e),
            free_alloc_blocks: read_u16(disk, 0x422),
            name: PascalString { len: disk[0x424], data: name_data },
        };
        if info.alloc_block_size == 0 {
            return Err(FsError::FormatMismatch);
        }
        let map_len = (info.alloc_block_count as usize * 12) / 8;
        if map_len > len - BLOCK_MAP_OFFSET {
            return Err(FsError::IoError);
        }
        let raw_map = vstd::slice::slice_to_vec(slice_subrange(disk, BLOCK_MAP_OFFSET, BLOCK_MAP_OFFSET + map_len));
        let block_map = gimme_block_map(raw_map);
        let count = info.alloc_block_count as u64;
        assert(count * info.alloc_block_size as u64 <= 0xffff * 0xffff_ffffu64) by (nonlinear_arith)
            requires count <= 0xffff, info.alloc_block_size <= 0xffff_ffffu32;
        let region_len = count * info.alloc_block_size as u64;
        let region_start = info.alloc_block_start as u64 * SECTOR as u64;
        if region_start > len as u64 || region_len > len as u64 - region_start {
            return Err(FsError::IoError);
        }
        proof {
            assert(block_map@.len() <= info.alloc_block_count) by (nonlinear_arith)
                requires
                    block_map@.len() == ((map_len as int / 3) * 2),
                    map_len == (info.alloc_block_count as int * 12) / 8;
        }
        let contents = vstd::slice::slice_to_vec(
            slice_subrange(disk, region_start as usize, (region_start + region_len) as usize),
        );
        let files = Self::read_directory(disk, info.file_directory_start as usize * SECTOR, info.file_directory_length);
        match files {
            Err(e) => Err(e),
            Ok(files) => Ok(Mfs { info, block_map, files, contents }),
        }
    }

    /// Reads `count` consecutive directory entries from `at` and keeps those
    /// marked as existing.
    fn read_directory(disk: &[u8], at: usize, count: u16) -> (r: Result<Vec<FileDirectoryBlock>, FsError>)
        ensures
            r is Ok ==> dir_fits(disk@, at as int, count as nat),
            dir_fits(disk@, at as int, count as nat) && disk@.len() < usize::MAX ==> r is Ok,
            r matches Ok(v) ==> v@.len() <= count && forall|i: int| 0 <= i < v@.len() ==> v@[i].flags / 128 == 1,
            r matches Ok(v) ==> v@.len() == kept_entries(disk@, at as int, count as nat).len()
                && forall|i: int| 0 <= i < v@.len() ==> #[trigger] entry_decoded(v@[i], disk@, kept_entries(disk@, at as int, count as nat)[i]),
            r matches Err(e) ==> e == FsError::IoError,
    {
        let len = disk.len();
        let mut out: Vec<FileDirectoryBlock> = Vec::new();
        let mut pos = at;
        let mut i: u16 = 0;
        while i < count
            invariant
                len == disk@.len(),
                i <= count,
                dir_fits(disk@, at as int, count as nat) == dir_fits(disk@, pos as int, (count - i) as nat),
                out@.len() <= i,
                forall|k: int| 0 <= k < out@.len() ==> out@[k].flags / 128 == 1,
                pos as int == entry_at(disk@, at as int, i as nat),
                out@.len() == kept_entries(disk@, at as int, i as nat).len(),
                forall|k: int| 0 <= k < out@.len() ==> #[trigger] entry_decoded(out@[k], disk@, kept_entries(disk@, at as int, i as nat)[k]),
            decreases count - i,
        {
            if pos > len || len - pos < ENTRY_FIXED_LEN {
                return Err(FsError::IoError);
            }
            let name_len = disk[pos + 50] as usize;
            if len - pos - ENTRY_FIXED_LEN < name_len {
                return Err(FsError::IoError);
            }
            let entry = Self::read_entry(disk, pos);
            let mut next = pos + ENTRY_FIXED_LEN + name_len;
            assert(next as int + (next % 2) as int == entry_end(disk@, pos as int));
            if next % 2 == 1 {
                if next == usize::MAX {
                    return Err(FsError::IoError);
                }
                next = next + 1;
            }
            let ghost out0 = out@;
            if entry.in_use() {
                out.push(entry);
            }
            proof {
                let kp = kept_entries(disk@, at as int, i as nat);
                let kn = kept_entries(disk@, at as int, (i + 1) as nat);
                assert(entry_decoded(entry, disk@, pos as int));
                assert forall|k: int| 0 <= k < out@.len() implies #[trigger] entry_decoded(out@[k], disk@, kn[k]) by {
                    if k < out0.len() {
                        assert(out@[k] == out0[k]);
                        assert(kn[k] == kp[k]);
                    }
                }
            }
            pos = next;
            i = i + 1;
        }
        Ok(out)
    }

    /// Decodes the directory entry at `at`.
    fn read_entry(disk: &[u8], at: usize) -> (r: FileDirectoryBlock)
        requires
            at + ENTRY_FIXED_LEN + disk@[at + 50] <= disk@.len(),
        ensures
            r.flags == disk@[at as int],
            r.file_number as nat == field32(disk@, at + 18),
            r.data_fork_start as nat == field16(disk@, at + 22),
            r.data_fork_size as nat == field32(disk@, at + 24),
            r.resource_fork_start as nat == field16(disk@, at + 32),
            r.resource_fork_size as nat == field32(disk@, at + 34),
            r.name.data@ == disk@.subrange(at + 51, at + 51 + disk@[at + 50]),
            entry_decoded(r, disk@, at as int),
    {
        let _n = disk.len();
        let name_len = disk[at + 50] as usize;
        let name = vstd::slice::slice_to_vec(slice_subrange(disk, at + 51, at + 51 + name_len));
        let mut ty = [0u8; 4];
        let mut cr = [0u8; 4];
        let mut k: usize = 0;
        while k < 4
            invariant
                _n == disk@.len(),
                at + ENTRY_FIXED_LEN <= disk@.len(),
                k <= 4,
            decreases 4 - k,
        {
            ty[k] = disk[at + 2 + k];
            cr[k] = disk[at + 6 + k];
            k = k + 1;
        }
        let v = read_u16(disk, at + 16);
        FileDirectoryBlock {
            flags: disk[at],
            version: disk[at + 1],
            file_type: SizedString::new(ty),
            file_creator: SizedString::new(cr),
            finder_flags: read_u16(disk, at + 10),
            position: read_u32(disk, at + 12),
            folder_number: if v < 0x8000 { v as i16 } else { (v as i32 - 0x10000) as i16 },
            file_number: read_u32(disk, at + 18),
            data_fork_start: read_u16(disk, at + 22),
            data_fork_size: read_u32(disk, at + 24),
            data_fork_allocated_space: read_u32(disk, at + 28),
            resource_fork_start: read_u16(disk, at + 32),
            resource_fork_size: read_u32(disk, at + 34),
            resource_fork_allocated_space: read_u32(disk, at + 38),
            creation_date: DateTime::parse(disk, at + 42),
            modification_date: DateTime::parse(disk, at + 46),
            name: DynamicPascalString { len: disk[at + 50], data: name },
        }
    }

    pub fn alloc_block_size(&self) -> (r: u32)
        ensures
            r == self.info.alloc_block_size,
    {
        self.info.alloc_block_size
    }

    pub fn creation_date(&self) -> (r: DateTime)
        ensures
            r == self.info.creation_date,
    {
        self.info.creation_date
    }

    pub fn files(&self) -> (r: &[FileDirectoryBlock])
        ensures
            r@ == self.files@,
    {
        self.files.as_slice()
    }

    /// The first file with number `num`.
    pub fn file_by_id(&self, num: u32) -> (r: Option<FileHandle>)
        ensures
            r matches Some(h) ==> h.0 < self.files@.len() && self.files@[h.0 as int].file_number == num
                && forall|k: int| 0 <= k < h.0 ==> self.files@[k].file_number != num,
            r is None ==> forall|k: int| 0 <= k < self.files@.len() ==> self.files@[k].file_number != num,
    {
        let mut i: usize = 0;
        while i < self.files.len()
            invariant
                i <= self.files@.len(),
                forall|k: int| 0 <= k < i ==> self.files@[k].file_number != num,
            decreases self.files@.len() - i,
        {
            if self.files[i].file_number == num {
                return Some(FileHandle(i));
            }
            i = i + 1;
        }
        None
    }

    /// The first file whose stored name has the bytes of `name`.
    pub fn file_by_name(&self, name: &str) -> (r: Option<FileHandle>)
        ensures
            r matches Some(h) ==> h.0 < self.files@.len() && self.files@[h.0 as int].name.data@ == name.spec_bytes()
                && forall|k: int| 0 <= k < h.0 ==> self.files@[k].name.data@ != name.spec_bytes(),
            r is None ==> forall|k: int| 0 <= k < self.files@.len() ==> self.files@[k].name.data@ != name.spec_bytes(),
    {
        let want = name.as_bytes();
        let mut i: usize = 0;
        while i < self.files.len()
            invariant
                want@ == name.spec_bytes(),
                i <= self.files@.len(),
                forall|k: int| 0 <= k < i ==> self.files@[k].name.data@ != name.spec_bytes(),
            decreases self.files@.len() - i,
        {
            if bytes_equal(self.files[i].name.as_bytes(), want) {
                return Some(FileHandle(i));
            }
            i = i + 1;
        }
        None
    }

    /// The bytes of a fork. A chain that does not end, or that is too short
    /// for the declared length, is corruption.
    pub fn file_contents(&self, file: FileHandle, fork: Fork) -> (r: Result<Vec<u8>, FsError>)
        requires
            self.wf(),
            file.0 < self.files@.len(),
        ensures
            r is Ok <==> self.fork_valid(self.files@[file.0 as int], fork),
            r matches Ok(v) ==> v@ == self.fork_bytes(self.files@[file.0 as int], fork),
            r matches Err(e) ==> e == FsError::StructuralCorruption,
    {
        let f = &self.files[file.0];
        let size = f.fork_size(fork);
        self.read_at(file, fork, 0, size as usize)
    }

    /// Up to `len` bytes of a fork from `offset`; fewer where the fork ends
    /// first, none from past its end.
    pub fn read_at(&self, file: FileHandle, fork: Fork, offset: usize, len: usize) -> (r: Result<Vec<u8>, FsError>)
        requires
            self.wf(),
            file.0 < self.files@.len(),
        ensures
            r is Ok <==> self.fork_valid(self.files@[file.0 as int], fork),
            r matches Ok(v) ==> {
                let all = self.fork_bytes(self.files@[file.0 as int], fork);
                let lo = if offset <= all.len() { offset as int } else { all.len() as int };
                let hi = if offset + len <= all.len() { offset + len } else { all.len() as int };
                v@ == all.subrange(lo, hi)
            },
            r matches Err(e) ==> e == FsError::StructuralCorruption,
    {
        let f = &self.files[file.0];
        let blocks = match self.fork_chain(f, fork) {
            Ok(b) => b,
            Err(e) => return Err(e),
        };
        let size = f.fork_size(fork) as usize;
        let bs = self.info.alloc_block_size as usize;
        let lo = if offset <= size { offset } else { size };
        let hi = if len <= size - lo { lo + len } else { size };
        let ghost all = self.fork_bytes(*f, fork);
        let _clen = self.contents.len();
        let mut out: Vec<u8> = Vec::new();
        let mut i = lo;
        while i < hi
            invariant
                self.wf(),
                bs == self.bs(),
                blocks@ == self.fork_blocks(*f, fork),
                forall|k: int| 0 <= k < blocks@.len() ==> blocks@[k] < self.info.alloc_block_count,
                size as nat <= blocks@.len() * self.bs(),
                size == f.spec_fork_size(fork),
                all == self.fork_bytes(*f, fork),
                lo <= i <= hi <= size,
                _clen == self.contents@.len(),
                out@ == all.subrange(lo as int, i as int),
            decreases hi - i,
        {
            proof {
                lemma_byte_pos_in_region(blocks@, self.bs(), self.info.alloc_block_count as nat, i as int);
                lemma_div_below(i as int, blocks@.len() as int, bs as int);
            }
            let blk = blocks[i / bs] as usize;
            assert(byte_pos(blocks@, self.bs(), i as int) == blk * bs + i % bs);
            assert(blk * bs + i % bs < self.contents@.len());
            let p = blk * bs + i % bs;
            out.push(self.contents[p]);
            proof {
                assert(out@ =~= all.subrange(lo as int, i + 1));
            }
            i = i + 1;
        }
        Ok(out)
    }

    /// The block chain of a fork, checked to be long enough for its length.
    fn fork_chain(&self, f: &FileDirectoryBlock, fork: Fork) -> (r: Result<Vec<u16>, FsError>)
        requires
            self.wf(),
        ensures
            r is Ok <==> self.fork_valid(*f, fork),
            r matches Ok(b) ==> {
                &&& b@ == self.fork_blocks(*f, fork)
                &&& distinct(b@)
                &&& forall|k: int| 0 <= k < b@.len() ==> b@[k] < self.block_map@.len()
                &&& b@.len() <= self.block_map@.len()
                &&& forall|k: int| 0 <= k < b@.len() ==> b@[k] < self.info.alloc_block_count
                &&& f.spec_fork_size(fork) as nat <= b@.len() * self.bs()
            },
            r matches Err(e) ==> e == FsError::StructuralCorruption,
    {
        let blocks = match self.block_map.blocks_of(f.fork_start(fork)) {
            Ok(b) => b,
            Err(e) => return Err(e),
        };
        proof {
            lemma_chain_facts(self.block_map@, f.spec_fork_start(fork));
        }
        assert(blocks.len() as u64 * self.info.alloc_block_size as u64 <= 0xffff * 0xffff_ffffu64) by (nonlinear_arith)
            requires blocks.len() <= 0xffff, self.info.alloc_block_size <= 0xffff_ffffu32;
        let cap = blocks.len() as u64 * self.info.alloc_block_size as u64;
        if f.fork_size(fork) as u64 > cap {
            return Err(FsError::StructuralCorruption);
        }
        Ok(blocks)
    }

    pub fn file_data(&self, file: FileHandle) -> (r: Result<Vec<u8>, FsError>)
        requires
            self.wf(),
            file.0 < self.files@.len(),
        ensures
            r is Ok <==> self.fork_valid(self.files@[file.0 as int], Fork::Data),
            r matches Ok(v) ==> v@ == self.fork_bytes(self.files@[file.0 as int], Fork::Data),
    {
        self.file_contents(file, Fork::Data)
    }

    pub fn file_rsrc(&self, file: FileHandle) -> (r: Result<Vec<u8>, FsError>)
        requires
            self.wf(),
            file.0 < self.files@.len(),
        ensures
            r is Ok <==> self.fork_valid(self.files@[file.0 as int], Fork::Resource),
            r matches Ok(v) ==> v@ == self.fork_bytes(self.files@[file.0 as int], Fork::Resource),
    {
        self.file_contents(file, Fork::Resource)
    }
}

impl Mfs {
    /// Sets the start, length and allocated space of a fork of entry `i`.
    fn update_fork(&mut self, i: usize, fork: Fork, start: u16, size: u32, alloc: u32)
        requires
            i < old(self).files@.len(),
        ensures
            final(self).files@ == old(self).files@.update(i as int, old(self).files@[i as int].with_fork(fork, start, size, alloc)),
            final(self).info == old(self).info,
            final(self).block_map == old(self).block_map,
            final(self).contents == old(self).contents,
    {
        let e = self.files.remove(i);
        let e2 = e.set_fork(fork, start, size, alloc);
        self.files.insert(i, e2);
        assert(self.files@ =~= old(self).files@.update(i as int, old(self).files@[i as int].with_fork(fork, start, size, alloc)));
    }

    /// A free link entry that is not on `blocks` and whose block number fits
    /// a 12-bit link.
    fn find_free(&self, blocks: &Vec<u16>) -> (r: Option<usize>)
        ensures
            r matches Some(f) ==> f < self.block_map@.len() && self.block_map@[f as int] == 0 && f + 2 < 4096
                && forall|k: int| 0 <= k < blocks@.len() ==> blocks@[k] != f,
            r matches Some(f) ==> free_entries(self.block_map@, blocks@).contains(f as int),
            r is None ==> free_entries(self.block_map@, blocks@) =~= Set::<int>::empty(),
    {
        let n = self.block_map.len();
        let mut f: usize = 0;
        while f < n
            invariant
                n == self.block_map@.len(),
                forall|g: int| 0 <= g < f ==> !free_entries(self.block_map@, blocks@).contains(g),
            decreases n - f,
        {
            if f >= 4094 {
                return None;
            }
            if self.block_map.get(f) == 0 {
                let mut on_chain = false;
                let mut k: usize = 0;
                while k < blocks.len()
                    invariant
                        k <= blocks@.len(),
                        f < 4094,
                        !on_chain ==> forall|j: int| 0 <= j < k ==> blocks@[j] != f,
                        on_chain ==> blocks@.contains(f as u16),
                    decreases blocks@.len() - k,
                {
                    if blocks[k] as usize == f {
                        on_chain = true;
                    }
                    k = k + 1;
                }
                if !on_chain {
                    proof {
                        assert(!blocks@.contains(f as u16)) by {
                            if blocks@.contains(f as u16) {
                                let j = choose|j: int| 0 <= j < blocks@.len() && blocks@[j] == f as u16;
                                assert(blocks@[j] != f);
                            }
                        }
                    }
                    return Some(f);
                }
            }
            f = f + 1;
        }
        None
    }

    /// Links one free block at the end of a fork's chain.
    fn link_free_block(&mut self, file: usize, fork: Fork, blocks: &mut Vec<u16>) -> (r: Result<(), FsError>)
        requires
            old(self).wf(),
            file < old(self).files@.len(),
            terminates(old(self).block_map@, old(self).files@[file as int].spec_fork_start(fork)),
            old(blocks)@ == old(self).fork_blocks(old(self).files@[file as int], fork),
            distinct(old(blocks)@),
            forall|k: int| 0 <= k < old(blocks)@.len() ==> old(blocks)@[k] < old(self).block_map@.len(),
        ensures
            final(self).wf(),
            final(self).contents == old(self).contents,
            final(self).block_map@.len() == old(self).block_map@.len(),
            final(self).info.alloc_block_count == old(self).info.alloc_block_count,
            final(self).info.alloc_block_size == old(self).info.alloc_block_size,
            final(self).info.next_file_num == old(self).info.next_file_num,
            final(self).info.file_count == old(self).info.file_count,
            final(self).files@.len() == old(self).files@.len(),
            forall|k: int| 0 <= k < final(self).files@.len() && k != file ==> final(self).files@[k] == old(self).files@[k],
            final(self).files@[file as int] == old(self).files@[file as int].with_fork(
                fork,
                final(self).files@[file as int].spec_fork_start(fork),
                old(self).files@[file as int].spec_fork_size(fork),
                old(self).files@[file as int].spec_fork_allocated(fork),
            ),
            terminates(final(self).block_map@, final(self).files@[file as int].spec_fork_start(fork)),
            final(blocks)@ == final(self).fork_blocks(final(self).files@[file as int], fork),
            distinct(final(blocks)@),
            forall|k: int| 0 <= k < final(blocks)@.len() ==> final(blocks)@[k] < final(self).block_map@.len(),
            r is Ok ==> final(blocks)@.len() == old(blocks)@.len() + 1 && final(blocks)@.drop_last() == old(blocks)@,
            r is Err ==> final(blocks)@ == old(blocks)@ && r == Err::<(), FsError>(FsError::VolumeFull),
            r is Err <==> free_entries(old(self).block_map@, old(blocks)@).len() == 0,
            r is Ok ==> free_entries(final(self).block_map@, final(blocks)@).len() + 1
                == free_entries(old(self).block_map@, old(blocks)@).len(),
            r is Err ==> *final(self) == *old(self),
            old(blocks)@.len() > 0 ==> final(self).files@[file as int].spec_fork_start(fork)
                == old(self).files@[file as int].spec_fork_start(fork),
            final(self).info.alloc_block_size == old(self).info.alloc_block_size,
            r is Ok ==> old(self).block_map@[final(blocks)@.last() as int] == 0 && !old(blocks)@.contains(final(blocks)@.last()),
            forall|e: int| 0 <= e < old(self).block_map@.len() && final(self).block_map@[e] != old(self).block_map@[e]
                ==> (old(self).block_map@[e] == 0 && e == final(blocks)@.last() && !old(blocks)@.contains(e as u16))
                    || (old(blocks)@.len() > 0 && e == old(blocks)@.last()),
    {
        proof {
            lemma_free_entries_finite(self.block_map@, blocks@);
        }
        let f = match self.find_free(blocks) {
            Some(f) => f,
            None => return Err(FsError::VolumeFull),
        };
        let ghost map0 = self.block_map@;
        let ghost blocks0 = blocks@;
        let start = self.files[file].fork_start(fork);
        let ghost start2: u16;
        if blocks.len() == 0 {
            let size = self.files[file].fork_size(fork);
            let alloc = self.files[file].fork_allocated_space(fork);
            self.update_fork(file, fork, (f + 2) as u16, size, alloc);
            proof { start2 = (f + 2) as u16; }
        } else {
            let last = blocks[blocks.len() - 1] as usize;
            self.block_map.set(last, (f + 2) as u16);
            proof { start2 = start; }
        }
        self.block_map.set(f, 1);
        proof {
            lemma_chain_extend(map0, start, f as int, self.block_map@, start2);
        }
        let ghost map1 = self.block_map@;
        blocks.push(f as u16);
        proof {
            let newset = free_entries(map1, blocks@);
            let oldset = free_entries(map0, blocks0);
            assert(blocks@ == blocks0.push(f as u16));
            assert forall|g: int| #[trigger] newset.contains(g) <==> oldset.remove(f as int).contains(g) by {
                if 0 <= g < map0.len() && g < 4094 && g != f {
                    let gb = g as u16;
                    if !blocks0.contains(gb) {
                        if blocks0.len() > 0 {
                            assert(blocks0.contains(blocks0.last()));
                        }
                        assert(map1[g] == map0[g]);
                        if blocks@.contains(gb) {
                            let j = choose|j: int| 0 <= j < blocks@.len() && blocks@[j] == gb;
                            if j < blocks0.len() {
                                assert(blocks0[j] == gb);
                            }
                        }
                    } else {
                        let j = choose|j: int| 0 <= j < blocks0.len() && blocks0[j] == gb;
                        assert(blocks@[j] == gb);
                    }
                }
                if g == f {
                    assert(map1[g] == 1);
                }
            }
            assert(newset =~= oldset.remove(f as int));
            lemma_free_entries_finite(map0, blocks0);
        }
        if self.info.free_alloc_blocks > 0 {
            self.info.free_alloc_blocks = self.info.free_alloc_blocks - 1;
        }
        Ok(())
    }

    /// Appends `data` to a fork. Free space at the end of the fork's last
    /// block is used first; then free blocks are linked to its chain. The
    /// length grows only once all bytes are in place.
    pub fn append_file_data(&mut self, file: FileHandle, fork: Fork, data: &[u8]) -> (r: Result<(), FsError>)
        requires
            old(self).wf(),
            file.0 < old(self).files@.len(),
        ensures
            final(self).wf(),
            final(self).files@.len() == old(self).files@.len(),
            forall|k: int| 0 <= k < final(self).files@.len() && k != file.0 ==> final(self).files@[k] == old(self).files@[k],
            r == Err::<(), FsError>(FsError::StructuralCorruption) <==> !old(self).fork_valid(old(self).files@[file.0 as int], fork),
            old(self).fork_valid(old(self).files@[file.0 as int], fork) ==> final(self).fork_valid(final(self).files@[file.0 as int], fork),
            r is Ok ==> final(self).fork_bytes(final(self).files@[file.0 as int], fork)
                == old(self).fork_bytes(old(self).files@[file.0 as int], fork) + data@,
            r matches Err(e) ==> e == FsError::StructuralCorruption || e == FsError::VolumeFull,
            r == Err::<(), FsError>(FsError::VolumeFull) ==> final(self).fork_bytes(final(self).files@[file.0 as int], fork)
                == old(self).fork_bytes(old(self).files@[file.0 as int], fork),
            r is Ok || (r == Err::<(), FsError>(FsError::VolumeFull)
                && old(self).files@[file.0 as int].spec_fork_size(fork) + data@.len() <= u32::MAX) ==> {
                let f = final(self).files@[file.0 as int];
                &&& final(self).fork_valid(f, fork)
                &&& f.spec_fork_allocated(fork) == allocated_field(
                    chain_len(final(self).block_map@, f.spec_fork_start(fork)),
                    final(self).bs(),
                )
            },
            r is Ok ==> forall|p: int| 0 <= p < final(self).contents@.len()
                && (forall|i: int| old(self).files@[file.0 as int].spec_fork_size(fork) <= i
                    < old(self).files@[file.0 as int].spec_fork_size(fork) + data@.len()
                    ==> p != #[trigger] byte_pos(final(self).fork_blocks(final(self).files@[file.0 as int], fork), final(self).bs(), i))
                ==> final(self).contents@[p] == old(self).contents@[p],
            ({
                let f = old(self).files@[file.0 as int];
                old(self).fork_valid(f, fork)
                    && f.spec_fork_size(fork) + data@.len() <= chain_len(old(self).block_map@, f.spec_fork_start(fork)) * old(self).bs()
                    && f.spec_fork_size(fork) + data@.len() <= u32::MAX
            }) ==> r is Ok && final(self).block_map@ == old(self).block_map@,
            ({
                let f = old(self).files@[file.0 as int];
                old(self).fork_valid(f, fork)
                    && f.spec_fork_size(fork) + data@.len() <= u32::MAX
                    && f.spec_fork_size(fork) + data@.len() <= (chain_len(old(self).block_map@, f.spec_fork_start(fork))
                        + free_entries(old(self).block_map@, old(self).fork_blocks(f, fork)).len()) * old(self).bs()
            }) ==> r is Ok,
            r is Ok ==> final(self).files@[file.0 as int] == old(self).files@[file.0 as int].with_fork(
                fork,
                final(self).files@[file.0 as int].spec_fork_start(fork),
                (old(self).files@[file.0 as int].spec_fork_size(fork) + data@.len()) as u32,
                final(self).files@[file.0 as int].spec_fork_allocated(fork),
            ),
            chain_len(old(self).block_map@, old(self).files@[file.0 as int].spec_fork_start(fork)) > 0
                ==> final(self).files@[file.0 as int].spec_fork_start(fork) == old(self).files@[file.0 as int].spec_fork_start(fork),
            final(self).info.alloc_block_size == old(self).info.alloc_block_size,
            final(self).info.alloc_block_count == old(self).info.alloc_block_count,
            final(self).block_map@.len() == old(self).block_map@.len(),
            forall|e: int| 0 <= e < old(self).block_map@.len() && final(self).block_map@[e] != old(self).block_map@[e]
                ==> final(self).fork_blocks(final(self).files@[file.0 as int], fork).contains(e as u16)
                    && (old(self).block_map@[e] == 0 || (
                        chain_len(old(self).block_map@, old(self).files@[file.0 as int].spec_fork_start(fork)) > 0
                        && e == old(self).fork_blocks(old(self).files@[file.0 as int], fork).last())),
            forall|st: u16| #[trigger] terminates(old(self).block_map@, st)
                && (forall|k: int| 0 <= k < chain(old(self).block_map@, st).len()
                    ==> !final(self).fork_blocks(final(self).files@[file.0 as int], fork).contains(chain(old(self).block_map@, st)[k]))
                ==> terminates(final(self).block_map@, st) && chain(final(self).block_map@, st) == chain(old(self).block_map@, st),
            r is Ok && chain_len(final(self).block_map@, final(self).files@[file.0 as int].spec_fork_start(fork))
                > chain_len(old(self).block_map@, old(self).files@[file.0 as int].spec_fork_start(fork))
                ==> (chain_len(final(self).block_map@, final(self).files@[file.0 as int].spec_fork_start(fork)) - 1) * old(self).bs()
                    < old(self).files@[file.0 as int].spec_fork_size(fork) + data@.len(),
    {
        let ghost old_self = *self;
        let ghost map0 = self.block_map@;
        let ghost f0 = self.files@[file.0 as int];
        let mut blocks = match self.fork_chain(&self.files[file.0], fork) {
            Ok(b) => b,
            Err(e) => {
                proof {
                    lemma_other_chains(map0, map0, self.fork_blocks(self.files@[file.0 as int], fork));
                }
                return Err(e);
            },
        };
        let size = self.files[file.0].fork_size(fork);
        let bs = self.info.alloc_block_size as u64;
        let len = data.len();
        if len as u64 > u32::MAX as u64 - size as u64 {
            proof {
                lemma_other_chains(map0, map0, self.fork_blocks(self.files@[file.0 as int], fork));
            }
            return Err(FsError::VolumeFull);
        }
        let new_size = size as u64 + len as u64;
        let ghost blocks0 = blocks@;
        assert(blocks.len() as u64 * bs <= 0xffff * 0xffff_ffffu64) by (nonlinear_arith)
            requires blocks.len() <= 0xffff, bs <= 0xffff_ffffu64;
        let mut cap = blocks.len() as u64 * bs;
        while cap < new_size
            invariant
                old_self == *old(self),
                f0 == old_self.files@[file.0 as int],
                old_self.fork_valid(f0, fork),
                len == data@.len(),
                file.0 < self.files@.len(),
                cap == blocks@.len() * bs,
                self.wf(),
                bs == self.bs(),
                bs == old_self.bs(),
                self.contents == old_self.contents,
                self.info.alloc_block_count == old_self.info.alloc_block_count,
                self.files@.len() == old_self.files@.len(),
                forall|k: int| 0 <= k < self.files@.len() && k != file.0 ==> self.files@[k] == old_self.files@[k],
                self.files@[file.0 as int] == f0.with_fork(
                    fork,
                    self.files@[file.0 as int].spec_fork_start(fork),
                    size,
                    f0.spec_fork_allocated(fork),
                ),
                terminates(self.block_map@, self.files@[file.0 as int].spec_fork_start(fork)),
                blocks@ == self.fork_blocks(self.files@[file.0 as int], fork),
                distinct(blocks@),
                forall|k: int| 0 <= k < blocks@.len() ==> blocks@[k] < self.block_map@.len(),
                blocks@.len() <= self.block_map@.len(),
                blocks0.len() <= blocks@.len(),
                blocks@.subrange(0, blocks0.len() as int) == blocks0,
                blocks0 == old_self.fork_blocks(f0, fork),
                size as nat <= blocks0.len() * bs,
                size == f0.spec_fork_size(fork),
                new_size == size + len,
                blocks0.len() * bs >= new_size ==> self.block_map@ == old_self.block_map@,
                free_entries(self.block_map@, blocks@).len() + blocks@.len()
                    == free_entries(old_self.block_map@, blocks0).len() + blocks0.len(),
                blocks0.len() > 0 ==> self.files@[file.0 as int].spec_fork_start(fork) == f0.spec_fork_start(fork),
                map0 == old_self.block_map@,
                self.block_map@.len() == map0.len(),
                self.info.alloc_block_size == old_self.info.alloc_block_size,
                forall|e: int| 0 <= e < map0.len() && self.block_map@[e] != map0[e]
                    ==> blocks@.contains(e as u16) && (map0[e] == 0 || (blocks0.len() > 0 && e == blocks0.last())),
                forall|k: int| blocks0.len() <= k < blocks@.len() ==> map0[#[trigger] blocks@[k] as int] == 0,
                blocks@.len() > blocks0.len() ==> (blocks@.len() - 1) * bs < new_size,
            decreases self.block_map@.len() - blocks@.len(),
        {
            let ghost before = blocks@;
            proof {
                assert(blocks0.len() * bs <= blocks@.len() * bs) by (nonlinear_arith)
                    requires blocks0.len() <= blocks@.len(), bs > 0;
                assert(blocks0.len() == chain_len(old_self.block_map@, f0.spec_fork_start(fork)));
                assert(blocks0.len() * bs < new_size);
                assert(!(f0.spec_fork_size(fork) + data@.len() <= chain_len(old_self.block_map@, f0.spec_fork_start(fork)) * old_self.bs()));
            }
            let ghost mcur = self.block_map@;
            let ghost bcur = blocks@;
            let res = self.link_free_block(file.0, fork, &mut blocks);
            if res.is_err() {
                proof {
                    let free0 = free_entries(old_self.block_map@, blocks0).len();
                    assert(blocks@.len() == free0 + blocks0.len());
                    assert(blocks@.len() * bs < new_size);
                    assert(!(new_size <= (blocks0.len() + free0) * bs));
                }
                let alloc_now = if cap <= u32::MAX as u64 { cap as u32 } else { u32::MAX };
                let start_now = self.files[file.0].fork_start(fork);
                self.update_fork(file.0, fork, start_now, size, alloc_now);
                proof {
                    assert(blocks0.len() * bs <= blocks@.len() * bs) by (nonlinear_arith)
                        requires blocks0.len() <= blocks@.len(), bs > 0;
                    assert forall|i: int| 0 <= i < size implies 0 <= #[trigger] byte_pos(blocks@, bs as nat, i) < self.contents@.len() by {
                        lemma_byte_pos_in_region(blocks@, bs as nat, self.info.alloc_block_count as nat, i);
                    }
                    lemma_fork_bytes_prefix(old_self, *self, f0, self.files@[file.0 as int], fork, blocks0, blocks@, size as nat, 0);
                    lemma_other_chains(map0, self.block_map@, blocks@);
                }
                return Err(FsError::VolumeFull);
            }
            proof {
                assert(blocks@.len() == bcur.len() + 1);
                assert(blocks@.drop_last() == bcur);
                assert forall|k: int| 0 <= k < bcur.len() implies blocks@[k] == bcur[k] by {
                    assert(blocks@.drop_last()[k] == blocks@[k]);
                }
                assert(bcur.subrange(0, blocks0.len() as int) == blocks0);
                assert forall|e: int| 0 <= e < map0.len() && self.block_map@[e] != map0[e]
                    implies blocks@.contains(e as u16) && (map0[e] == 0 || (blocks0.len() > 0 && e == blocks0.last())) by {
                    if mcur[e] != map0[e] {
                        let k = choose|k: int| 0 <= k < bcur.len() && bcur[k] == e as u16;
                        assert(blocks@[k] == e as u16);
                    } else if mcur[e] == 0 && e == blocks@.last() && !bcur.contains(e as u16) {
                        assert(blocks@[blocks@.len() - 1] == e as u16);
                    } else {
                        assert(bcur.len() > 0 && e == bcur.last());
                        assert(blocks@[bcur.len() - 1] == e as u16);
                        if bcur.len() == blocks0.len() {
                            assert(bcur.last() == blocks0.last()) by {
                                assert(blocks0[blocks0.len() - 1] == bcur.subrange(0, blocks0.len() as int)[blocks0.len() - 1]);
                            }
                        } else {
                            assert(map0[bcur[bcur.len() - 1] as int] == 0);
                        }
                    }
                }
                let nf = blocks@[blocks@.len() - 1];
                assert(map0[nf as int] == 0) by {
                    assert(nf == blocks@.last());
                    assert(mcur[nf as int] == 0 && !bcur.contains(nf));
                    assert(nf < map0.len());
                    if mcur[nf as int] != map0[nf as int] {
                        assert(bcur.contains(nf as int as u16));
                    }
                }
                assert forall|k: int| blocks0.len() <= k < blocks@.len() implies map0[#[trigger] blocks@[k] as int] == 0 by {
                    if k < bcur.len() {
                        assert(blocks@[k] == bcur[k]);
                    }
                }
                assert((blocks@.len() - 1) * bs == bcur.len() * bs);
            }
            proof {
                assert(blocks@.subrange(0, blocks0.len() as int) =~= before.subrange(0, blocks0.len() as int));
                lemma_distinct_bound(blocks@, self.block_map@.len());
            }
            assert(blocks.len() as u64 * bs <= 0xffff * 0xffff_ffffu64) by (nonlinear_arith)
                requires blocks.len() <= 0xffff, bs <= 0xffff_ffffu64;
            cap = blocks.len() as u64 * bs;
        }
        let start = self.files[file.0].fork_start(fork);
        let ghost files1 = self.files@;
        let ghost map1 = self.block_map@;
        let ghost info1 = self.info;
        let alloc = if cap <= u32::MAX as u64 { cap as u32 } else { u32::MAX };
        let ghost contents0 = self.contents@;
        let clen = self.contents.len();
        let mut k: usize = 0;
        while k < len
            invariant
                self.wf(),
                bs == self.bs(),
                clen == self.contents@.len(),
                contents0.len() == clen,
                blocks@ == self.fork_blocks(self.files@[file.0 as int], fork),
                forall|j: int| 0 <= j < blocks@.len() ==> blocks@[j] < self.info.alloc_block_count,
                distinct(blocks@),
                new_size <= blocks@.len() * bs,
                new_size == size + len,
                new_size <= u32::MAX,
                len == data@.len(),
                k <= len,
                forall|j: int| 0 <= j < k ==> self.contents@[byte_pos(blocks@, bs as nat, size + j)] == data@[j],
                forall|p: int| 0 <= p < clen && (forall|i: int| size <= i < size + k ==> p != #[trigger] byte_pos(blocks@, bs as nat, i))
                    ==> self.contents@[p] == contents0[p],
                self.files@ == files1,
                self.block_map@ == map1,
                self.info == info1,
            decreases len - k,
        {
            let i = size as usize + k;
            proof {
                lemma_byte_pos_in_region(blocks@, bs as nat, self.info.alloc_block_count as nat, i as int);
                lemma_div_below(i as int, blocks@.len() as int, bs as int);
            }
            let blk = blocks[i / bs as usize] as usize;
            assert(byte_pos(blocks@, bs as nat, i as int) == blk * bs as usize + i % bs as usize);
            let p = blk * bs as usize + i % bs as usize;
            let ghost c1 = self.contents@;
            self.contents.set(p, data[k]);
            proof {
                assert(self.contents@[byte_pos(blocks@, bs as nat, i as int)] == data@[k as int]);
                assert forall|j: int| 0 <= j < k + 1 implies self.contents@[byte_pos(blocks@, bs as nat, size + j)] == data@[j] by {
                    if j < k {
                        assert(size + j < blocks@.len() * bs);
                        lemma_byte_pos_injective(blocks@, bs as nat, size + j, i as int);
                        lemma_byte_pos_in_region(blocks@, bs as nat, self.info.alloc_block_count as nat, size + j);
                        assert(c1[byte_pos(blocks@, bs as nat, size + j)] == data@[j]);
                    }
                }
                assert forall|q: int| 0 <= q < clen && (forall|i2: int| size <= i2 < size + k + 1 ==> q != #[trigger] byte_pos(blocks@, bs as nat, i2))
                    implies self.contents@[q] == contents0[q] by {
                    assert(q != byte_pos(blocks@, bs as nat, i as int));
                    assert forall|i2: int| size <= i2 < size + k implies q != #[trigger] byte_pos(blocks@, bs as nat, i2) by {
                        assert(size <= i2 < size + k + 1);
                    }
                }
            }
            k = k + 1;
        }
        self.update_fork(file.0, fork, start, new_size as u32, alloc);
        proof {
            let f1 = self.files@[file.0 as int];
            assert(f1 == f0.with_fork(fork, start, new_size as u32, alloc));
            assert(blocks@ == self.fork_blocks(f1, fork));
            assert forall|i: int| 0 <= i < size + len implies 0 <= #[trigger] byte_pos(blocks@, bs as nat, i) < self.contents@.len() by {
                lemma_byte_pos_in_region(blocks@, bs as nat, self.info.alloc_block_count as nat, i);
            }
            lemma_fork_bytes_prefix(old_self, *self, f0, f1, fork, blocks0, blocks@, size as nat, len as nat);
            lemma_other_chains(map0, self.block_map@, blocks@);
            assert forall|j: int| 0 <= j < len implies #[trigger] self.fork_bytes(f1, fork)[size + j] == data@[j] by {}
            assert(self.fork_bytes(f1, fork) =~= old_self.fork_bytes(f0, fork) + data@);
        }
        Ok(())
    }

    /// Adds an empty file: no blocks, zero lengths, the volume's next file
    /// number, created and modified at `now`.
    pub fn add_file(&mut self, name: &str, ty: [u8; 4], creator: [u8; 4], now: DateTime) -> (r: Result<FileHandle, FsError>)
        ensures
            r matches Ok(h) ==> {
                &&& h.0 == old(self).files@.len()
                &&& final(self).files@.len() == old(self).files@.len() + 1
                &&& final(self).files@.drop_last() == old(self).files@
                &&& final(self).files@[h.0 as int].name.data@ == name.spec_bytes()
                &&& final(self).files@[h.0 as int].file_type.data@ == ty@
                &&& final(self).files@[h.0 as int].file_creator.data@ == creator@
                &&& final(self).files@[h.0 as int].file_number == old(self).info.next_file_num
                &&& final(self).files@[h.0 as int].flags == FILE_EXISTS
                &&& final(self).files@[h.0 as int].data_fork_start == 0
                &&& final(self).files@[h.0 as int].data_fork_size == 0
                &&& final(self).files@[h.0 as int].resource_fork_start == 0
                &&& final(self).files@[h.0 as int].resource_fork_size == 0
                &&& final(self).files@[h.0 as int].creation_date == now
                &&& final(self).files@[h.0 as int].modification_date == now
                &&& final(self).files@[h.0 as int].data_fork_allocated_space == 0
                &&& final(self).files@[h.0 as int].resource_fork_allocated_space == 0
                &&& final(self).files@[h.0 as int].version == 0
                &&& final(self).files@[h.0 as int].finder_flags == 0
                &&& final(self).files@[h.0 as int].position == 0
                &&& final(self).files@[h.0 as int].folder_number == 0
                &&& final(self).info.next_file_num == old(self).info.next_file_num + 1
                &&& final(self).info.file_count == old(self).info.file_count + 1
                &&& final(self).block_map == old(self).block_map
                &&& final(self).contents == old(self).contents
                &&& final(self).info.alloc_block_count == old(self).info.alloc_block_count
                &&& final(self).info.alloc_block_size == old(self).info.alloc_block_size
            },
            r is Ok <==> name.spec_bytes().len() <= 255 && old(self).info.next_file_num < u32::MAX
                && old(self).info.file_count < u16::MAX && old(self).files@.len() < usize::MAX,
            r matches Err(e) ==> *final(self) == *old(self) && e == (if name.spec_bytes().len() > 255 {
                FsError::NameTooLong
            } else {
                FsError::VolumeFull
            }),
    {
        if name.as_bytes().len() > 255 {
            return Err(FsError::NameTooLong);
        }
        if self.info.next_file_num == u32::MAX || self.info.file_count == u16::MAX || self.files.len() == usize::MAX {
            return Err(FsError::VolumeFull);
        }
        let file_number = self.info.next_file_num;
        self.files.push(FileDirectoryBlock {
            flags: FILE_EXISTS,
            version: 0,
            file_type: SizedString::new(ty),
            file_creator: SizedString::new(creator),
            finder_flags: 0,
            position: 0,
            folder_number: 0,
            file_number,
            data_fork_start: 0,
            data_fork_size: 0,
            data_fork_allocated_space: 0,
            resource_fork_start: 0,
            resource_fork_size: 0,
            resource_fork_allocated_space: 0,
            creation_date: now,
            modification_date: now,
            name: DynamicPascalString::new(name),
        });
        self.info.file_count = self.info.file_count + 1;
        self.info.next_file_num = self.info.next_file_num + 1;
        assert(self.files@.drop_last() =~= old(self).files@);
        Ok(FileHandle(self.files.len() - 1))
    }
}

/// Chains that share no block with `fin`, where all changed link entries
/// lie, read the same entries before and after.
proof fn lemma_other_chains(map0: Seq<u16>, map1: Seq<u16>, fin: Seq<u16>)
    requires
        map1.len() == map0.len(),
        forall|e: int| 0 <= e < map0.len() && map1[e] != map0[e] ==> fin.contains(e as u16),
    ensures
        forall|st: u16| #[trigger] terminates(map0, st)
            && (forall|k: int| 0 <= k < chain(map0, st).len() ==> !fin.contains(chain(map0, st)[k]))
            ==> terminates(map1, st) && chain(map1, st) == chain(map0, st),
{
    assert forall|st: u16| #[trigger] terminates(map0, st)
        && (forall|k: int| 0 <= k < chain(map0, st).len() ==> !fin.contains(chain(map0, st)[k]))
        implies terminates(map1, st) && chain(map1, st) == chain(map0, st) by {
        lemma_chain_facts(map0, st);
        let c = chain(map0, st);
        assert forall|k: int| 0 <= k < c.len() implies map1[c[k] as int] == map0[c[k] as int] by {
            assert(c[k] < map0.len());
            assert(!fin.contains(c[k]));
            assert(c[k] as int as u16 == c[k]);
        }
        lemma_chain_unchanged(map0, map1, st);
    }
}

/// The bytes of a fork that kept its first blocks and whose first `size`
/// bytes were not written keep those bytes; more bytes past them may follow.
proof fn lemma_fork_bytes_prefix(
    m0: Mfs,
    m1: Mfs,
    f0: FileDirectoryBlock,
    f1: FileDirectoryBlock,
    fork: Fork,
    blocks0: Seq<u16>,
    blocks1: Seq<u16>,
    size: nat,
    extra: nat,
)
    requires
        m0.bs() == m1.bs(),
        m0.bs() > 0,
        blocks0 == m0.fork_blocks(f0, fork),
        blocks1 == m1.fork_blocks(f1, fork),
        blocks0.len() <= blocks1.len(),
        blocks1.subrange(0, blocks0.len() as int) == blocks0,
        distinct(blocks1),
        size == f0.spec_fork_size(fork),
        size <= blocks0.len() * m0.bs(),
        f1.spec_fork_size(fork) == size + extra,
        size + extra <= blocks1.len() * m0.bs(),
        m0.contents@.len() == m1.contents@.len(),
        forall|p: int| 0 <= p < m1.contents@.len() && (forall|i: int| size <= i < size + extra ==> p != #[trigger] byte_pos(blocks1, m0.bs(), i))
            ==> m1.contents@[p] == m0.contents@[p],
        forall|i: int| 0 <= i < size + extra ==> 0 <= #[trigger] byte_pos(blocks1, m0.bs(), i) < m1.contents@.len(),
    ensures
        m1.fork_bytes(f1, fork).subrange(0, size as int) == m0.fork_bytes(f0, fork),
{
    let bs = m0.bs();
    assert forall|i: int| 0 <= i < size implies #[trigger] m1.fork_bytes(f1, fork)[i] == m0.fork_bytes(f0, fork)[i] by {
        lemma_div_below(i, blocks0.len() as int, bs as int);
        assert(blocks1[i / bs as int] == blocks0[i / bs as int]);
        assert(byte_pos(blocks1, bs, i) == byte_pos(blocks0, bs, i));
        assert forall|i2: int| size <= i2 < size + extra implies byte_pos(blocks1, bs, i) != #[trigger] byte_pos(blocks1, bs, i2) by {
            lemma_byte_pos_injective(blocks1, bs, i, i2);
        }
    }
    assert(m1.fork_bytes(f1, fork).subrange(0, size as int) =~= m0.fork_bytes(f0, fork));
}

/// A sequence of distinct values below `n` has at most `n` elements.
proof fn lemma_distinct_bound(s: Seq<u16>, n: nat)
    requires
        distinct(s),
        forall|k: int| 0 <= k < s.len() ==> s[k] < n,
    ensures
        s.len() <= n,
{
    let ints = s.map_values(|x: u16| x as int);
    assert(ints.no_duplicates());
    lemma_distinct_within(ints, n as int, -1);
}

/// Every byte of a valid fork is read from inside the allocation region:
/// the block holding it is a block of the region, and the byte lies within
/// `[0, block count * block size)` of the region.
pub proof fn lemma_fork_bytes_in_region(m: Mfs, f: FileDirectoryBlock, fork: Fork, i: int)
    requires
        m.wf(),
        m.fork_valid(f, fork),
        0 <= i < f.spec_fork_size(fork),
    ensures
        m.fork_blocks(f, fork)[i / m.bs() as int] < m.info.alloc_block_count,
        0 <= byte_pos(m.fork_blocks(f, fork), m.bs(), i) < m.info.alloc_block_count as nat * m.bs(),
{
    let blocks = m.fork_blocks(f, fork);
    lemma_chain_facts(m.block_map@, f.spec_fork_start(fork));
    lemma_div_below(i, blocks.len() as int, m.bs() as int);
    lemma_byte_pos_in_region(blocks, m.bs(), m.info.alloc_block_count as nat, i);
}

/// The blocks of a chain that ends are distinct link entries, and there are
/// no more of them than entries.
pub proof fn lemma_chain_facts(map: Seq<u16>, start: u16)
    requires
        terminates(map, start),
    ensures
        ends_at(map, start, chain_len(map, start)),
        forall|k: int| 0 <= k < chain(map, start).len() ==> chain(map, start)[k] < map.len(),
{
    let n = chain_len(map, start);
    assert(ends_at(map, start, n));
    assert forall|k: int| 0 <= k < chain(map, start).len() implies chain(map, start)[k] < map.len() by {
        assert(linked_at(map, start, k as nat));
    }
}


} // verus!
