//! The hierarchical HFS volume: the master directory block, the catalog
//! B-tree and its records, the directory tree rebuilt from them, and reads of
//! file forks through their extents.
use vstd::prelude::*;

use crate::bytes::{field16, field32, read_u16, read_u32};
use crate::common::{DateTime, ExtraFinderInfo, FinderInfo, PascalString};
use crate::error::FsError;
use vstd::multiset::Multiset;
use crate::mfs::Fork;
use crate::tree::{
    trimmed, dir_linked, file_linked, lemma_forest_linked_append, lemma_forest_linked_one, tree_linked, Records, file_id_seq, file_ids_of, forest_file_ids, lemma_forest_file_ids_append, lemma_id_multiset_append, lemma_tree_file_ids,
    tree_file_ids, lemma_flat_forest_file_ids, id_multiset, lemma_flat_forest_ids, forest_ids, lemma_forest_ids_append, lemma_each_directory_placed_once, lemma_tree_ids, tree_ids, cnid_of, parent_placed_before, place_records, placeable, placement_ok, resolve, Cnid, Directory, File,
    PathTarget,
};
use vstd::slice::{slice_subrange, slice_to_vec};

verus! {

/// Size of a catalog B-tree node.
pub const NODE_SIZE: usize = 512;

/// Byte offset of the master directory block.
pub const MDB_START: usize = 0x400;

/// Size of a node descriptor.
pub const NODE_DESCRIPTOR_LEN: usize = 14;

/// A run of allocation blocks.
#[derive(Clone, Copy, Debug, PartialEq, Eq, Structural)]
pub struct ExtDescriptor {
    pub first_alloc_blk: u16,
    pub alloc_blk_count: u16,
}

/// The three extents recorded inline for a fork.
#[derive(Clone, Copy, Debug, PartialEq, Eq)]
pub struct ExtDataRec(pub [ExtDescriptor; 3]);

impl ExtDataRec {
    /// Reads the twelve-byte record at `at`.
    pub fn parse(b: &[u8], at: usize) -> (r: Self)
        requires
            at + 12 <= b@.len(),
        ensures
            r.0[0].first_alloc_blk as nat == field16(b@, at as int),
            r.0[0].alloc_blk_count as nat == field16(b@, at + 2),
            r.0[1].first_alloc_blk as nat == field16(b@, at + 4),
            r.0[1].alloc_blk_count as nat == field16(b@, at + 6),
            r.0[2].first_alloc_blk as nat == field16(b@, at + 8),
            r.0[2].alloc_blk_count as nat == field16(b@, at + 10),
    {
        let _n = b.len();
        ExtDataRec([
            ExtDescriptor { first_alloc_blk: read_u16(b, at), alloc_blk_count: read_u16(b, at + 2) },
            ExtDescriptor { first_alloc_blk: read_u16(b, at + 4), alloc_blk_count: read_u16(b, at + 6) },
            ExtDescriptor { first_alloc_blk: read_u16(b, at + 8), alloc_blk_count: read_u16(b, at + 10) },
        ])
    }
}

/// The master directory block.
#[derive(Clone, Debug)]
pub struct Mdb {
    pub ctime: DateTime,
    pub mtime: DateTime,
    pub attrs: u16,
    pub root_dir_file_count: u16,
    pub bitmap_start: u16,
    pub alloc_ptr: u16,
    pub alloc_blk_count: u16,
    pub alloc_blk_size: u32,
    pub clump_size: u32,
    pub alloc_blk_start: u16,
    pub next_catalog_id: u32,
    pub free_blks: u16,
    pub name: PascalString<27>,
    pub backup_date: DateTime,
    pub backup_seq: u16,
    pub write_count: u32,
    pub extents_overflow_clump_size: u32,
    pub catalog_clump_size: u32,
    pub root_dir_dir_count: u16,
    pub file_count: u32,
    pub dir_count: u32,
    pub cache_size: u16,
    pub bitmap_cache_size: u16,
    pub common_volume_cache_size: u16,
    pub extents_overflow_size: u32,
    pub extents_overflow_record: ExtDataRec,
    pub catalog_file_size: u32,
    pub catalog_file_extent: ExtDataRec,
}

impl Mdb {
    /// Byte offset of allocation block `blk` from the start of the volume: the
    /// allocation region starts `alloc_blk_start` blocks into the volume.
    pub open spec fn spec_alloc_block_offset(&self, blk: u16) -> nat {
        self.alloc_blk_start as nat * self.alloc_blk_size as nat + blk as nat * self.alloc_blk_size as nat
    }

    /// Decodes the master directory block at `at`; it starts with "BD".
    pub fn parse(b: &[u8], at: usize) -> (r: Result<Mdb, FsError>)
        ensures
            at + 162 > b@.len() ==> r == Err::<Mdb, FsError>(FsError::IoError),
            at + 162 <= b@.len() && (b@[at as int] != 0x42 || b@[at + 1] != 0x44)
                ==> r == Err::<Mdb, FsError>(FsError::FormatMismatch),
            at + 162 <= b@.len() && b@[at as int] == 0x42 && b@[at + 1] == 0x44 ==> r is Ok,
            r matches Ok(m) ==> {
                &&& m.alloc_blk_count as nat == field16(b@, at + 18)
                &&& m.alloc_blk_size as nat == field32(b@, at + 20)
                &&& m.alloc_blk_start as nat == field16(b@, at + 28)
                &&& m.catalog_file_size as nat == field32(b@, at + 146)
                &&& m.catalog_file_extent.0[0].first_alloc_blk as nat == field16(b@, at + 150)
            },
    {
        let len = b.len();
        if at > len || len - at < 162 {
            return Err(FsError::IoError);
        }
        if b[at] != 0x42 || b[at + 1] != 0x44 {
            return Err(FsError::FormatMismatch);
        }
        let mut name = [0u8; 27];
        let mut k: usize = 0;
        while k < 27
            invariant
                len == b@.len(),
                at + 162 <= len,
                k <= 27,
            decreases 27 - k,
        {
            name[k] = b[at + 37 + k];
            k = k + 1;
        }
        Ok(Mdb {
            ctime: DateTime::parse(b, at + 2),
            mtime: DateTime::parse(b, at + 6),
            attrs: read_u16(b, at + 10),
            root_dir_file_count: read_u16(b, at + 12),
            bitmap_start: read_u16(b, at + 14),
            alloc_ptr: read_u16(b, at + 16),
            alloc_blk_count: read_u16(b, at + 18),
            alloc_blk_size: read_u32(b, at + 20),
            clump_size: read_u32(b, at + 24),
            alloc_blk_start: read_u16(b, at + 28),
            next_catalog_id: read_u32(b, at + 30),
            free_blks: read_u16(b, at + 34),
            name: PascalString { len: b[at + 36], data: name },
            backup_date: DateTime::parse(b, at + 64),
            backup_seq: read_u16(b, at + 68),
            write_count: read_u32(b, at + 70),
            extents_overflow_clump_size: read_u32(b, at + 74),
            catalog_clump_size: read_u32(b, at + 78),
            root_dir_dir_count: read_u16(b, at + 82),
            file_count: read_u32(b, at + 84),
            dir_count: read_u32(b, at + 88),
            cache_size: read_u16(b, at + 124),
            bitmap_cache_size: read_u16(b, at + 126),
            common_volume_cache_size: read_u16(b, at + 128),
            extents_overflow_size: read_u32(b, at + 130),
            extents_overflow_record: ExtDataRec::parse(b, at + 134),
            catalog_file_size: read_u32(b, at + 146),
            catalog_file_extent: ExtDataRec::parse(b, at + 150),
        })
    }

    /// Bytes of the volume bitmap: one bit per allocation block.
    pub fn volume_bitmap_len(&self) -> (r: usize)
        ensures
            r == (self.alloc_blk_count as nat + 7) / 8,
    {
        (self.alloc_blk_count as usize + 7) / 8
    }

    /// Byte offset of allocation block `blk` from the start of the volume.
    pub fn alloc_block_offset(&self, blk: u16) -> (r: u64)
        ensures
            r == self.spec_alloc_block_offset(blk),
            blk < self.alloc_blk_count ==> {
                let start = self.alloc_blk_start as nat * self.alloc_blk_size as nat;
                &&& start <= r
                &&& r + self.alloc_blk_size as nat <= start + self.alloc_blk_count as nat * self.alloc_blk_size as nat
            },
    {
        proof {
            let bs = self.alloc_blk_size as int;
            if blk < self.alloc_blk_count {
                assert(blk as int * bs + bs <= self.alloc_blk_count as int * bs) by (nonlinear_arith)
                    requires blk < self.alloc_blk_count, bs >= 0;
            }
            assert(blk as int * bs >= 0) by (nonlinear_arith)
                requires blk >= 0, bs >= 0;
        }
        assert(blk as u64 * self.alloc_blk_size as u64 <= 0xffff * 0xffff_ffffu64) by (nonlinear_arith)
            requires blk <= 0xffff, self.alloc_blk_size <= 0xffff_ffffu32;
        assert(self.alloc_blk_start as u64 * self.alloc_blk_size as u64 <= 0xffff * 0xffff_ffffu64) by (nonlinear_arith)
            requires self.alloc_blk_start <= 0xffff, self.alloc_blk_size <= 0xffff_ffffu32;
        self.alloc_blk_start as u64 * self.alloc_blk_size as u64 + blk as u64 * self.alloc_blk_size as u64
    }

    /// Byte offset of the catalog file: the start of its first extent.
    pub fn catalog_file_start(&self) -> (r: u64)
        ensures
            r == self.spec_alloc_block_offset(self.catalog_file_extent.0[0].first_alloc_blk),
    {
        self.alloc_block_offset(self.catalog_file_extent.0[0].first_alloc_blk)
    }
}

/// The kind of a B-tree node.
#[derive(Clone, Copy, Debug, PartialEq, Eq, Structural)]
pub enum NodeType {
    Index,
    Header,
    MapNode,
    Leaf,
}

impl NodeType {
    /// The node kind of a tag byte; other bytes name none.
    pub fn from_tag(t: u8) -> (r: Option<NodeType>)
        ensures
            r == (if t == 0 {
                Some(NodeType::Index)
            } else if t == 1 {
                Some(NodeType::Header)
            } else if t == 2 {
                Some(NodeType::MapNode)
            } else if t == 0xff {
                Some(NodeType::Leaf)
            } else {
                None::<NodeType>
            }),
    {
        if t == 0 {
            Some(NodeType::Index)
        } else if t == 1 {
            Some(NodeType::Header)
        } else if t == 2 {
            Some(NodeType::MapNode)
        } else if t == 0xff {
            Some(NodeType::Leaf)
        } else {
            None
        }
    }
}

/// `t` is the tag of a node kind: index, header, map or leaf.
pub open spec fn node_tag_ok(t: u8) -> bool {
    t == 0 || t == 1 || t == 2 || t == 0xff
}

/// The header node at `at` decodes: it lies in `b`, its kind is known and
/// its node size is 512.
pub open spec fn header_ok(b: Seq<u8>, at: int) -> bool {
    &&& 0 <= at
    &&& at + NODE_SIZE <= b.len()
    &&& node_tag_ok(b[at + 8])
    &&& field16(b, at + 32) == 512
}

/// The catalog at `at` decodes: its header node, a non-zero node count, and
/// each of the nodes that follow it, 512 bytes apart.
pub open spec fn catalog_ok(b: Seq<u8>, at: int) -> bool {
    &&& header_ok(b, at)
    &&& field32(b, at + 36) > 0
    &&& forall|i: int| 1 <= i < field32(b, at + 36) ==> #[trigger] node_ok(b, at + NODE_SIZE * i)
}

/// Where the catalog starts: at the first block of its first extent, the
/// allocation region starting `alloc_blk_start` blocks into the volume.
pub open spec fn catalog_start(b: Seq<u8>) -> int {
    (field16(b, 0x41c) * field32(b, 0x414) + field16(b, 0x496) * field32(b, 0x414)) as int
}

/// `b` holds an HFS volume: the master directory block with its "BD"
/// signature, the volume bitmap after it, and a catalog that decodes.
pub open spec fn hfs_ok(b: Seq<u8>) -> bool {
    &&& MDB_START + 162 <= b.len()
    &&& b[MDB_START as int] == 0x42 && b[MDB_START + 1] == 0x44
    &&& MDB_START + NODE_SIZE + (field16(b, 0x412) + 7) / 8 <= b.len()
    &&& catalog_ok(b, catalog_start(b))
}

/// The descriptor at the start of every node.
#[derive(Clone, Copy, Debug, PartialEq, Eq, Structural)]
pub struct NodeDescriptor {
    pub forward_link: u32,
    pub backward_link: u32,
    pub ty: NodeType,
    pub level: u8,
    pub record_count: u16,
}

impl NodeDescriptor {
    /// Reads the descriptor at `at`; an unknown node kind is a format error.
    pub fn parse(b: &[u8], at: usize) -> (r: Result<NodeDescriptor, FsError>)
        requires
            at + NODE_DESCRIPTOR_LEN <= b@.len(),
        ensures
            r matches Ok(d) ==> d.record_count as nat == field16(b@, at + 10) && d.level == b@[at + 9]
                && d.forward_link as nat == field32(b@, at as int)
                && (d.ty == NodeType::Leaf <==> b@[at + 8] == 0xff)
                && (d.ty == NodeType::Index <==> b@[at + 8] == 0),
            r is Err <==> !(b@[at + 8] == 0 || b@[at + 8] == 1 || b@[at + 8] == 2 || b@[at + 8] == 0xff),
            r matches Err(e) ==> e == FsError::FormatMismatch,
    {
        let _n = b.len();
        let ty = match NodeType::from_tag(b[at + 8]) {
            Some(t) => t,
            None => return Err(FsError::FormatMismatch),
        };
        Ok(NodeDescriptor {
            forward_link: read_u32(b, at),
            backward_link: read_u32(b, at + 4),
            ty,
            level: b[at + 9],
            record_count: read_u16(b, at + 10),
        })
    }
}

/// The header record of a B-tree.
#[derive(Clone, Copy, Debug, PartialEq, Eq)]
pub struct HeaderRecord {
    pub depth: u16,
    pub root: u32,
    pub leaf_count: u32,
    pub first_leaf: u32,
    pub last_leaf: u32,
    pub node_size: u16,
    pub max_key_len: u16,
    pub node_count: u32,
    pub free_nodes: u32,
}

/// The node-allocation bitmap of the header node.
#[derive(Clone, Debug)]
pub struct MapRecord(pub Vec<u8>);

/// The first node of a B-tree.
#[derive(Clone, Debug)]
pub struct HeaderNode {
    pub desc: NodeDescriptor,
    pub header_record: HeaderRecord,
    pub map_record: MapRecord,
    pub free_offset: u16,
    pub map_offset: u16,
    pub reserved_offset: u16,
    pub header_offset: u16,
}

impl HeaderNode {
    /// Decodes the header node at `at`. Its node size must be 512.
    pub fn parse(b: &[u8], at: usize) -> (r: Result<HeaderNode, FsError>)
        ensures
            r matches Ok(h) ==> at + NODE_SIZE <= b@.len() && h.header_record.node_size == 512
                && h.header_record.node_count as nat == field32(b@, at + 36)
                && h.header_record.root as nat == field32(b@, at + 16),
            at + NODE_SIZE > b@.len() ==> r == Err::<HeaderNode, FsError>(FsError::IoError),
            at + NODE_SIZE <= b@.len() && field16(b@, at + 32) != 512 ==> r is Err,
            r is Ok <==> header_ok(b@, at as int),
            r matches Err(e) ==> e == header_err(b@, at as int),
            r is Err ==> r == Err::<HeaderNode, FsError>(FsError::IoError) || r == Err::<HeaderNode, FsError>(FsError::FormatMismatch),
    {
        let len = b.len();
        if at > len || len - at < NODE_SIZE {
            return Err(FsError::IoError);
        }
        let desc = match NodeDescriptor::parse(b, at) {
            Ok(d) => d,
            Err(e) => return Err(e),
        };
        let header_record = HeaderRecord {
            depth: read_u16(b, at + 14),
            root: read_u32(b, at + 16),
            leaf_count: read_u32(b, at + 20),
            first_leaf: read_u32(b, at + 24),
            last_leaf: read_u32(b, at + 28),
            node_size: read_u16(b, at + 32),
            max_key_len: read_u16(b, at + 34),
            node_count: read_u32(b, at + 36),
            free_nodes: read_u32(b, at + 40),
        };
        if header_record.node_size != 512 {
            return Err(FsError::FormatMismatch);
        }
        let map = slice_to_vec(slice_subrange(b, at + 248, at + 504));
        Ok(HeaderNode {
            desc,
            header_record,
            map_record: MapRecord(map),
            free_offset: read_u16(b, at + 504),
            map_offset: read_u16(b, at + 506),
            reserved_offset: read_u16(b, at + 508),
            header_offset: read_u16(b, at + 510),
        })
    }
}

/// The payload of a leaf record, selected by its tag byte.
#[derive(Clone, Debug)]
pub enum CatalogRecordData {
    Directory {
        flags: u16,
        valence: u16,
        id: Cnid,
        ctime: DateTime,
        mtime: DateTime,
        backup_time: DateTime,
        finder_info: FinderInfo,
        more_finder_info: ExtraFinderInfo,
    },
    File {
        flags: u8,
        kind: u8,
        finder_info: FinderInfo,
        id: Cnid,
        data_start: u16,
        data_len: u32,
        data_allocated_len: u32,
        rsrc_start: u16,
        rsrc_len: u32,
        rsrc_allocated_len: u32,
        ctime: DateTime,
        mtime: DateTime,
        backup_time: DateTime,
        more_finder_info: ExtraFinderInfo,
        clump_size: u16,
        data_extent: ExtDataRec,
        rsrc_extent: ExtDataRec,
    },
    DirectoryThread { parent_id: Cnid, name: PascalString<31> },
    FileThread { parent_id: Cnid, name: PascalString<31> },
}

/// Size of a directory record's payload.
pub const DIR_RECORD_LEN: usize = 70;

/// Size of a file record's payload.
pub const FILE_RECORD_LEN: usize = 102;

/// Size of a thread record's payload.
pub const THREAD_RECORD_LEN: usize = 46;

/// Size of an index record.
pub const INDEX_RECORD_LEN: usize = 42;

/// The payload length for a record tag, or 0 for an unknown tag.
pub open spec fn payload_len(tag: u8) -> int {
    if tag == 1 {
        DIR_RECORD_LEN as int
    } else if tag == 2 {
        FILE_RECORD_LEN as int
    } else if tag == 3 || tag == 4 {
        THREAD_RECORD_LEN as int
    } else {
        0
    }
}

/// `d` is the payload decoded from the bytes at `at`: its kind is the tag
/// byte, and its identifier, fork lengths and first extents are read from
/// their fields.
pub open spec fn data_decoded(d: CatalogRecordData, b: Seq<u8>, at: int) -> bool {
    match d {
        CatalogRecordData::Directory { id, .. } => b[at] == 1 && id == cnid_of(field32(b, at + 6) as u32),
        CatalogRecordData::File { id, data_len, rsrc_len, data_extent, rsrc_extent, .. } => {
            &&& b[at] == 2
            &&& id == cnid_of(field32(b, at + 20) as u32)
            &&& data_len as nat == field32(b, at + 26)
            &&& rsrc_len as nat == field32(b, at + 36)
            &&& data_extent.0[0].first_alloc_blk as nat == field16(b, at + 74)
            &&& data_extent.0[0].alloc_blk_count as nat == field16(b, at + 76)
            &&& rsrc_extent.0[0].first_alloc_blk as nat == field16(b, at + 86)
            &&& rsrc_extent.0[0].alloc_blk_count as nat == field16(b, at + 88)
        },
        CatalogRecordData::DirectoryThread { .. } => b[at] == 3,
        CatalogRecordData::FileThread { .. } => b[at] == 4,
    }
}

/// Reads a Pascal string of capacity 31 at `at`.
fn read_pstring31(b: &[u8], at: usize) -> (r: PascalString<31>)
    requires
        at + 32 <= b@.len(),
    ensures
        r.len == b@[at as int],
        r.data@ == b@.subrange(at + 1, at + 32),
{
    let _n = b.len();
    let mut data = [0u8; 31];
    let mut k: usize = 0;
    while k < 31
        invariant
            _n == b@.len(),
            at + 32 <= _n,
            k <= 31,
            forall|q: int| 0 <= q < k ==> data@[q] == b@[at + 1 + q],
        decreases 31 - k,
    {
        data[k] = b[at + 1 + k];
        k = k + 1;
    }
    assert(data@ =~= b@.subrange(at + 1, at + 32));
    PascalString { len: b[at], data }
}

impl CatalogRecordData {
    /// Decodes the payload at `at`: its tag byte is read and checked first.
    pub fn parse(b: &[u8], at: usize) -> (r: Result<CatalogRecordData, FsError>)
        ensures
            at >= b@.len() ==> r == Err::<CatalogRecordData, FsError>(FsError::IoError),
            at < b@.len() && payload_len(b@[at as int]) == 0
                ==> r == Err::<CatalogRecordData, FsError>(FsError::FormatMismatch),
            at < b@.len() && payload_len(b@[at as int]) > 0 && at + payload_len(b@[at as int]) > b@.len()
                ==> r == Err::<CatalogRecordData, FsError>(FsError::IoError),
            at < b@.len() && payload_len(b@[at as int]) > 0 && at + payload_len(b@[at as int]) <= b@.len() ==> r is Ok,
            r matches Ok(d) ==> data_decoded(d, b@, at as int),
    {
        let len = b.len();
        if at >= len {
            return Err(FsError::IoError);
        }
        let tag = b[at];
        if tag == 1 {
            if len - at < DIR_RECORD_LEN {
                return Err(FsError::IoError);
            }
            Ok(CatalogRecordData::Directory {
                flags: read_u16(b, at + 2),
                valence: read_u16(b, at + 4),
                id: Cnid::from_u32(read_u32(b, at + 6)),
                ctime: DateTime::parse(b, at + 10),
                mtime: DateTime::parse(b, at + 14),
                backup_time: DateTime::parse(b, at + 18),
                finder_info: FinderInfo::parse(b, at + 22),
                more_finder_info: ExtraFinderInfo::parse(b, at + 38),
            })
        } else if tag == 2 {
            if len - at < FILE_RECORD_LEN {
                return Err(FsError::IoError);
            }
            Ok(CatalogRecordData::File {
                flags: b[at + 2],
                kind: b[at + 3],
                finder_info: FinderInfo::parse(b, at + 4),
                id: Cnid::from_u32(read_u32(b, at + 20)),
                data_start: read_u16(b, at + 24),
                data_len: read_u32(b, at + 26),
                data_allocated_len: read_u32(b, at + 30),
                rsrc_start: read_u16(b, at + 34),
                rsrc_len: read_u32(b, at + 36),
                rsrc_allocated_len: read_u32(b, at + 40),
                ctime: DateTime::parse(b, at + 44),
                mtime: DateTime::parse(b, at + 48),
                backup_time: DateTime::parse(b, at + 52),
                more_finder_info: ExtraFinderInfo::parse(b, at + 56),
                clump_size: read_u16(b, at + 72),
                data_extent: ExtDataRec::parse(b, at + 74),
                rsrc_extent: ExtDataRec::parse(b, at + 86),
            })
        } else if tag == 3 || tag == 4 {
            if len - at < THREAD_RECORD_LEN {
                return Err(FsError::IoError);
            }
            let parent_id = Cnid::from_u32(read_u32(b, at + 10));
            let name = read_pstring31(b, at + 14);
            if tag == 3 {
                Ok(CatalogRecordData::DirectoryThread { parent_id, name })
            } else {
                Ok(CatalogRecordData::FileThread { parent_id, name })
            }
        } else {
            Err(FsError::FormatMismatch)
        }
    }
}

/// A record of a catalog node: an index record points to a child node; a
/// leaf record holds a directory, a file or a thread under its parent.
#[derive(Clone, Debug)]
pub enum CatalogRecord {
    Index { key_len: u8, parent_id: Cnid, name: PascalString<31>, id: Cnid },
    Leaf { key_len: u8, parent_id: Cnid, name: Vec<u8>, data: CatalogRecordData },
}

/// Where the payload of the leaf record at `at` starts: after the key's
/// length byte, pad byte, parent identifier and name, aligned to two bytes.
pub open spec fn leaf_payload_start(b: Seq<u8>, at: int) -> int {
    let end = at + 7 + b[at + 6] as int;
    if end % 2 == 0 { end } else { end + 1 }
}

impl CatalogRecord {
    /// Decodes the leaf record at `at`; returns it and the offset after it.
    pub fn parse_leaf(b: &[u8], at: usize) -> (r: Result<(CatalogRecord, usize), FsError>)
        ensures
            r is Ok <==> leaf_ok(b@, at as int),
            r matches Ok((rec, next)) ==> next == leaf_next(b@, at as int) && leaf_decoded(rec, b@, at as int),
            r matches Err(e) ==> e == leaf_err(b@, at as int),
    {
        let len = b.len();
        if at > len || len - at < 7 {
            return Err(FsError::IoError);
        }
        let name_len = b[at + 6] as usize;
        if len - at - 7 < name_len {
            return Err(FsError::IoError);
        }
        let name = slice_to_vec(slice_subrange(b, at + 7, at + 7 + name_len));
        let mut start = at + 7 + name_len;
        if start % 2 == 1 {
            if start == usize::MAX {
                return Err(FsError::IoError);
            }
            start = start + 1;
        }
        let data = match CatalogRecordData::parse(b, start) {
            Ok(d) => d,
            Err(e) => return Err(e),
        };
        let next = start + payload_size(&data);
        Ok((CatalogRecord::Leaf { key_len: b[at], parent_id: Cnid::from_u32(read_u32(b, at + 2)), name, data }, next))
    }

    /// Decodes the index record at `at`.
    pub fn parse_index(b: &[u8], at: usize) -> (r: Result<CatalogRecord, FsError>)
        ensures
            r is Ok <==> at + INDEX_RECORD_LEN <= b@.len(),
            r matches Err(e) ==> e == FsError::IoError,
            r matches Ok(rec) ==> match rec {
                CatalogRecord::Index { parent_id, id, .. } => parent_id == cnid_of(field32(b@, at + 2) as u32)
                    && id == cnid_of(field32(b@, at + 38) as u32),
                _ => false,
            },
    {
        let len = b.len();
        if at > len || len - at < INDEX_RECORD_LEN {
            return Err(FsError::IoError);
        }
        Ok(CatalogRecord::Index {
            key_len: b[at],
            parent_id: Cnid::from_u32(read_u32(b, at + 2)),
            name: read_pstring31(b, at + 6),
            id: Cnid::from_u32(read_u32(b, at + 38)),
        })
    }
}

/// The leaf record at `at` fits: its key and name lie in `b`, its payload's
/// tag is known, and the payload lies in `b`.
pub open spec fn leaf_ok(b: Seq<u8>, at: int) -> bool {
    let p = leaf_payload_start(b, at);
    &&& 0 <= at
    &&& at + 7 <= b.len()
    &&& at + 7 + b[at + 6] <= b.len()
    &&& p < b.len()
    &&& payload_len(b[p]) > 0
    &&& p + payload_len(b[p]) <= b.len()
}

/// Where the record after the leaf record at `at` starts.
pub open spec fn leaf_next(b: Seq<u8>, at: int) -> int {
    leaf_payload_start(b, at) + payload_len(b[leaf_payload_start(b, at)])
}

/// `rec` is the leaf record decoded from the bytes at `at`.
pub open spec fn leaf_decoded(rec: CatalogRecord, b: Seq<u8>, at: int) -> bool {
    match rec {
        CatalogRecord::Leaf { parent_id, name, data, .. } => {
            &&& parent_id == cnid_of(field32(b, at + 2) as u32)
            &&& name@ == b.subrange(at + 7, at + 7 + b[at + 6])
            &&& data_decoded(data, b, leaf_payload_start(b, at))
        },
        _ => false,
    }
}

/// The payload size of a decoded record.
fn payload_size(d: &CatalogRecordData) -> (r: usize)
    ensures
        r == match d {
            CatalogRecordData::Directory { .. } => DIR_RECORD_LEN,
            CatalogRecordData::File { .. } => FILE_RECORD_LEN,
            _ => THREAD_RECORD_LEN,
        },
{
    match d {
        CatalogRecordData::Directory { .. } => DIR_RECORD_LEN,
        CatalogRecordData::File { .. } => FILE_RECORD_LEN,
        _ => THREAD_RECORD_LEN,
    }
}

/// A node of the catalog B-tree: its descriptor, its records, and the table
/// of record offsets at the node's end.
#[derive(Clone, Debug)]
pub struct CatalogNode {
    pub desc: NodeDescriptor,
    pub recs: Vec<CatalogRecord>,
    pub recs_offsets: Vec<u16>,
}

impl CatalogNode {
    /// Decodes the 512-byte node at `at`. Records are read one after the
    /// other from the end of the descriptor; the offset table is then read
    /// from its fixed place at the end of the node. Only index and leaf
    /// nodes hold records.
    pub fn parse(b: &[u8], at: usize) -> (r: Result<CatalogNode, FsError>)
        ensures
            at + NODE_SIZE > b@.len() ==> r == Err::<CatalogNode, FsError>(FsError::IoError),
            r is Ok <==> node_ok(b@, at as int),
            r matches Ok(n) ==> node_decoded(n, b@, at as int),
            r matches Err(e) ==> e == node_err(b@, at as int),
            r matches Ok(n) ==> at + NODE_SIZE <= b@.len() && n.desc.record_count as nat == field16(b@, at + 10)
                && n.recs_offsets@.len() == n.desc.record_count
                && (n.desc.ty == NodeType::Index || n.desc.ty == NodeType::Leaf ==> n.recs@.len() == n.desc.record_count)
                && (n.desc.ty == NodeType::Leaf ==> forall|i: int| 0 <= i < n.recs@.len() ==> n.recs@[i] is Leaf),
    {
        let len = b.len();
        if at > len || len - at < NODE_SIZE {
            return Err(FsError::IoError);
        }
        let node = slice_subrange(b, at, at + NODE_SIZE);
        let desc = match NodeDescriptor::parse(node, 0) {
            Ok(d) => d,
            Err(e) => return Err(e),
        };
        let count = desc.record_count as usize;
        if count * 2 > NODE_SIZE - NODE_DESCRIPTOR_LEN {
            return Err(FsError::StructuralCorruption);
        }
        assert(node@[8] == b@[at + 8]);
        let ghost leaf = desc.ty == NodeType::Leaf;
        proof {
            assert(node@ == node_bytes(b@, at as int));
        }
        let mut recs: Vec<CatalogRecord> = Vec::new();
        if desc.ty == NodeType::Leaf || desc.ty == NodeType::Index {
            let mut pos = NODE_DESCRIPTOR_LEN;
            let mut i: usize = 0;
            while i < count
                invariant
                    node@.len() == NODE_SIZE,
                    node@ == node_bytes(b@, at as int),
                    at + NODE_SIZE <= b@.len(),
                    i <= count,
                    count == field16(b@, at + 10),
                    recs@.len() == i,
                    pos <= NODE_SIZE,
                    leaf == (desc.ty == NodeType::Leaf),
                    desc.ty == NodeType::Leaf || desc.ty == NodeType::Index,
                    leaf == (b@[at + 8] == 0xff),
                    b@[at + 8] == 0 || b@[at + 8] == 0xff,
                    pos as int == rec_at(node@, leaf, i as nat),
                    forall|k: nat| k < i ==> #[trigger] rec_ok(node@, leaf, rec_at(node@, leaf, k)),
                    recs_err(node@, leaf, 0, count as nat) == recs_err(node@, leaf, i as nat, count as nat),
                    count * 2 <= NODE_SIZE - NODE_DESCRIPTOR_LEN,
                    forall|k: int| 0 <= k < i ==> #[trigger] rec_decoded(recs@[k], node@, leaf, rec_at(node@, leaf, k as nat)),
                    desc.ty == NodeType::Leaf ==> forall|q: int| 0 <= q < recs@.len() ==> recs@[q] is Leaf,
                decreases count - i,
            {
                let ghost recs0 = recs@;
                if desc.ty == NodeType::Leaf {
                    match CatalogRecord::parse_leaf(node, pos) {
                        Ok((rec, next)) => {
                            recs.push(rec);
                            pos = next;
                        },
                        Err(e) => {
                            proof {
                                assert(!rec_ok(node@, leaf, rec_at(node@, leaf, i as nat)));
                                assert((i as nat) < field16(b@, at + 10));
                                lemma_node_fails(b@, at as int, i as nat);
                                assert(!node_ok(b@, at as int));
                                assert(recs_err(node@, leaf, i as nat, count as nat)
                                    == (if leaf { leaf_err(node@, pos as int) } else { FsError::IoError }));
                                assert(node_err(b@, at as int) == recs_err(node@, leaf, 0, count as nat));
                            }
                            return Err(e);
                        },
                    }
                } else {
                    match CatalogRecord::parse_index(node, pos) {
                        Ok(rec) => {
                            recs.push(rec);
                            pos = pos + INDEX_RECORD_LEN;
                        },
                        Err(e) => {
                            proof {
                                assert(!rec_ok(node@, leaf, rec_at(node@, leaf, i as nat)));
                                assert((i as nat) < field16(b@, at + 10));
                                lemma_node_fails(b@, at as int, i as nat);
                                assert(!node_ok(b@, at as int));
                                assert(recs_err(node@, leaf, i as nat, count as nat)
                                    == (if leaf { leaf_err(node@, pos as int) } else { FsError::IoError }));
                                assert(node_err(b@, at as int) == recs_err(node@, leaf, 0, count as nat));
                            }
                            return Err(e);
                        },
                    }
                }
                proof {
                    assert(rec_ok(node@, leaf, rec_at(node@, leaf, i as nat)));
                    assert(recs_err(node@, leaf, i as nat, count as nat) == recs_err(node@, leaf, (i + 1) as nat, count as nat));
                    assert forall|k: nat| k < i + 1 implies #[trigger] rec_ok(node@, leaf, rec_at(node@, leaf, k)) by {}
                    assert forall|k: int| 0 <= k < i + 1 implies #[trigger] rec_decoded(recs@[k], node@, leaf, rec_at(node@, leaf, k as nat)) by {
                        if k < i {
                            assert(recs@[k] == recs0[k]);
                        }
                    }
                }
                i = i + 1;
            }
        }
        let table = NODE_SIZE - count * 2;
        let mut offsets: Vec<u16> = Vec::new();
        let mut i: usize = 0;
        while i < count
            invariant
                node@.len() == NODE_SIZE,
                table + count * 2 == NODE_SIZE,
                i <= count,
                offsets@.len() == i,
            decreases count - i,
        {
            offsets.push(read_u16(node, table + 2 * i));
            i = i + 1;
        }
        proof {
            assert(field16(node@, 10) == field16(b@, at + 10));
        }
        Ok(CatalogNode { desc, recs, recs_offsets: offsets })
    }
}

/// The 512 bytes of the node at `at`.
pub open spec fn node_bytes(b: Seq<u8>, at: int) -> Seq<u8> {
    b.subrange(at, at + NODE_SIZE)
}

/// Where record `i` of a node starts: records follow one another from the
/// end of the descriptor.
pub open spec fn rec_at(node: Seq<u8>, leaf: bool, i: nat) -> int
    decreases i,
{
    if i == 0 {
        NODE_DESCRIPTOR_LEN as int
    } else {
        let p = rec_at(node, leaf, (i - 1) as nat);
        if leaf { leaf_next(node, p) } else { p + INDEX_RECORD_LEN }
    }
}

/// The record at `p` fits in the node.
pub open spec fn rec_ok(node: Seq<u8>, leaf: bool, p: int) -> bool {
    if leaf { leaf_ok(node, p) } else { 0 <= p && p + INDEX_RECORD_LEN <= node.len() }
}

/// `rec` is the record decoded at `p`.
pub open spec fn rec_decoded(rec: CatalogRecord, node: Seq<u8>, leaf: bool, p: int) -> bool {
    if leaf {
        leaf_decoded(rec, node, p)
    } else {
        &&& rec is Index
        &&& rec->Index_parent_id == cnid_of(field32(node, p + 2) as u32)
        &&& rec->Index_id == cnid_of(field32(node, p + 38) as u32)
    }
}

/// The node at `at` decodes: it lies in `b`, its kind is known, its offset
/// table fits after the descriptor, and, in an index or leaf node, each of
/// its records fits in turn.
pub open spec fn node_ok(b: Seq<u8>, at: int) -> bool {
    let node = node_bytes(b, at);
    let count = field16(b, at + 10);
    let leaf = b[at + 8] == 0xff;
    &&& 0 <= at
    &&& at + NODE_SIZE <= b.len()
    &&& node_tag_ok(b[at + 8])
    &&& count * 2 <= NODE_SIZE - NODE_DESCRIPTOR_LEN
    &&& (b[at + 8] == 0 || leaf) ==> forall|k: nat| k < count ==> #[trigger] rec_ok(node, leaf, rec_at(node, leaf, k))
}

/// A record of an index or leaf node that does not fit makes the node fail.
proof fn lemma_node_fails(b: Seq<u8>, at: int, i: nat)
    requires
        b[at + 8] == 0 || b[at + 8] == 0xff,
        i < field16(b, at + 10),
        !rec_ok(node_bytes(b, at), b[at + 8] == 0xff, rec_at(node_bytes(b, at), b[at + 8] == 0xff, i)),
    ensures
        !node_ok(b, at),
{
}

/// `n` is the node decoded at `at`.
pub open spec fn node_decoded(n: CatalogNode, b: Seq<u8>, at: int) -> bool {
    let node = node_bytes(b, at);
    let leaf = b[at + 8] == 0xff;
    &&& n.desc.record_count as nat == field16(b, at + 10)
    &&& (n.desc.ty == NodeType::Leaf <==> leaf)
    &&& (n.desc.ty == NodeType::Index <==> b[at + 8] == 0)
    &&& (leaf || b[at + 8] == 0) ==> n.recs@.len() == n.desc.record_count
    &&& !(leaf || b[at + 8] == 0) ==> n.recs@.len() == 0
    &&& forall|k: int| 0 <= k < n.recs@.len() ==> #[trigger] rec_decoded(n.recs@[k], node, leaf, rec_at(node, leaf, k as nat))
}

/// The error of a leaf record at `at` that does not fit: a key, name or
/// payload past the end is a short read; an unknown tag a format error.
pub open spec fn leaf_err(b: Seq<u8>, at: int) -> FsError {
    let p = leaf_payload_start(b, at);
    if !(0 <= at && at + 7 <= b.len() && at + 7 + b[at + 6] <= b.len()) {
        FsError::IoError
    } else if p >= b.len() {
        FsError::IoError
    } else if payload_len(b[p]) == 0 {
        FsError::FormatMismatch
    } else {
        FsError::IoError
    }
}

/// The error of the first record, from record `i` on, that does not fit.
pub open spec fn recs_err(node: Seq<u8>, leaf: bool, i: nat, count: nat) -> FsError
    decreases count - i,
{
    if i >= count {
        FsError::IoError
    } else if !rec_ok(node, leaf, rec_at(node, leaf, i)) {
        if leaf { leaf_err(node, rec_at(node, leaf, i)) } else { FsError::IoError }
    } else {
        recs_err(node, leaf, i + 1, count)
    }
}

/// The error of a node at `at` that does not decode.
pub open spec fn node_err(b: Seq<u8>, at: int) -> FsError {
    if !(0 <= at && at + NODE_SIZE <= b.len()) {
        FsError::IoError
    } else if !node_tag_ok(b[at + 8]) {
        FsError::FormatMismatch
    } else if field16(b, at + 10) * 2 > NODE_SIZE - NODE_DESCRIPTOR_LEN {
        FsError::StructuralCorruption
    } else {
        recs_err(node_bytes(b, at), b[at + 8] == 0xff, 0, field16(b, at + 10))
    }
}

/// The error of a header node at `at` that does not decode: a short read,
/// or a format error for an unknown kind or a node size other than 512.
pub open spec fn header_err(b: Seq<u8>, at: int) -> FsError {
    if !(0 <= at && at + NODE_SIZE <= b.len()) { FsError::IoError } else { FsError::FormatMismatch }
}

/// The error of the first node, from node `i` on, that does not decode.
pub open spec fn nodes_err(b: Seq<u8>, at: int, i: int, count: int) -> FsError
    decreases count - i,
{
    if i >= count {
        FsError::IoError
    } else if !node_ok(b, at + NODE_SIZE * i) {
        node_err(b, at + NODE_SIZE * i)
    } else {
        nodes_err(b, at, i + 1, count)
    }
}

/// The error of a catalog at `at` that does not decode; a catalog of no
/// nodes is corrupt.
pub open spec fn catalog_err(b: Seq<u8>, at: int) -> FsError {
    if !header_ok(b, at) {
        header_err(b, at)
    } else if field32(b, at + 36) == 0 {
        FsError::StructuralCorruption
    } else {
        nodes_err(b, at, 1, field32(b, at + 36) as int)
    }
}

/// The error of an image that does not hold an HFS volume.
pub open spec fn hfs_err(b: Seq<u8>) -> FsError {
    if b.len() < MDB_START + 162 {
        FsError::IoError
    } else if !(b[MDB_START as int] == 0x42 && b[MDB_START + 1] == 0x44) {
        FsError::FormatMismatch
    } else if MDB_START + NODE_SIZE + (field16(b, 0x412) + 7) / 8 > b.len() {
        FsError::IoError
    } else {
        catalog_err(b, catalog_start(b))
    }
}

/// `d` is a directory or file record with identifier `id`.
pub open spec fn data_has_id(d: CatalogRecordData, id: Cnid) -> bool {
    match d {
        CatalogRecordData::Directory { id: i, .. } => i == id,
        CatalogRecordData::File { id: i, .. } => i == id,
        _ => false,
    }
}

/// `rec` is a leaf record holding a directory or file with identifier `id`.
pub open spec fn record_has_id(rec: CatalogRecord, id: Cnid) -> bool {
    match rec {
        CatalogRecord::Leaf { data, .. } => data_has_id(data, id),
        _ => false,
    }
}

/// Record `j` of node `i` is the first leaf record, in node and record
/// order, that holds a directory or file with identifier `id`.
pub open spec fn first_match(nodes: Seq<CatalogNode>, id: Cnid, i: int, j: int) -> bool {
    &&& 0 <= i < nodes.len()
    &&& nodes[i].desc.ty == NodeType::Leaf
    &&& 0 <= j < nodes[i].recs@.len()
    &&& record_has_id(nodes[i].recs@[j], id)
    &&& forall|a: int, q: int|
        0 <= a < nodes.len() && nodes[a].desc.ty == NodeType::Leaf && 0 <= q < nodes[a].recs@.len()
            && (a < i || (a == i && q < j)) ==> !#[trigger] record_has_id(nodes[a].recs@[q], id)
}

/// The payload of the first leaf record with identifier `id`, if any.
pub open spec fn found_record(nodes: Seq<CatalogNode>, id: Cnid) -> Option<CatalogRecordData> {
    if exists|i: int, j: int| #[trigger] first_match(nodes, id, i, j) {
        let (i, j) = choose|i: int, j: int| #[trigger] first_match(nodes, id, i, j);
        Some(nodes[i].recs@[j]->Leaf_data)
    } else {
        None
    }
}

/// The first match is the only one, so `found_record` names its payload.
pub proof fn lemma_found_record(nodes: Seq<CatalogNode>, id: Cnid, i: int, j: int)
    requires
        first_match(nodes, id, i, j),
    ensures
        found_record(nodes, id) == Some(nodes[i].recs@[j]->Leaf_data),
{
    let (i2, j2) = choose|i2: int, j2: int| #[trigger] first_match(nodes, id, i2, j2);
    assert(first_match(nodes, id, i2, j2));
    if i2 < i || (i2 == i && j2 < j) {
        assert(!record_has_id(nodes[i2].recs@[j2], id));
    } else if i < i2 || (i == i2 && j < j2) {
        assert(!record_has_id(nodes[i].recs@[j], id));
    }
}

/// The catalog file: its header node and the nodes after it.
#[derive(Clone, Debug)]
pub struct CatalogFile {
    pub header: HeaderNode,
    pub nodes: Vec<CatalogNode>,
}

impl CatalogFile {
    /// Decodes the catalog at `at`: the header node, then `node_count - 1`
    /// nodes.
    pub fn parse(b: &[u8], at: usize) -> (r: Result<CatalogFile, FsError>)
        ensures
            r is Ok <==> catalog_ok(b@, at as int),
            r matches Err(e) ==> e == catalog_err(b@, at as int),
            r matches Ok(c) ==> {
                &&& c.nodes@.len() + 1 == c.header.header_record.node_count
                &&& c.header.header_record.node_count as nat == field32(b@, at + 36)
                &&& forall|i: int| 0 <= i < c.nodes@.len() ==> #[trigger] node_decoded(c.nodes@[i], b@, at + NODE_SIZE * (i + 1))
            },
    {
        let header = match HeaderNode::parse(b, at) {
            Ok(h) => h,
            Err(e) => return Err(e),
        };
        let count = header.header_record.node_count;
        if count == 0 {
            return Err(FsError::StructuralCorruption);
        }
        let mut nodes: Vec<CatalogNode> = Vec::new();
        let len = b.len();
        let mut pos = at + NODE_SIZE;
        let mut i: u32 = 1;
        while i < count
            invariant
                len == b@.len(),
                1 <= i <= count,
                count as nat == field32(b@, at + 36),
                header_ok(b@, at as int),
                nodes@.len() + 1 == i,
                pos as int == at + NODE_SIZE * i,
                forall|k: int| 1 <= k < i ==> #[trigger] node_ok(b@, at + NODE_SIZE * k),
                nodes_err(b@, at as int, 1, count as int) == nodes_err(b@, at as int, i as int, count as int),
                forall|k: int| 0 <= k < nodes@.len() ==> #[trigger] node_decoded(nodes@[k], b@, at + NODE_SIZE * (k + 1)),
            decreases count - i,
        {
            if pos > len || len - pos < NODE_SIZE {
                proof {
                    assert(!node_ok(b@, at + NODE_SIZE * i));
                }
                return Err(FsError::IoError);
            }
            let node = match CatalogNode::parse(b, pos) {
                Ok(n) => n,
                Err(e) => {
                    proof {
                        assert(!node_ok(b@, at + NODE_SIZE * i));
                    }
                    return Err(e);
                },
            };
            let ghost nodes0 = nodes@;
            nodes.push(node);
            proof {
                assert(nodes_err(b@, at as int, i as int, count as int) == nodes_err(b@, at as int, i + 1, count as int));
                assert forall|k: int| 0 <= k < nodes@.len() implies #[trigger] node_decoded(nodes@[k], b@, at + NODE_SIZE * (k + 1)) by {
                    if k < nodes0.len() {
                        assert(nodes@[k] == nodes0[k]);
                    }
                }
                assert(at + NODE_SIZE * (i + 1) == pos + NODE_SIZE);
            }
            pos = pos + NODE_SIZE;
            i = i + 1;
        }
        Ok(CatalogFile { header, nodes })
    }

    /// The node the header names as the tree's root.
    pub fn root_node(&self) -> (r: Option<&CatalogNode>)
        ensures
            r matches Some(n) ==> self.header.header_record.root < self.nodes@.len()
                && *n == self.nodes@[self.header.header_record.root as int],
            r is None <==> self.header.header_record.root >= self.nodes@.len(),
    {
        let root = self.header.header_record.root as usize;
        if root < self.nodes.len() {
            Some(&self.nodes[root])
        } else {
            None
        }
    }

    /// The first directory or file record with identifier `requested_id`,
    /// from the leaf nodes.
    pub fn record_by_id(&self, requested_id: Cnid) -> (r: Option<&CatalogRecordData>)
        ensures
            r matches Some(d) ==> data_has_id(*d, requested_id),
            r is None <==> found_record(self.nodes@, requested_id) is None,
            r matches Some(d) ==> found_record(self.nodes@, requested_id) == Some(*d),
            r is None ==> forall|i: int, j: int|
                0 <= i < self.nodes@.len() && self.nodes@[i].desc.ty == NodeType::Leaf && 0 <= j < self.nodes@[i].recs@.len()
                    ==> !#[trigger] record_has_id(self.nodes@[i].recs@[j], requested_id),
    {
        let mut i: usize = 0;
        while i < self.nodes.len()
            invariant
                i <= self.nodes@.len(),
                forall|a: int, j: int|
                    0 <= a < i && self.nodes@[a].desc.ty == NodeType::Leaf && 0 <= j < self.nodes@[a].recs@.len()
                        ==> !#[trigger] record_has_id(self.nodes@[a].recs@[j], requested_id),
            decreases self.nodes@.len() - i,
        {
            let node = &self.nodes[i];
            if node.desc.ty == NodeType::Leaf {
                let mut j: usize = 0;
                while j < node.recs.len()
                    invariant
                        i < self.nodes@.len(),
                        *node == self.nodes@[i as int],
                        node.desc.ty == NodeType::Leaf,
                        j <= node.recs@.len(),
                        forall|a: int, q: int|
                            0 <= a < i && self.nodes@[a].desc.ty == NodeType::Leaf && 0 <= q < self.nodes@[a].recs@.len()
                                ==> !#[trigger] record_has_id(self.nodes@[a].recs@[q], requested_id),
                        forall|q: int| 0 <= q < j ==> !#[trigger] record_has_id(node.recs@[q], requested_id),
                    decreases node.recs@.len() - j,
                {
                    match &node.recs[j] {
                        CatalogRecord::Leaf { data, .. } => {
                            match data {
                                CatalogRecordData::Directory { id, .. } => {
                                    if *id == requested_id {
                                        proof {
                                            assert(node.recs@[j as int] == self.nodes@[i as int].recs@[j as int]);
                                            assert(record_has_id(self.nodes@[i as int].recs@[j as int], requested_id));
                                            assert forall|a: int, q: int|
                                                0 <= a < self.nodes@.len() && self.nodes@[a].desc.ty == NodeType::Leaf
                                                    && 0 <= q < self.nodes@[a].recs@.len() && (a < i || (a == i && q < j))
                                                implies !#[trigger] record_has_id(self.nodes@[a].recs@[q], requested_id) by {
                                                if a == i {
                                                    assert(self.nodes@[a].recs@[q] == node.recs@[q]);
                                                }
                                            }
                                            assert(self.nodes@[i as int].desc.ty == NodeType::Leaf);
                                            assert(j < self.nodes@[i as int].recs@.len());
                                            assert(first_match(self.nodes@, requested_id, i as int, j as int));
                                            lemma_found_record(self.nodes@, requested_id, i as int, j as int);
                                        }
                                        return Some(data);
                                    }
                                },
                                CatalogRecordData::File { id, .. } => {
                                    if *id == requested_id {
                                        proof {
                                            assert(node.recs@[j as int] == self.nodes@[i as int].recs@[j as int]);
                                            assert(record_has_id(self.nodes@[i as int].recs@[j as int], requested_id));
                                            assert forall|a: int, q: int|
                                                0 <= a < self.nodes@.len() && self.nodes@[a].desc.ty == NodeType::Leaf
                                                    && 0 <= q < self.nodes@[a].recs@.len() && (a < i || (a == i && q < j))
                                                implies !#[trigger] record_has_id(self.nodes@[a].recs@[q], requested_id) by {
                                                if a == i {
                                                    assert(self.nodes@[a].recs@[q] == node.recs@[q]);
                                                }
                                            }
                                            assert(self.nodes@[i as int].desc.ty == NodeType::Leaf);
                                            assert(j < self.nodes@[i as int].recs@.len());
                                            assert(first_match(self.nodes@, requested_id, i as int, j as int));
                                            lemma_found_record(self.nodes@, requested_id, i as int, j as int);
                                        }
                                        return Some(data);
                                    }
                                },
                                _ => {},
                            }
                        },
                        _ => {},
                    }
                    j = j + 1;
                }
            }
            i = i + 1;
        }
        proof {
            if exists|a: int, q: int| #[trigger] first_match(self.nodes@, requested_id, a, q) {
                let (a, q) = choose|a: int, q: int| #[trigger] first_match(self.nodes@, requested_id, a, q);
                assert(record_has_id(self.nodes@[a].recs@[q], requested_id));
            }
        }
        None
    }

    /// The directory and file records of the leaf nodes, in node order, each
    /// with its parent identifier; threads and index records are left out.
    pub fn leaf_entries(&self) -> (r: (Vec<Cnid>, Vec<Directory>, Vec<Cnid>, Vec<File>))
        ensures
            r.0@ == nodes_dir_parents(self.nodes@),
            dir_ids_of(r.1@) == nodes_dir_ids(self.nodes@),
            forall|k: int| 0 <= k < r.1@.len() ==> (#[trigger] r.1@[k]).subdirs@.len() == 0,
            forall|k: int| 0 <= k < r.1@.len() ==> (#[trigger] r.1@[k]).files@.len() == 0,
            file_id_seq(r.3@) == nodes_file_ids(self.nodes@),
            dir_names_of(r.1@) == nodes_dir_names(self.nodes@),
            r.3@.map_values(|f: File| f.name@) == nodes_file_names(self.nodes@),
            r.2@ == nodes_file_parents(self.nodes@),
            r.0@.len() == r.1@.len(),
            r.2@.len() == r.3@.len(),
    {
        let mut dir_parents: Vec<Cnid> = Vec::new();
        let mut dirs: Vec<Directory> = Vec::new();
        let mut file_parents: Vec<Cnid> = Vec::new();
        let mut files: Vec<File> = Vec::new();
        let mut i: usize = 0;
        while i < self.nodes.len()
            invariant
                i <= self.nodes@.len(),
                dir_parents@.len() == dirs@.len(),
                file_parents@.len() == files@.len(),
                dir_parents@ == nodes_dir_parents(self.nodes@.subrange(0, i as int)),
                dir_ids_of(dirs@) == nodes_dir_ids(self.nodes@.subrange(0, i as int)),
                file_parents@ == nodes_file_parents(self.nodes@.subrange(0, i as int)),
                forall|k: int| 0 <= k < dirs@.len() ==> (#[trigger] dirs@[k]).subdirs@.len() == 0 && dirs@[k].files@.len() == 0,
                file_id_seq(files@) == nodes_file_ids(self.nodes@.subrange(0, i as int)),
                dir_names_of(dirs@) == nodes_dir_names(self.nodes@.subrange(0, i as int)),
                files@.map_values(|f: File| f.name@) == nodes_file_names(self.nodes@.subrange(0, i as int)),
            decreases self.nodes@.len() - i,
        {
            let node = &self.nodes[i];
            let ghost before = self.nodes@.subrange(0, i as int);
            proof {
                assert(self.nodes@.subrange(0, i + 1).drop_last() =~= before);
                assert(recs_dir_parents(node.recs@.subrange(0, 0)) =~= Seq::<Cnid>::empty());
                assert(recs_dir_ids(node.recs@.subrange(0, 0)) =~= Seq::<Cnid>::empty());
                assert(recs_file_parents(node.recs@.subrange(0, 0)) =~= Seq::<Cnid>::empty());
                assert(nodes_dir_parents(before) + Seq::<Cnid>::empty() =~= nodes_dir_parents(before));
                assert(nodes_dir_ids(before) + Seq::<Cnid>::empty() =~= nodes_dir_ids(before));
                assert(nodes_file_parents(before) + Seq::<Cnid>::empty() =~= nodes_file_parents(before));
                assert(recs_file_ids(node.recs@.subrange(0, 0)) =~= Seq::<Cnid>::empty());
                assert(nodes_file_ids(before) + Seq::<Cnid>::empty() =~= nodes_file_ids(before));
                assert(recs_dir_names(node.recs@.subrange(0, 0)) =~= Seq::<Seq<u8>>::empty());
                assert(recs_file_names(node.recs@.subrange(0, 0)) =~= Seq::<Seq<u8>>::empty());
                assert(nodes_dir_names(before) + Seq::<Seq<u8>>::empty() =~= nodes_dir_names(before));
                assert(nodes_file_names(before) + Seq::<Seq<u8>>::empty() =~= nodes_file_names(before));
            }
            let mut j: usize = 0;
            while j < node.recs.len()
                invariant
                    i < self.nodes@.len(),
                    *node == self.nodes@[i as int],
                    j <= node.recs@.len(),
                    dir_parents@.len() == dirs@.len(),
                    file_parents@.len() == files@.len(),
                    dir_parents@ == nodes_dir_parents(before) + recs_dir_parents(node.recs@.subrange(0, j as int)),
                    dir_ids_of(dirs@) == nodes_dir_ids(before) + recs_dir_ids(node.recs@.subrange(0, j as int)),
                    forall|k: int| 0 <= k < dirs@.len() ==> (#[trigger] dirs@[k]).subdirs@.len() == 0 && dirs@[k].files@.len() == 0,
                    file_id_seq(files@) == nodes_file_ids(before) + recs_file_ids(node.recs@.subrange(0, j as int)),
                    dir_names_of(dirs@) == nodes_dir_names(before) + recs_dir_names(node.recs@.subrange(0, j as int)),
                    files@.map_values(|f: File| f.name@) == nodes_file_names(before) + recs_file_names(node.recs@.subrange(0, j as int)),
                    file_parents@ == nodes_file_parents(before) + recs_file_parents(node.recs@.subrange(0, j as int)),
                decreases node.recs@.len() - j,
            {
                let ghost dp0 = dir_parents@;
                let ghost ds0 = dirs@;
                let ghost fp0 = file_parents@;
                let ghost fs0 = files@;
                proof {
                    assert(node.recs@.subrange(0, j + 1).drop_last() =~= node.recs@.subrange(0, j as int));
                    assert(node.recs@.subrange(0, j + 1).last() == node.recs@[j as int]);
                }
                match &node.recs[j] {
                    CatalogRecord::Leaf { parent_id, name, data, .. } => {
                        match data {
                            CatalogRecordData::Directory { id, .. } => {
                                dir_parents.push(*parent_id);
                                dirs.push(Directory::new(name.as_slice(), *id));
                                proof {
                                    assert(dir_ids_of(dirs@) =~= dir_ids_of(ds0).push(*id));
                                    assert(dir_names_of(dirs@) =~= dir_names_of(ds0).push(trimmed(name@)));
                                }
                            },
                            CatalogRecordData::File { id, data_len, rsrc_len, .. } => {
                                file_parents.push(*parent_id);
                                files.push(File::new(name.as_slice(), *id, *data_len, *rsrc_len));
                                proof {
                                    assert(file_id_seq(files@) =~= file_id_seq(fs0).push(*id));
                                    assert(files@.map_values(|f: File| f.name@) =~= fs0.map_values(|f: File| f.name@).push(trimmed(name@)));
                                }
                            },
                            _ => {},
                        }
                    },
                    _ => {},
                }
                j = j + 1;
            }
            proof {
                assert(node.recs@.subrange(0, j as int) =~= node.recs@);
            }
            i = i + 1;
        }
        proof {
            assert(self.nodes@.subrange(0, i as int) =~= self.nodes@);
        }
        (dir_parents, dirs, file_parents, files)
    }
}

/// The trimmed name of a leaf record that holds a directory.
pub open spec fn dir_record_name(rec: CatalogRecord) -> Option<Seq<u8>> {
    match rec {
        CatalogRecord::Leaf { name, data: CatalogRecordData::Directory { .. }, .. } => Some(trimmed(name@)),
        _ => None,
    }
}

/// The trimmed name of a leaf record that holds a file.
pub open spec fn file_record_name(rec: CatalogRecord) -> Option<Seq<u8>> {
    match rec {
        CatalogRecord::Leaf { name, data: CatalogRecordData::File { .. }, .. } => Some(trimmed(name@)),
        _ => None,
    }
}

/// The trimmed names of the directory records among `recs`, in order.
pub open spec fn recs_dir_names(recs: Seq<CatalogRecord>) -> Seq<Seq<u8>>
    decreases recs.len(),
{
    if recs.len() == 0 {
        Seq::empty()
    } else {
        let prev = recs_dir_names(recs.drop_last());
        match dir_record_name(recs.last()) {
            Some(p) => prev.push(p),
            None => prev,
        }
    }
}

/// The trimmed names of the file records among `recs`, in order.
pub open spec fn recs_file_names(recs: Seq<CatalogRecord>) -> Seq<Seq<u8>>
    decreases recs.len(),
{
    if recs.len() == 0 {
        Seq::empty()
    } else {
        let prev = recs_file_names(recs.drop_last());
        match file_record_name(recs.last()) {
            Some(p) => prev.push(p),
            None => prev,
        }
    }
}

/// The trimmed names of the directory records of `nodes`, in node order.
pub open spec fn nodes_dir_names(nodes: Seq<CatalogNode>) -> Seq<Seq<u8>>
    decreases nodes.len(),
{
    if nodes.len() == 0 {
        Seq::empty()
    } else {
        nodes_dir_names(nodes.drop_last()) + recs_dir_names(nodes.last().recs@)
    }
}

/// The trimmed names of the file records of `nodes`, in node order.
pub open spec fn nodes_file_names(nodes: Seq<CatalogNode>) -> Seq<Seq<u8>>
    decreases nodes.len(),
{
    if nodes.len() == 0 {
        Seq::empty()
    } else {
        nodes_file_names(nodes.drop_last()) + recs_file_names(nodes.last().recs@)
    }
}

/// Directory record `i` is the first whose parent is the root's parent.
pub open spec fn root_record(nodes: Seq<CatalogNode>, i: int) -> bool {
    &&& 0 <= i < nodes_dir_ids(nodes).len()
    &&& nodes_dir_parents(nodes)[i] == Cnid::ParentOfRoot
    &&& forall|k: int| 0 <= k < i ==> nodes_dir_parents(nodes)[k] != Cnid::ParentOfRoot
}

/// The catalog's directory and file records, as the tree builder sees them.
pub open spec fn catalog_records(nodes: Seq<CatalogNode>) -> Records {
    Records {
        dir_parents: nodes_dir_parents(nodes),
        dir_ids: nodes_dir_ids(nodes),
        dir_names: nodes_dir_names(nodes),
        file_parents: nodes_file_parents(nodes),
        file_ids: nodes_file_ids(nodes),
        file_names: nodes_file_names(nodes),
    }
}

/// The parent of a leaf record that holds a directory.
pub open spec fn dir_record_parent(rec: CatalogRecord) -> Option<Cnid> {
    match rec {
        CatalogRecord::Leaf { parent_id, data: CatalogRecordData::Directory { .. }, .. } => Some(parent_id),
        _ => None,
    }
}

/// The identifier of a leaf record that holds a directory.
pub open spec fn dir_record_id(rec: CatalogRecord) -> Option<Cnid> {
    match rec {
        CatalogRecord::Leaf { data: CatalogRecordData::Directory { id, .. }, .. } => Some(id),
        _ => None,
    }
}

/// The parent of a leaf record that holds a file.
pub open spec fn file_record_parent(rec: CatalogRecord) -> Option<Cnid> {
    match rec {
        CatalogRecord::Leaf { parent_id, data: CatalogRecordData::File { .. }, .. } => Some(parent_id),
        _ => None,
    }
}

/// The parents of the directory records among `recs`, in order.
pub open spec fn recs_dir_parents(recs: Seq<CatalogRecord>) -> Seq<Cnid>
    decreases recs.len(),
{
    if recs.len() == 0 {
        Seq::empty()
    } else {
        let prev = recs_dir_parents(recs.drop_last());
        match dir_record_parent(recs.last()) {
            Some(p) => prev.push(p),
            None => prev,
        }
    }
}

/// The identifiers of the directory records among `recs`, in order.
pub open spec fn recs_dir_ids(recs: Seq<CatalogRecord>) -> Seq<Cnid>
    decreases recs.len(),
{
    if recs.len() == 0 {
        Seq::empty()
    } else {
        let prev = recs_dir_ids(recs.drop_last());
        match dir_record_id(recs.last()) {
            Some(p) => prev.push(p),
            None => prev,
        }
    }
}

/// The identifier of a leaf record that holds a file.
pub open spec fn file_record_id(rec: CatalogRecord) -> Option<Cnid> {
    match rec {
        CatalogRecord::Leaf { data: CatalogRecordData::File { id, .. }, .. } => Some(id),
        _ => None,
    }
}

/// The identifiers of the file records among `recs`, in order.
pub open spec fn recs_file_ids(recs: Seq<CatalogRecord>) -> Seq<Cnid>
    decreases recs.len(),
{
    if recs.len() == 0 {
        Seq::empty()
    } else {
        let prev = recs_file_ids(recs.drop_last());
        match file_record_id(recs.last()) {
            Some(p) => prev.push(p),
            None => prev,
        }
    }
}

/// The identifiers of the file records of `nodes`, in node order.
pub open spec fn nodes_file_ids(nodes: Seq<CatalogNode>) -> Seq<Cnid>
    decreases nodes.len(),
{
    if nodes.len() == 0 {
        Seq::empty()
    } else {
        nodes_file_ids(nodes.drop_last()) + recs_file_ids(nodes.last().recs@)
    }
}

/// The parents of the file records among `recs`, in order.
pub open spec fn recs_file_parents(recs: Seq<CatalogRecord>) -> Seq<Cnid>
    decreases recs.len(),
{
    if recs.len() == 0 {
        Seq::empty()
    } else {
        let prev = recs_file_parents(recs.drop_last());
        match file_record_parent(recs.last()) {
            Some(p) => prev.push(p),
            None => prev,
        }
    }
}

/// The parents of the directory records of `nodes`, in node order.
pub open spec fn nodes_dir_parents(nodes: Seq<CatalogNode>) -> Seq<Cnid>
    decreases nodes.len(),
{
    if nodes.len() == 0 {
        Seq::empty()
    } else {
        nodes_dir_parents(nodes.drop_last()) + recs_dir_parents(nodes.last().recs@)
    }
}

/// The identifiers of the directory records of `nodes`, in node order.
pub open spec fn nodes_dir_ids(nodes: Seq<CatalogNode>) -> Seq<Cnid>
    decreases nodes.len(),
{
    if nodes.len() == 0 {
        Seq::empty()
    } else {
        nodes_dir_ids(nodes.drop_last()) + recs_dir_ids(nodes.last().recs@)
    }
}

/// The parents of the file records of `nodes`, in node order.
pub open spec fn nodes_file_parents(nodes: Seq<CatalogNode>) -> Seq<Cnid>
    decreases nodes.len(),
{
    if nodes.len() == 0 {
        Seq::empty()
    } else {
        nodes_file_parents(nodes.drop_last()) + recs_file_parents(nodes.last().recs@)
    }
}

/// Moves directory `i` out of its slot.
fn take_slot(slots: &mut Vec<Option<Directory>>, i: usize) -> (r: Option<Directory>)
    requires
        i < old(slots)@.len(),
    ensures
        final(slots)@.len() == old(slots)@.len(),
        r == old(slots)@[i as int],
        final(slots)@[i as int] is None,
        forall|k: int| 0 <= k < old(slots)@.len() && k != i ==> final(slots)@[k] == old(slots)@[k],
{
    let d = slots.remove(i);
    slots.insert(i, None);
    d
}

/// The identifiers of `dirs`.
pub open spec fn dir_ids_of(dirs: Seq<Directory>) -> Seq<Cnid> {
    dirs.map_values(|d: Directory| d.id)
}

/// Slot `q` holds a directory with identifier `ids[q]` and name `names[q]`.
pub open spec fn slot_holds(slots: Seq<Option<Directory>>, q: int, ids: Seq<Cnid>, names: Seq<Seq<u8>>) -> bool {
    &&& slots[q] is Some
    &&& slots[q]->Some_0.id == ids[q]
    &&& slots[q]->Some_0.name@ == names[q]
}

/// The names of `dirs`.
pub open spec fn dir_names_of(dirs: Seq<Directory>) -> Seq<Seq<u8>> {
    dirs.map_values(|d: Directory| d.name@)
}

/// The records that `build_tree` places: directories with their parents,
/// identifiers and names, files with theirs.
pub open spec fn records_of(dir_parents: Seq<Cnid>, dirs: Seq<Directory>, file_parents: Seq<Cnid>, files: Seq<File>) -> Records {
    Records {
        dir_parents,
        dir_ids: dir_ids_of(dirs),
        dir_names: dir_names_of(dirs),
        file_parents,
        file_ids: file_id_seq(files),
        file_names: files.map_values(|f: File| f.name@),
    }
}

/// The tree in slot `q`, if any, hangs together as the records say.
pub open spec fn slot_linked(slots: Seq<Option<Directory>>, q: int, recs: Records) -> bool {
    slots[q] is Some ==> tree_linked(slots[q]->Some_0, recs)
}

/// Directories counted by their identifiers.
pub open spec fn dir_measure() -> spec_fn(Directory) -> Multiset<Cnid> {
    |d: Directory| tree_ids(d)
}

/// Directories counted by the identifiers of their files.
pub open spec fn file_measure() -> spec_fn(Directory) -> Multiset<Cnid> {
    |d: Directory| tree_file_ids(d)
}

/// What a slot holds, counted by `m`.
pub open spec fn opt_measure(o: Option<Directory>, m: spec_fn(Directory) -> Multiset<Cnid>) -> Multiset<Cnid> {
    match o {
        Some(d) => m(d),
        None => Multiset::empty(),
    }
}

/// What all slots hold, counted by `m`.
pub open spec fn slots_measure(slots: Seq<Option<Directory>>, m: spec_fn(Directory) -> Multiset<Cnid>) -> Multiset<Cnid>
    decreases slots.len(),
{
    if slots.len() == 0 {
        Multiset::empty()
    } else {
        slots_measure(slots.subrange(0, slots.len() - 1), m).add(opt_measure(slots[slots.len() - 1], m))
    }
}

/// The identifiers of the trees that a slot holds.
pub open spec fn opt_ids(o: Option<Directory>) -> Multiset<Cnid> {
    opt_measure(o, dir_measure())
}

/// The identifiers of all trees held in `slots`.
pub open spec fn slots_ids(slots: Seq<Option<Directory>>) -> Multiset<Cnid> {
    slots_measure(slots, dir_measure())
}

/// The identifiers of the files of the trees that a slot holds.
pub open spec fn opt_file_ids(o: Option<Directory>) -> Multiset<Cnid> {
    opt_measure(o, file_measure())
}

/// The identifiers of the files of all trees held in `slots`.
pub open spec fn slots_file_ids(slots: Seq<Option<Directory>>) -> Multiset<Cnid> {
    slots_measure(slots, file_measure())
}

/// Appending a slot adds what it holds.
proof fn lemma_slots_push(s: Seq<Option<Directory>>, x: Option<Directory>, m: spec_fn(Directory) -> Multiset<Cnid>)
    ensures
        slots_measure(s.push(x), m) == slots_measure(s, m).add(opt_measure(x, m)),
{
    assert(s.push(x).subrange(0, s.len() as int) =~= s);
}

/// Replacing a slot trades what it holds for the new contents.
proof fn lemma_slots_update(s: Seq<Option<Directory>>, i: int, x: Option<Directory>, m: spec_fn(Directory) -> Multiset<Cnid>)
    requires
        0 <= i < s.len(),
    ensures
        slots_measure(s.update(i, x), m).add(opt_measure(s[i], m)) == slots_measure(s, m).add(opt_measure(x, m)),
    decreases s.len(),
{
    let t = s.update(i, x);
    let n = s.len() as int;
    assert(slots_measure(t, m) == slots_measure(t.subrange(0, n - 1), m).add(opt_measure(t[n - 1], m)));
    assert(slots_measure(s, m) == slots_measure(s.subrange(0, n - 1), m).add(opt_measure(s[n - 1], m)));
    if i == n - 1 {
        assert(t.subrange(0, n - 1) =~= s.subrange(0, n - 1));
        let p = slots_measure(s.subrange(0, n - 1), m);
        assert(p.add(opt_measure(x, m)).add(opt_measure(s[i], m)) =~= p.add(opt_measure(s[i], m)).add(opt_measure(x, m)));
    } else {
        let s2 = s.subrange(0, n - 1);
        lemma_slots_update(s2, i, x, m);
        assert(t.subrange(0, n - 1) =~= s2.update(i, x));
        assert(s2[i] == s[i]);
        let a = slots_measure(s2.update(i, x), m);
        let b = slots_measure(s2, m);
        let l = opt_measure(s[n - 1], m);
        assert(a.add(l).add(opt_measure(s[i], m)) =~= b.add(l).add(opt_measure(x, m))) by {
            assert forall|v: Cnid| #[trigger] a.add(l).add(opt_measure(s[i], m)).count(v) == b.add(l).add(opt_measure(x, m)).count(v) by {
                assert(a.add(opt_measure(s[i], m)).count(v) == b.add(opt_measure(x, m)).count(v));
            }
        }
    }
}

/// Slots that are all empty hold nothing.
proof fn lemma_slots_empty(s: Seq<Option<Directory>>, m: spec_fn(Directory) -> Multiset<Cnid>)
    requires
        forall|j: int| 0 <= j < s.len() ==> s[j] is None,
    ensures
        slots_measure(s, m) == Multiset::<Cnid>::empty(),
    decreases s.len(),
{
    if s.len() > 0 {
        lemma_slots_empty(s.subrange(0, s.len() - 1), m);
        assert(slots_measure(s, m) =~= Multiset::<Cnid>::empty());
    }
}

/// Slots that are all empty but one hold what that one holds.
proof fn lemma_slots_single(s: Seq<Option<Directory>>, i: int, m: spec_fn(Directory) -> Multiset<Cnid>)
    requires
        0 <= i < s.len(),
        forall|j: int| 0 <= j < s.len() && j != i ==> s[j] is None,
    ensures
        slots_measure(s, m) == opt_measure(s[i], m),
    decreases s.len(),
{
    let n = s.len() as int;
    if i == n - 1 {
        lemma_slots_empty(s.subrange(0, n - 1), m);
        assert(slots_measure(s, m) =~= opt_measure(s[i], m));
    } else {
        lemma_slots_single(s.subrange(0, n - 1), i, m);
        assert(slots_measure(s, m) =~= opt_measure(s[i], m));
    }
}

/// A directory with a subdirectory put in front holds that subdirectory's
/// files too.
proof fn lemma_tree_file_ids_adopt(pd: Directory, pd2: Directory, child: Directory)
    requires
        pd2.files@ == pd.files@,
        pd2.subdirs@ == seq![child] + pd.subdirs@,
    ensures
        tree_file_ids(pd2) == tree_file_ids(pd).add(tree_file_ids(child)),
{
    lemma_tree_file_ids(pd);
    lemma_tree_file_ids(pd2);
    lemma_tree_file_ids(child);
    lemma_forest_file_ids_append(seq![child], pd.subdirs@);
    assert(tree_file_ids(pd2) =~= tree_file_ids(pd).add(tree_file_ids(child)));
}

/// A directory given one more file holds that file too.
proof fn lemma_tree_file_ids_push(d: Directory, d2: Directory, f: File)
    requires
        d2.files@ == d.files@.push(f),
        d2.subdirs@ == d.subdirs@,
    ensures
        tree_file_ids(d2) == tree_file_ids(d).add(Multiset::singleton(f.id)),
{
    lemma_tree_file_ids(d);
    lemma_tree_file_ids(d2);
    let ids = file_id_seq(d2.files@);
    assert(ids.subrange(0, ids.len() - 1) =~= file_id_seq(d.files@));
    assert(file_ids_of(d2.files@) =~= file_ids_of(d.files@).add(Multiset::singleton(f.id)));
    assert(tree_file_ids(d2) =~= tree_file_ids(d).add(Multiset::singleton(f.id)));
}

/// A directory with a subdirectory put in front holds that subdirectory's
/// tree too.
proof fn lemma_tree_ids_adopt(pd: Directory, pd2: Directory, child: Directory)
    requires
        pd2.id == pd.id,
        pd2.subdirs@ == seq![child] + pd.subdirs@,
    ensures
        tree_ids(pd2) == tree_ids(pd).add(tree_ids(child)),
{
    lemma_tree_ids(pd);
    lemma_tree_ids(pd2);
    lemma_tree_ids(child);
    lemma_forest_ids_append(seq![child], pd.subdirs@);
    assert(tree_ids(pd2) =~= tree_ids(pd).add(tree_ids(child)));
}

/// Builds the directory tree from the catalog's directory and file records.
/// It succeeds exactly when every record finds its place (see
/// `place_records`); the root is the first directory whose parent is the
/// root's parent.
pub fn build_tree(dir_parents: Vec<Cnid>, dirs: Vec<Directory>, file_parents: Vec<Cnid>, files: Vec<File>) -> (r: Result<Directory, FsError>)
    requires
        dir_parents@.len() == dirs@.len(),
        file_parents@.len() == files@.len(),
    ensures
        r is Ok <==> placeable(dir_parents@, dir_ids_of(dirs@), file_parents@),
        r matches Ok(root) ==> tree_ids(root) == forest_ids(dirs@),
        r matches Ok(root) ==> tree_file_ids(root) == forest_file_ids(dirs@).add(file_ids_of(files@)),
        r matches Ok(root) ==> exists|i: int|
            0 <= i < dirs@.len() && dir_parents@[i] == Cnid::ParentOfRoot
                && (forall|k: int| 0 <= k < i ==> dir_parents@[k] != Cnid::ParentOfRoot)
                && root.id == #[trigger] dirs@[i].id && root.name@ == dirs@[i].name@,
        r matches Err(e) ==> e == FsError::StructuralCorruption,
        (forall|k: int| 0 <= k < dirs@.len() ==> (#[trigger] dirs@[k]).files@.len() == 0 && dirs@[k].subdirs@.len() == 0)
            ==> (r matches Ok(root) ==> tree_linked(root, records_of(dir_parents@, dirs@, file_parents@, files@))),
{
    let n = dirs.len();
    let ghost recs = records_of(dir_parents@, dirs@, file_parents@, files@);
    let ghost flat = forall|k: int| 0 <= k < dirs@.len() ==> (#[trigger] dirs@[k]).files@.len() == 0 && dirs@[k].subdirs@.len() == 0;
    let ghost ids0 = dir_ids_of(dirs@);
    let ghost names0 = dir_names_of(dirs@);
    let ghost dirs0 = dirs@;
    let ghost files0 = files@;
    let mut dir_ids: Vec<Cnid> = Vec::new();
    let mut i: usize = 0;
    while i < n
        invariant
            n == dirs@.len(),
            i <= n,
            dir_ids@ == dir_ids_of(dirs@).subrange(0, i as int),
        decreases n - i,
    {
        dir_ids.push(dirs[i].id);
        proof {
            assert(dir_ids@ =~= dir_ids_of(dirs@).subrange(0, i + 1));
        }
        i = i + 1;
    }
    assert(dir_ids@ =~= dir_ids_of(dirs@));
    let p = match place_records(&dir_parents, &dir_ids, &file_parents) {
        Ok(p) => p,
        Err(e) => return Err(e),
    };
    let mut slots: Vec<Option<Directory>> = Vec::new();
    let mut dirs = dirs;
    assert(slots_ids(slots@).add(forest_ids(dirs@)) =~= forest_ids(dirs0));
    assert(slots_file_ids(slots@).add(forest_file_ids(dirs@)) =~= forest_file_ids(dirs0));
    while dirs.len() > 0
        invariant
            slots@.len() + dirs@.len() == n,
            dirs0.len() == n,
            dirs@ == dirs0.subrange(slots@.len() as int, n as int),
            ids0 == dir_ids_of(dirs0),
            names0 == dir_names_of(dirs0),
            forall|q: int| 0 <= q < slots@.len() ==> #[trigger] slot_holds(slots@, q, ids0, names0),
            slots_ids(slots@).add(forest_ids(dirs@)) == forest_ids(dirs0),
            slots_file_ids(slots@).add(forest_file_ids(dirs@)) == forest_file_ids(dirs0),
            recs == records_of(dir_parents@, dirs0, file_parents@, files0),
            flat == (forall|k: int| 0 <= k < dirs0.len() ==> (#[trigger] dirs0[k]).files@.len() == 0 && dirs0[k].subdirs@.len() == 0),
            flat ==> forall|q: int| 0 <= q < slots@.len() ==> #[trigger] slot_linked(slots@, q, recs),
        decreases dirs@.len(),
    {
        let ghost k = slots@.len();
        let ghost before = slots@;
        let ghost rest = dirs@;
        let d = dirs.remove(0);
        slots.push(Some(d));
        proof {
            assert(rest =~= seq![d] + dirs@);
            lemma_forest_ids_append(seq![d], dirs@);
            lemma_slots_push(before, Some(d), dir_measure());
            assert(slots_ids(slots@).add(forest_ids(dirs@)) =~= slots_ids(before).add(forest_ids(rest)));
            lemma_forest_file_ids_append(seq![d], dirs@);
            lemma_slots_push(before, Some(d), file_measure());
            assert(slots_file_ids(slots@).add(forest_file_ids(dirs@)) =~= slots_file_ids(before).add(forest_file_ids(rest)));
            if flat {
                assert(d == dirs0[k as int]);
                assert(tree_linked(d, recs));
                assert forall|q: int| 0 <= q < slots@.len() implies #[trigger] slot_linked(slots@, q, recs) by {
                    if q < k {
                        assert(slots@[q] == before[q]);
                        assert(slot_linked(before, q, recs));
                    }
                }
            }
            assert(dirs@ =~= dirs0.subrange(slots@.len() as int, n as int));
            assert(slot_holds(slots@, k as int, ids0, names0));
            assert forall|q: int| 0 <= q < slots@.len() implies #[trigger] slot_holds(slots@, q, ids0, names0) by {
                if q < k {
                    assert(slots@[q] == before[q]);
                    assert(slot_holds(before, q, ids0, names0));
                }
            }
        }
    }
    proof {
        assert(slots_ids(slots@).add(forest_ids(dirs@)) =~= slots_ids(slots@));
        assert(slots_file_ids(slots@).add(forest_file_ids(dirs@)) =~= slots_file_ids(slots@));
    }
    let mut files = files;
    let total = p.file_owner.len();
    let mut k: usize = 0;
    while files.len() > 0
        invariant
            total == p.file_owner@.len(),
            slots@.len() == n,
            k + files@.len() == p.file_owner@.len(),
            forall|q: int| 0 <= q < p.file_owner@.len() ==> #[trigger] p.file_owner@[q] < n,
            forall|q: int| 0 <= q < n ==> #[trigger] slot_holds(slots@, q, ids0, names0),
            slots_ids(slots@) == forest_ids(dirs0),
            slots_file_ids(slots@).add(file_ids_of(files@)) == forest_file_ids(dirs0).add(file_ids_of(files0)),
            files@ == files0.subrange(k as int, total as int),
            total == files0.len(),
            placement_ok(dir_parents@, dir_ids@, file_parents@, p),
            dir_ids@ == ids0,
            recs == records_of(dir_parents@, dirs0, file_parents@, files0),
            flat ==> forall|q: int| 0 <= q < n ==> #[trigger] slot_linked(slots@, q, recs),
        decreases files@.len(),
    {
        let ghost rest = files@;
        let f = files.remove(0);
        proof {
            assert(f == rest[0]);
            assert(files@ =~= files0.subrange(k + 1, total as int));
        }
        proof {
            assert(rest =~= seq![f] + files@);
            assert(file_id_seq(rest) =~= seq![f.id] + file_id_seq(files@));
            lemma_id_multiset_append(seq![f.id], file_id_seq(files@));
            let one = seq![f.id];
            assert(one.subrange(0, 0) =~= Seq::<Cnid>::empty());
            assert(id_multiset(one.subrange(0, 0)) == Multiset::<Cnid>::empty());
            assert(one[0] == f.id);
            assert(id_multiset(one) == id_multiset(one.subrange(0, 0)).add(Multiset::singleton(one[0])));
            assert(id_multiset(one) =~= Multiset::singleton(f.id));
        }
        let owner = p.file_owner[k];
        let ghost before = slots@;
        match take_slot(&mut slots, owner) {
            Some(mut d) => {
                let ghost d0 = d;
                d.files.push(f);
                slots.set(owner, Some(d));
                proof {
                    assert(slots@ =~= before.update(owner as int, Some(d)));
                    lemma_slots_update(before, owner as int, Some(d), dir_measure());
                    lemma_tree_ids(d);
                    lemma_tree_ids(d0);
                    assert(before[owner as int] == Some(d0));
                    assert(tree_ids(d) == tree_ids(d0));
                    lemma_slots_update(before, owner as int, Some(d), file_measure());
                    lemma_tree_file_ids_push(d0, d, f);
                    assert(slots_file_ids(slots@).add(file_ids_of(files@)) =~= slots_file_ids(before).add(file_ids_of(rest))) by {
                        assert forall|v: Cnid| #[trigger] slots_file_ids(slots@).add(file_ids_of(files@)).count(v)
                            == slots_file_ids(before).add(file_ids_of(rest)).count(v) by {
                            assert(slots_file_ids(slots@).add(tree_file_ids(d0)).count(v) == slots_file_ids(before).add(tree_file_ids(d)).count(v));
                            assert(tree_file_ids(d).count(v) == tree_file_ids(d0).count(v) + Multiset::singleton(f.id).count(v));
                            assert(file_ids_of(rest).count(v) == Multiset::singleton(f.id).count(v) + file_ids_of(files@).count(v));
                        }
                    }
                    assert(slots_ids(slots@) =~= slots_ids(before)) by {
                        assert forall|v: Cnid| #[trigger] slots_ids(slots@).count(v) == slots_ids(before).count(v) by {
                            assert(slots_ids(slots@).add(tree_ids(d0)).count(v) == slots_ids(before).add(tree_ids(d)).count(v));
                        }
                    }
                }
                proof {
                    assert(f == files0[k as int]);
                    if flat {
                        assert(slot_linked(before, owner as int, recs));
                        assert(tree_linked(d0, recs));
                        assert(file_linked(d.id, f, recs)) by {
                            assert(recs.file_ids[k as int] == f.id);
                            assert(slot_holds(before, owner as int, ids0, names0));
                            assert(p.file_owner@[k as int] == owner);
                            assert(p.file_owner@[k as int] < n && dir_ids@[p.file_owner@[k as int] as int] == file_parents@[k as int]);
                            assert(recs.file_parents == file_parents@);
                            assert(recs.file_parents[k as int] == d.id);
                            assert(recs.file_names[k as int] == f.name@);
                        }
                        assert forall|k2: int| 0 <= k2 < d.files@.len() implies #[trigger] file_linked(d.id, d.files@[k2], recs) by {
                            if k2 < d0.files@.len() {
                                assert(d.files@[k2] == d0.files@[k2]);
                                assert(file_linked(d0.id, d0.files@[k2], recs));
                            }
                        }
                        assert(tree_linked(d, recs));
                        assert forall|q: int| 0 <= q < n implies #[trigger] slot_linked(slots@, q, recs) by {
                            assert(slot_linked(before, q, recs));
                            if q != owner {
                                assert(slots@[q] == before[q]);
                            }
                        }
                    }
                    assert forall|q: int| 0 <= q < n implies #[trigger] slot_holds(slots@, q, ids0, names0) by {
                        assert(slot_holds(before, q, ids0, names0));
                        if q == owner {
                            assert(slots@[q] == Some(d));
                            assert(before[q] == Some(d0));
                        } else {
                            assert(slots@[q] == before[q]);
                        }
                    }
                }
            },
            None => {
                proof {
                    assert(slot_holds(before, owner as int, ids0, names0));
                }
                return Err(FsError::StructuralCorruption);
            },
        }
        k = k + 1;
    }
    proof {
        assert(file_id_seq(files@) =~= Seq::<Cnid>::empty());
        assert(slots_file_ids(slots@) =~= forest_file_ids(dirs0).add(file_ids_of(files0)));
    }
    let mut pos = n;
    while pos > 1
        invariant
            slots@.len() == n,
            1 <= pos <= n,
            n == dir_ids@.len(),
            placement_ok(dir_parents@, dir_ids@, file_parents@, p),
            dir_ids@ == ids0,
            forall|m: int| 0 <= m < pos ==> #[trigger] slot_holds(slots@, p.order@[m] as int, ids0, names0),
            forall|m: int| pos <= m < n ==> (#[trigger] slots@[p.order@[m] as int]) is None,
            slots_ids(slots@) == forest_ids(dirs0),
            slots_file_ids(slots@) == forest_file_ids(dirs0).add(file_ids_of(files0)),
            recs == records_of(dir_parents@, dirs0, file_parents@, files0),
            ids0 == dir_ids_of(dirs0),
            names0 == dir_names_of(dirs0),
            flat ==> forall|q: int| 0 <= q < n ==> #[trigger] slot_linked(slots@, q, recs),
        decreases pos,
    {
        pos = pos - 1;
        let d = p.order[pos];
        let parent = p.dir_parent[d];
        proof {
            assert(parent_placed_before(dir_parents@, dir_ids@, p.order@, p.dir_parent@, pos as int));
        }
        let ghost m = choose|m: int| 0 <= m < pos && p.dir_parent@[p.order@[pos as int] as int] == p.order@[m]
            && dir_ids@[p.order@[m] as int] == dir_parents@[p.order@[pos as int] as int];
        if parent >= n {
            return Err(FsError::StructuralCorruption);
        }
        let ghost s0 = slots@;
        proof {
            assert(slot_holds(s0, p.order@[pos as int] as int, ids0, names0));
            assert(slot_holds(s0, p.order@[m] as int, ids0, names0));
            assert(p.order@[m] != p.order@[pos as int]);
        }
        let child = match take_slot(&mut slots, d) {
            Some(c) => c,
            None => return Err(FsError::StructuralCorruption),
        };
        let ghost s1 = slots@;
        proof {
            assert(s1 =~= s0.update(d as int, None));
            lemma_slots_update(s0, d as int, None, dir_measure());
            lemma_slots_update(s0, d as int, None, file_measure());
        }
        match take_slot(&mut slots, parent) {
            Some(mut pd) => {
                let ghost pd0 = pd;
                pd.subdirs.insert(0, child);
                slots.set(parent, Some(pd));
                proof {
                    assert(pd.subdirs@ =~= seq![child] + pd0.subdirs@);
                    lemma_tree_ids_adopt(pd0, pd, child);
                    assert(slots@ =~= s1.update(parent as int, Some(pd)));
                    assert(s1[parent as int] == Some(pd0));
                    lemma_slots_update(s1, parent as int, Some(pd), dir_measure());
                    assert(s0[d as int] == Some(child));
                    assert(slots_ids(slots@) =~= slots_ids(s0)) by {
                        assert forall|v: Cnid| #[trigger] slots_ids(slots@).count(v) == slots_ids(s0).count(v) by {
                            assert(slots_ids(s1).add(tree_ids(child)).count(v) == slots_ids(s0).add(opt_ids(None)).count(v));
                            assert(slots_ids(slots@).add(tree_ids(pd0)).count(v) == slots_ids(s1).add(tree_ids(pd)).count(v));
                            assert(tree_ids(pd).count(v) == tree_ids(pd0).count(v) + tree_ids(child).count(v));
                        }
                    }
                    if flat {
                        assert(slot_linked(s0, d as int, recs));
                        assert(slot_linked(s0, parent as int, recs));
                        assert(s1[parent as int] == s0[parent as int]);
                        assert(tree_linked(child, recs));
                        assert(tree_linked(pd0, recs));
                        assert(dir_linked(pd.id, child, recs)) by {
                            assert(recs.dir_ids == ids0);
                            assert(recs.dir_names == names0);
                            assert(recs.dir_parents == dir_parents@);
                            assert(slot_holds(s0, d as int, ids0, names0));
                            assert(s0[d as int] == Some(child));
                            assert(recs.dir_ids[d as int] == child.id);
                            assert(recs.dir_parents[d as int] == pd.id);
                            assert(recs.dir_names[d as int] == child.name@);
                        }
                        lemma_forest_linked_append(pd.id, seq![child], pd0.subdirs@, recs);
                        lemma_forest_linked_one(pd.id, child, recs);
                        assert forall|k2: int| 0 <= k2 < pd.files@.len() implies #[trigger] file_linked(pd.id, pd.files@[k2], recs) by {
                            assert(file_linked(pd0.id, pd0.files@[k2], recs));
                        }
                        assert(tree_linked(pd, recs));
                        assert forall|q: int| 0 <= q < n implies #[trigger] slot_linked(slots@, q, recs) by {
                            assert(slot_linked(s0, q, recs));
                            if q != parent as int && q != d as int {
                                assert(slots@[q] == s0[q]);
                            }
                        }
                    }
                    lemma_tree_file_ids_adopt(pd0, pd, child);
                    lemma_slots_update(s1, parent as int, Some(pd), file_measure());
                    assert(slots_file_ids(slots@) =~= slots_file_ids(s0)) by {
                        assert forall|v: Cnid| #[trigger] slots_file_ids(slots@).count(v) == slots_file_ids(s0).count(v) by {
                            assert(slots_file_ids(s1).add(tree_file_ids(child)).count(v) == slots_file_ids(s0).add(opt_file_ids(None)).count(v));
                            assert(slots_file_ids(slots@).add(tree_file_ids(pd0)).count(v) == slots_file_ids(s1).add(tree_file_ids(pd)).count(v));
                            assert(tree_file_ids(pd).count(v) == tree_file_ids(pd0).count(v) + tree_file_ids(child).count(v));
                        }
                    }
                    assert forall|m2: int| pos <= m2 < n implies (#[trigger] slots@[p.order@[m2] as int]) is None by {
                        if m2 > pos {
                            assert(p.order@[m2] != p.order@[pos as int]);
                            assert(p.order@[m2] != p.order@[m]);
                        }
                    }
                    assert forall|m2: int| 0 <= m2 < pos implies #[trigger] slot_holds(slots@, p.order@[m2] as int, ids0, names0) by {
                        assert(p.order@[m2] != p.order@[pos as int]);
                        assert(slot_holds(s0, p.order@[m2] as int, ids0, names0));
                        if p.order@[m2] != parent {
                            assert(slots@[p.order@[m2] as int] == s1[p.order@[m2] as int]);
                        }
                    }
                }
            },
            None => {
                proof {
                    assert(s1[parent as int] == s0[parent as int]);
                }
                return Err(FsError::StructuralCorruption);
            },
        }
    }
    proof {
        assert(slot_holds(slots@, p.order@[0] as int, ids0, names0));
        assert forall|q: int| 0 <= q < n && q != p.root implies slots@[q] is None by {
            lemma_each_directory_placed_once(dir_parents@, dir_ids@, file_parents@, p, q);
            let m = choose|m: int| 0 <= m < dir_ids@.len() && p.order@[m] == q;
            assert(m != 0);
            assert(slots@[p.order@[m] as int] is None);
        }
        lemma_slots_single(slots@, p.root as int, dir_measure());
        lemma_slots_single(slots@, p.root as int, file_measure());
        if flat {
            assert(slot_linked(slots@, p.root as int, recs));
        }
    }
    match take_slot(&mut slots, p.root) {
        Some(root) => {
            proof {
                assert(dirs0[p.root as int].id == ids0[p.root as int]);
                assert(dirs0[p.root as int].name@ == names0[p.root as int]);
            }
            Ok(root)
        },
        None => Err(FsError::StructuralCorruption),
    }
}

/// What a path names.
#[derive(Debug)]
pub enum Entry<'a> {
    Dir(&'a Directory),
    File(&'a File),
}

/// The components of a path as byte sequences.
pub open spec fn path_view(path: Seq<Vec<u8>>) -> Seq<Seq<u8>> {
    path.map_values(|v: Vec<u8>| v@)
}

/// Follows `path` from `root`: each component but the last must name a
/// subdirectory; the last names a subdirectory or, failing that, a file.
pub fn lookup_by_path<'a>(root: &'a Directory, path: &[Vec<u8>]) -> (r: Result<Entry<'a>, FsError>)
    ensures
        match r {
            Ok(Entry::Dir(d)) => resolve(*root, path_view(path@)) == PathTarget::Dir(*d),
            Ok(Entry::File(f)) => resolve(*root, path_view(path@)) == PathTarget::File(*f),
            Err(e) => resolve(*root, path_view(path@)) == PathTarget::Missing(e),
        },
{
    let ghost pv = path_view(path@);
    let mut cur = root;
    let mut i: usize = 0;
    assert(pv.subrange(0, pv.len() as int) =~= pv);
    while i < path.len()
        invariant
            i <= path@.len(),
            pv == path_view(path@),
            resolve(*root, pv) == resolve(*cur, pv.subrange(i as int, pv.len() as int)),
        decreases path@.len() - i,
    {
        let seg = path[i].as_slice();
        let ghost rest = pv.subrange(i as int, pv.len() as int);
        proof {
            assert(rest[0] == seg@);
            assert(rest.drop_first() =~= pv.subrange(i + 1, pv.len() as int));
        }
        match cur.subdir(seg) {
            Some(d) => {
                cur = d;
            },
            None => {
                match cur.file(seg) {
                    Some(f) => {
                        if i + 1 == path.len() {
                            return Ok(Entry::File(f));
                        } else {
                            return Err(FsError::NotADirectory);
                        }
                    },
                    None => return Err(FsError::NotFound),
                }
            },
        }
        i = i + 1;
    }
    proof {
        assert(pv.subrange(i as int, pv.len() as int).len() == 0);
    }
    Ok(Entry::Dir(cur))
}

/// The lists of a directory: its files and its subdirectories.
pub fn list(dir: &Directory) -> (r: (&[File], &[Directory]))
    ensures
        r.0@ == dir.files@,
        r.1@ == dir.subdirs@,
{
    (dir.files.as_slice(), dir.subdirs.as_slice())
}

/// A decoded HFS volume: its master directory block, volume bitmap, catalog.
#[derive(Clone, Debug)]
pub struct Hfs {
    pub mdb: Mdb,
    pub volume_bitmap: Vec<u8>,
    pub catalog_file: CatalogFile,
}

impl Hfs {
    /// Decodes the volume at the start of `b`: the master directory block
    /// after the boot blocks, the volume bitmap after it, and the catalog at
    /// the start of its first extent.
    pub fn parse(b: &[u8]) -> (r: Result<Hfs, FsError>)
        ensures
            r is Ok <==> hfs_ok(b@),
            r matches Ok(h) ==> h.volume_bitmap@.len() == (h.mdb.alloc_blk_count as nat + 7) / 8,
            r matches Ok(h) ==> {
                &&& h.mdb.alloc_blk_count as nat == field16(b@, 0x412)
                &&& h.mdb.alloc_blk_size as nat == field32(b@, 0x414)
                &&& h.mdb.alloc_blk_start as nat == field16(b@, 0x41c)
                &&& h.catalog_file.nodes@.len() + 1 == field32(b@, catalog_start(b@) + 36)
                &&& forall|i: int| 0 <= i < h.catalog_file.nodes@.len()
                    ==> #[trigger] node_decoded(h.catalog_file.nodes@[i], b@, catalog_start(b@) + NODE_SIZE * (i + 1))
            },
            b@.len() < MDB_START + 162 ==> r == Err::<Hfs, FsError>(FsError::IoError),
            r matches Err(e) ==> e == hfs_err(b@),
            MDB_START + 162 <= b@.len() && (b@[MDB_START as int] != 0x42 || b@[MDB_START + 1] != 0x44)
                ==> r == Err::<Hfs, FsError>(FsError::FormatMismatch),
    {
        let mdb = match Mdb::parse(b, MDB_START) {
            Ok(m) => m,
            Err(e) => return Err(e),
        };
        let bitmap_len = mdb.volume_bitmap_len();
        let bitmap_at: usize = MDB_START + NODE_SIZE;
        if b.len() < bitmap_at || b.len() - bitmap_at < bitmap_len {
            return Err(FsError::IoError);
        }
        let volume_bitmap = slice_to_vec(slice_subrange(b, bitmap_at, bitmap_at + bitmap_len));
        let cat = mdb.catalog_file_start();
        if cat > b.len() as u64 {
            return Err(FsError::IoError);
        }
        let catalog_file = match CatalogFile::parse(b, cat as usize) {
            Ok(c) => c,
            Err(e) => return Err(e),
        };
        Ok(Hfs { mdb, volume_bitmap, catalog_file })
    }

    /// The bit of allocation block `blk` in the volume bitmap.
    pub fn alloc_blk_occupied(&self, blk: u16) -> (r: bool)
        requires
            (blk as nat) / 8 < self.volume_bitmap@.len(),
        ensures
            r == ((self.volume_bitmap@[blk as int / 8] as nat / pow2_spec((blk % 8) as nat)) % 2 == 1),
    {
        let byte = self.volume_bitmap[(blk / 8) as usize];
        let bit = blk % 8;
        let mut v = byte;
        let mut k: u16 = 0;
        assert(pow2_spec(0) == 1);
        while k < bit
            invariant
                k <= bit,
                v as nat == byte as nat / pow2_spec(k as nat),
            decreases bit - k,
        {
            proof {
                lemma_div_pow2_step(byte as nat, k as nat);
            }
            v = v / 2;
            k = k + 1;
        }
        v % 2 == 1
    }

    /// The directory tree of the catalog.
    pub fn root_dir(&self) -> (r: Result<Directory, FsError>)
        ensures
            r is Ok <==> placeable(
                nodes_dir_parents(self.catalog_file.nodes@),
                nodes_dir_ids(self.catalog_file.nodes@),
                nodes_file_parents(self.catalog_file.nodes@),
            ),
            r matches Ok(root) ==> tree_ids(root) == id_multiset(nodes_dir_ids(self.catalog_file.nodes@)),
            r matches Ok(root) ==> tree_file_ids(root) == id_multiset(nodes_file_ids(self.catalog_file.nodes@)),
            r matches Ok(root) ==> tree_linked(root, catalog_records(self.catalog_file.nodes@)),
            r matches Ok(root) ==> exists|i: int| #[trigger] root_record(self.catalog_file.nodes@, i)
                && root.id == nodes_dir_ids(self.catalog_file.nodes@)[i]
                && root.name@ == nodes_dir_names(self.catalog_file.nodes@)[i],
            r matches Err(e) ==> e == FsError::StructuralCorruption,
    {
        let (dir_parents, dirs, file_parents, files) = self.catalog_file.leaf_entries();
        let ghost dirs0 = dirs@;
        proof {
            lemma_flat_forest_ids(dirs@);
            assert forall|i: int| 0 <= i < dirs@.len() implies dirs@[i].subdirs@.len() == 0 && dirs@[i].files@.len() == 0 by {}
            lemma_flat_forest_file_ids(dirs@);
            assert(file_ids_of(files@) == id_multiset(nodes_file_ids(self.catalog_file.nodes@)));
            assert(records_of(dir_parents@, dirs@, file_parents@, files@) == catalog_records(self.catalog_file.nodes@));
            assert(Multiset::<Cnid>::empty().add(file_ids_of(files@)) =~= file_ids_of(files@));
        }
        let r = build_tree(dir_parents, dirs, file_parents, files);
        proof {
            if r is Ok {
                let root = r->Ok_0;
                let i = choose|i: int|
                    0 <= i < dirs0.len() && dir_parents@[i] == Cnid::ParentOfRoot
                        && (forall|k: int| 0 <= k < i ==> dir_parents@[k] != Cnid::ParentOfRoot)
                        && root.id == #[trigger] dirs0[i].id && root.name@ == dirs0[i].name@;
                assert(dir_ids_of(dirs0)[i] == dirs0[i].id);
                assert(dir_names_of(dirs0)[i] == dirs0[i].name@);
                assert(root_record(self.catalog_file.nodes@, i));
            }
        }
        r
    }
}

/// Two to the `k`.
pub open spec fn pow2_spec(k: nat) -> nat
    decreases k,
{
    if k == 0 { 1 } else { 2 * pow2_spec((k - 1) as nat) }
}

proof fn lemma_div_pow2_step(x: nat, k: nat)
    ensures
        x / pow2_spec(k) / 2 == x / pow2_spec(k + 1),
        pow2_spec(k) > 0,
    decreases k,
{
    if k > 0 {
        lemma_div_pow2_step(x, (k - 1) as nat);
    }
    let p = pow2_spec(k);
    assert(pow2_spec(k + 1) == 2 * p);
    vstd::arithmetic::div_mod::lemma_div_denominator(x as int, p as int, 2);
}

/// A volume opened for reading: the decoded structures, the directory tree,
/// and the volume's bytes.
#[derive(Debug)]
pub struct HfsVolume {
    pub hdr: Hfs,
    pub root_dir: Directory,
    pub image: Vec<u8>,
}

/// A read position in one fork: where the fork starts on the volume, its
/// declared length, and the current offset.
#[derive(Clone, Copy, Debug, PartialEq, Eq, Structural)]
pub struct FileReader {
    pub start: u64,
    pub len: u64,
    pub cur_offset: u64,
}

impl FileReader {
    /// Up to `max` bytes from the current offset; fewer where the fork ends,
    /// none from at or past its end. The offset moves past what was read.
    pub fn read(&mut self, vol: &HfsVolume, max: usize) -> (r: Result<Vec<u8>, FsError>)
        ensures
            r matches Ok(v) ==> {
                let want = if old(self).cur_offset >= old(self).len {
                    0
                } else if max <= old(self).len - old(self).cur_offset {
                    max as int
                } else {
                    old(self).len - old(self).cur_offset
                };
                &&& v@.len() == want
                &&& want > 0 ==> v@ == vol.image@.subrange(
                    old(self).start + old(self).cur_offset,
                    old(self).start + old(self).cur_offset + want,
                )
                &&& final(self).cur_offset == old(self).cur_offset + want
            },
            r is Err ==> *final(self) == *old(self) && r == Err::<Vec<u8>, FsError>(FsError::IoError),
            final(self).start == old(self).start && final(self).len == old(self).len,
            old(self).cur_offset >= old(self).len ==> r is Ok,
            ({
                let want = if max <= old(self).len - old(self).cur_offset { max as int } else { old(self).len - old(self).cur_offset };
                old(self).cur_offset < old(self).len && old(self).start + old(self).cur_offset + want > vol.image@.len()
            }) ==> r is Err,
            ({
                let want = if max <= old(self).len - old(self).cur_offset { max as int } else { old(self).len - old(self).cur_offset };
                old(self).cur_offset < old(self).len && old(self).start + old(self).cur_offset + want <= vol.image@.len()
            }) ==> r is Ok,
    {
        if self.cur_offset >= self.len {
            return Ok(Vec::new());
        }
        let remaining = self.len - self.cur_offset;
        let n: u64 = if (max as u64) <= remaining { max as u64 } else { remaining };
        let img_len = vol.image.len() as u64;
        if self.start > img_len || self.cur_offset > img_len - self.start || n > img_len - self.start - self.cur_offset {
            return Err(FsError::IoError);
        }
        let from = (self.start + self.cur_offset) as usize;
        let v = slice_to_vec(slice_subrange(vol.image.as_slice(), from, from + n as usize));
        self.cur_offset = self.cur_offset + n;
        Ok(v)
    }

    /// Moves to `pos` bytes from the fork's start.
    pub fn seek(&mut self, pos: u64) -> (r: u64)
        ensures
            final(self).cur_offset == pos,
            r == pos,
            final(self).start == old(self).start && final(self).len == old(self).len,
    {
        self.cur_offset = pos;
        pos
    }
}

impl HfsVolume {
    /// Opens the volume held in `image`, which starts at the volume's first
    /// byte: offsets inside the volume count from there. A volume inside a
    /// partitioned disk image is first cut out of it, at the byte offset that
    /// the partition map gives.
    pub fn new(image: Vec<u8>) -> (r: Result<HfsVolume, FsError>)
        ensures
            r matches Ok(v) ==> v.image@ == image@ && hfs_ok(image@) && placeable(
                nodes_dir_parents(v.hdr.catalog_file.nodes@),
                nodes_dir_ids(v.hdr.catalog_file.nodes@),
                nodes_file_parents(v.hdr.catalog_file.nodes@),
            ),
            r matches Ok(v) ==> tree_ids(v.root_dir) == id_multiset(nodes_dir_ids(v.hdr.catalog_file.nodes@))
                && tree_file_ids(v.root_dir) == id_multiset(nodes_file_ids(v.hdr.catalog_file.nodes@))
                && tree_linked(v.root_dir, catalog_records(v.hdr.catalog_file.nodes@)),
            r matches Ok(v) ==> exists|i: int| #[trigger] root_record(v.hdr.catalog_file.nodes@, i)
                && v.root_dir.id == nodes_dir_ids(v.hdr.catalog_file.nodes@)[i]
                && v.root_dir.name@ == nodes_dir_names(v.hdr.catalog_file.nodes@)[i],
            r matches Ok(v) ==> forall|i: int| 0 <= i < v.hdr.catalog_file.nodes@.len()
                ==> #[trigger] node_decoded(v.hdr.catalog_file.nodes@[i], image@, catalog_start(image@) + NODE_SIZE * (i + 1)),
            !hfs_ok(image@) ==> r == Err::<HfsVolume, FsError>(hfs_err(image@)),
            image@.len() < MDB_START + 162 ==> r == Err::<HfsVolume, FsError>(FsError::IoError),
            MDB_START + 162 <= image@.len() && (image@[MDB_START as int] != 0x42 || image@[MDB_START + 1] != 0x44)
                ==> r == Err::<HfsVolume, FsError>(FsError::FormatMismatch),
            hfs_ok(image@) ==> (r is Ok || r == Err::<HfsVolume, FsError>(FsError::StructuralCorruption)),
            hfs_ok(image@) && r is Err ==> exists|ns: Seq<CatalogNode>| {
                &&& ns.len() + 1 == field32(image@, catalog_start(image@) + 36)
                &&& (forall|i: int| 0 <= i < ns.len() ==> #[trigger] node_decoded(ns[i], image@, catalog_start(image@) + NODE_SIZE * (i + 1)))
                &&& !placeable(nodes_dir_parents(ns), nodes_dir_ids(ns), nodes_file_parents(ns))
            },
    {
        let hdr = match Hfs::parse(image.as_slice()) {
            Ok(h) => h,
            Err(e) => return Err(e),
        };
        let root_dir = match hdr.root_dir() {
            Ok(d) => d,
            Err(e) => return Err(e),
        };
        Ok(HfsVolume { hdr, root_dir, image })
    }

    /// The root of the directory tree.
    pub fn root_dir(&self) -> (r: &Directory)
        ensures
            *r == self.root_dir,
    {
        &self.root_dir
    }

    pub fn hdr(&self) -> (r: &Hfs)
        ensures
            *r == self.hdr,
    {
        &self.hdr
    }

    /// Byte offset of allocation block `blk`.
    pub fn alloc_blk_offset(&self, blk: u16) -> (r: u64)
        ensures
            r == self.hdr.mdb.spec_alloc_block_offset(blk),
    {
        self.hdr.mdb.alloc_block_offset(blk)
    }

    /// Start of the allocation region.
    pub open spec fn region_start(&self) -> nat {
        self.hdr.mdb.alloc_blk_start as nat * self.hdr.mdb.alloc_blk_size as nat
    }

    /// End of the allocation region.
    pub open spec fn region_end(&self) -> nat {
        self.region_start() + self.hdr.mdb.alloc_blk_count as nat * self.hdr.mdb.alloc_blk_size as nat
    }

    /// The reader over a fork of the first leaf record with identifier `id`:
    /// none where that record is not a file; a fork longer than its first
    /// extent needs the others, which are not supported; the first extent
    /// must lie in the allocation region.
    pub open spec fn fork_reader(&self, id: Cnid, fork: Fork) -> Result<FileReader, FsError> {
        match found_record(self.hdr.catalog_file.nodes@, id) {
            Some(CatalogRecordData::File { data_extent, data_len, rsrc_extent, rsrc_len, .. }) => {
                let ext = if fork == Fork::Data { data_extent } else { rsrc_extent };
                let len = if fork == Fork::Data { data_len } else { rsrc_len };
                let first = ext.0[0];
                let bs = self.hdr.mdb.alloc_blk_size as nat;
                if len as nat > first.alloc_blk_count as nat * bs {
                    Err(FsError::UnsupportedExtentSpan)
                } else if first.first_alloc_blk as nat + first.alloc_blk_count as nat > self.hdr.mdb.alloc_blk_count {
                    Err(FsError::StructuralCorruption)
                } else {
                    Ok(FileReader {
                        start: self.hdr.mdb.spec_alloc_block_offset(first.first_alloc_blk) as u64,
                        len: len as u64,
                        cur_offset: 0,
                    })
                }
            },
            _ => Err(FsError::NotFound),
        }
    }

    /// The bytes of a fork: those of the volume from its reader's start, as
    /// many as its length; reading past the volume's end fails.
    pub open spec fn fork_contents(&self, id: Cnid, fork: Fork) -> Result<Seq<u8>, FsError> {
        match self.fork_reader(id, fork) {
            Ok(fr) => if fr.len == 0 {
                Ok(Seq::empty())
            } else if fr.start + fr.len <= self.image@.len() {
                Ok(self.image@.subrange(fr.start as int, fr.start + fr.len))
            } else {
                Err(FsError::IoError)
            },
            Err(e) => Err(e),
        }
    }

    /// `v` is the run of the volume's bytes at `s`, inside the allocation region.
    pub open spec fn region_bytes_at(&self, s: nat, v: Seq<u8>) -> bool {
        &&& self.region_start() <= s
        &&& s + v.len() <= self.region_end()
        &&& v.len() > 0 ==> v == self.image@.subrange(s as int, (s + v.len()) as int)
    }

    /// A reader over a fork of the file with identifier `id`. The fork must
    /// lie in its first extent, and that extent in the allocation region.
    pub fn file_reader(&self, id: Cnid, fork: Fork) -> (r: Result<FileReader, FsError>)
        ensures
            r == self.fork_reader(id, fork),
            r matches Ok(fr) ==> fr.cur_offset == 0 && self.region_start() <= fr.start
                && fr.start + fr.len <= self.region_end(),
            r matches Err(e) ==> e == FsError::NotFound || e == FsError::UnsupportedExtentSpan
                || e == FsError::StructuralCorruption,
    {
        let (ext, len) = match self.hdr.catalog_file.record_by_id(id) {
            Some(CatalogRecordData::File { data_extent, data_len, rsrc_extent, rsrc_len, .. }) => match fork {
                Fork::Data => (*data_extent, *data_len),
                Fork::Resource => (*rsrc_extent, *rsrc_len),
            },
            _ => return Err(FsError::NotFound),
        };
        let first = ext.0[0];
        let bs = self.hdr.mdb.alloc_blk_size as u64;
        assert(first.alloc_blk_count as u64 * bs <= 0xffff * 0xffff_ffffu64) by (nonlinear_arith)
            requires first.alloc_blk_count <= 0xffff, bs <= 0xffff_ffffu64;
        let cap = first.alloc_blk_count as u64 * bs;
        if len as u64 > cap {
            return Err(FsError::UnsupportedExtentSpan);
        }
        if first.first_alloc_blk as u64 + first.alloc_blk_count as u64 > self.hdr.mdb.alloc_blk_count as u64 {
            return Err(FsError::StructuralCorruption);
        }
        let start = self.alloc_blk_offset(first.first_alloc_blk);
        proof {
            let a = first.first_alloc_blk as int;
            let c = first.alloc_blk_count as int;
            let total = self.hdr.mdb.alloc_blk_count as int;
            assert(a * bs + c * bs <= total * bs) by (nonlinear_arith)
                requires a + c <= total, bs >= 0;
            assert(a * bs >= 0) by (nonlinear_arith)
                requires a >= 0, bs >= 0;
        }
        Ok(FileReader { start, len: len as u64, cur_offset: 0 })
    }

    /// The whole data fork of `file`.
    pub fn file_data(&self, file: &File) -> (r: Result<Vec<u8>, FsError>)
        ensures
            r matches Ok(v) ==> exists|s: nat| #[trigger] self.region_bytes_at(s, v@),
            r is Ok <==> self.fork_contents(file.id, Fork::Data) is Ok,
            r matches Err(e) ==> self.fork_contents(file.id, Fork::Data) == Err::<Seq<u8>, FsError>(e),
            r matches Ok(v) ==> self.fork_contents(file.id, Fork::Data) == Ok::<Seq<u8>, FsError>(v@),
    {
        self.read_fork(file, Fork::Data)
    }

    /// The whole of one fork of `file`, read through its first extent.
    pub fn read_fork(&self, file: &File, fork: Fork) -> (r: Result<Vec<u8>, FsError>)
        ensures
            r matches Ok(v) ==> exists|s: nat| #[trigger] self.region_bytes_at(s, v@),
            r is Ok <==> self.fork_contents(file.id, fork) is Ok,
            r matches Err(e) ==> self.fork_contents(file.id, fork) == Err::<Seq<u8>, FsError>(e),
            r matches Ok(v) ==> self.fork_contents(file.id, fork) == Ok::<Seq<u8>, FsError>(v@),
    {
        let mut reader = match self.file_reader(file.id, fork) {
            Ok(fr) => fr,
            Err(e) => return Err(e),
        };
        let ghost start = reader.start;
        let n = reader.len;
        if n > usize::MAX as u64 {
            return Err(FsError::IoError);
        }
        let r = reader.read(self, n as usize);
        match r {
            Ok(v) => {
                assert(self.region_bytes_at(start as nat, v@));
                if n == 0 {
                    assert(v@ =~= Seq::<u8>::empty());
                }
                Ok(v)
            },
            Err(e) => Err(e),
        }
    }
}

} // verus!
