use macfmt::error::FsError;
use macfmt::mfs::Fork;
use macfmt::hfs::{build_tree, lookup_by_path, Entry, HfsVolume, NodeType};
use macfmt::tree::{place_records, trim_name, Cnid, Directory, File};

const READ_ME: &[u8] = b"This disk contains some software for early Macs.\r\rIt is a hierarchical volume.";
const MDB: usize = 0x400;
const REGION: usize = 0x800;
const BLOCK: usize = 512;
const LEAF: usize = REGION + BLOCK;

fn put16(img: &mut [u8], at: usize, v: u16) {
    img[at..at + 2].copy_from_slice(&v.to_be_bytes());
}

fn put32(img: &mut [u8], at: usize, v: u32) {
    img[at..at + 4].copy_from_slice(&v.to_be_bytes());
}

enum Rec<'a> {
    Dir { parent: u32, name: &'a str, id: u32 },
    File { parent: u32, name: &'a str, id: u32, len: u32, first: u16, count: u16, second: u16 },
    Thread { parent: u32 },
    Bad { parent: u32 },
}

/// Writes the record at `at` and returns the offset after it.
fn put_record(img: &mut [u8], at: usize, rec: &Rec) -> usize {
    let (parent, name) = match rec {
        Rec::Dir { parent, name, .. } => (*parent, *name),
        Rec::File { parent, name, .. } => (*parent, *name),
        Rec::Thread { parent } => (*parent, ""),
        Rec::Bad { parent } => (*parent, ""),
    };
    img[at] = (6 + name.len()) as u8;
    put32(img, at + 2, parent);
    img[at + 6] = name.len() as u8;
    img[at + 7..at + 7 + name.len()].copy_from_slice(name.as_bytes());
    let mut d = at + 7 + name.len();
    if d % 2 == 1 {
        d += 1;
    }
    match rec {
        Rec::Dir { id, .. } => {
            img[d] = 1;
            put32(img, d + 6, *id);
            d + 70
        },
        Rec::File { id, len, first, count, second, .. } => {
            img[d] = 2;
            img[d + 4..d + 8].copy_from_slice(b"TEXT");
            put32(img, d + 20, *id);
            put32(img, d + 26, *len);
            put16(img, d + 74, *first);
            put16(img, d + 76, *count);
            put16(img, d + 78, *second);
            d + 102
        },
        Rec::Thread { .. } => {
            img[d] = 3;
            put32(img, d + 10, 2);
            d + 46
        },
        Rec::Bad { .. } => {
            img[d] = 9;
            d + 46
        },
    }
}

/// An HFS image with sixteen 512-byte allocation blocks from byte 0x800; the
/// catalog is blocks 0 and 1 (a header node and one leaf node holding
/// `recs`); "Read Me" data is in block 2 and "inner" data in block 3.
fn volume(recs: &[Rec]) -> Vec<u8> {
    let mut img = vec![0u8; REGION + 16 * BLOCK];
    img[MDB] = b'B';
    img[MDB + 1] = b'D';
    put16(&mut img, MDB + 18, 16);
    put32(&mut img, MDB + 20, BLOCK as u32);
    put16(&mut img, MDB + 28, (REGION / 512) as u16);
    img[MDB + 36] = 4;
    img[MDB + 37..MDB + 41].copy_from_slice(b"Disk");
    put32(&mut img, MDB + 146, 2 * BLOCK as u32);
    put16(&mut img, MDB + 150, 0);
    put16(&mut img, MDB + 152, 2);
    // volume bitmap: blocks 0 to 3 in use
    img[0x600] = 0x0f;
    // header node
    img[REGION + 8] = 1;
    put16(&mut img, REGION + 10, 3);
    put32(&mut img, REGION + 16, 0);
    put16(&mut img, REGION + 32, 512);
    put32(&mut img, REGION + 36, 2);
    // leaf node
    img[LEAF + 8] = 0xff;
    img[LEAF + 9] = 1;
    put16(&mut img, LEAF + 10, recs.len() as u16);
    let mut at = LEAF + 14;
    let mut offsets = Vec::new();
    for r in recs {
        offsets.push((at - LEAF) as u16);
        at = put_record(&mut img, at, r);
    }
    assert!(at <= LEAF + BLOCK - 2 * recs.len());
    for (i, o) in offsets.iter().rev().enumerate() {
        put16(&mut img, LEAF + BLOCK - 2 * recs.len() + 2 * i, *o);
    }
    let data = REGION + 2 * BLOCK;
    img[data..data + READ_ME.len()].copy_from_slice(READ_ME);
    let inner = REGION + 3 * BLOCK;
    img[inner..inner + 5].copy_from_slice(b"hello");
    img
}

fn standard() -> Vec<u8> {
    volume(&[
        Rec::File { parent: 17, name: "inner", id: 18, len: 5, first: 3, count: 1, second: 0 },
        Rec::Dir { parent: 1, name: "Disk", id: 2 },
        Rec::File { parent: 2, name: "Read Me", id: 16, len: READ_ME.len() as u32, first: 2, count: 1, second: 0 },
        Rec::Thread { parent: 17 },
        Rec::Dir { parent: 2, name: "Sub", id: 17 },
    ])
}

fn path(parts: &[&str]) -> Vec<Vec<u8>> {
    parts.iter().map(|p| p.as_bytes().to_vec()).collect()
}

fn count(dir: &Directory) -> (usize, usize) {
    let mut dirs = 1;
    let mut files = dir.files().len();
    for d in dir.subdirs() {
        let (a, b) = count(d);
        dirs += a;
        files += b;
    }
    (dirs, files)
}

#[test]
fn hfs_read_me_round_trip() {
    let vol = HfsVolume::new(standard()).unwrap();
    let f = match lookup_by_path(vol.root_dir(), &path(&["Read Me"])).unwrap() {
        Entry::File(f) => f,
        Entry::Dir(_) => panic!("a directory"),
    };
    assert_eq!(f.data_len(), READ_ME.len() as u32);
    assert_eq!(vol.file_data(f).unwrap(), READ_ME);
    assert_eq!(vol.read_fork(f, Fork::Resource).unwrap(), Vec::<u8>::new());
}

#[test]
fn tree_holds_every_record_once() {
    let vol = HfsVolume::new(standard()).unwrap();
    let root = vol.root_dir();
    assert_eq!(root.name(), b"Disk");
    assert_eq!(root.id(), Cnid::RootDir);
    assert_eq!(count(root), (2, 2));
    assert_eq!(root.files().len(), 1);
    assert_eq!(root.subdirs().len(), 1);
    let sub = root.subdir(b"Sub").unwrap();
    assert_eq!(sub.id(), Cnid::Other(17));
    assert_eq!(sub.files()[0].name(), b"inner");
    assert!(root.file(b"inner").is_none());
}

#[test]
fn nested_path_reads_file() {
    let vol = HfsVolume::new(standard()).unwrap();
    match lookup_by_path(vol.root_dir(), &path(&["Sub", "inner"])).unwrap() {
        Entry::File(f) => assert_eq!(vol.file_data(f).unwrap(), b"hello"),
        Entry::Dir(_) => panic!("a directory"),
    }
    match lookup_by_path(vol.root_dir(), &path(&["Sub"])).unwrap() {
        Entry::Dir(d) => assert_eq!(d.name(), b"Sub"),
        Entry::File(_) => panic!("a file"),
    }
    match lookup_by_path(vol.root_dir(), &path(&[])).unwrap() {
        Entry::Dir(d) => assert_eq!(d.name(), b"Disk"),
        Entry::File(_) => panic!("a file"),
    }
}

#[test]
fn lookup_errors() {
    let vol = HfsVolume::new(standard()).unwrap();
    assert_eq!(lookup_by_path(vol.root_dir(), &path(&["Missing"])).err(), Some(FsError::NotFound));
    assert_eq!(lookup_by_path(vol.root_dir(), &path(&["Read Me", "x"])).err(), Some(FsError::NotADirectory));
    assert_eq!(lookup_by_path(vol.root_dir(), &path(&["Sub", "nothing"])).err(), Some(FsError::NotFound));
}

#[test]
fn reader_stops_at_declared_length() {
    let vol = HfsVolume::new(standard()).unwrap();
    let mut r = vol.file_reader(Cnid::Other(16), Fork::Data).unwrap();
    let first = r.read(&vol, 10).unwrap();
    assert_eq!(first, &READ_ME[..10]);
    let rest = r.read(&vol, 10_000).unwrap();
    assert_eq!(rest, &READ_ME[10..]);
    assert_eq!(r.read(&vol, 10).unwrap(), Vec::<u8>::new());
    assert_eq!(r.seek(3), 3);
    assert_eq!(r.read(&vol, 4).unwrap(), &READ_ME[3..7]);
    r.seek(1000);
    assert_eq!(r.read(&vol, 4).unwrap(), Vec::<u8>::new());
}

#[test]
fn reader_range_lies_in_allocation_region() {
    let vol = HfsVolume::new(standard()).unwrap();
    let r = vol.file_reader(Cnid::Other(16), Fork::Data).unwrap();
    assert_eq!(r.start, (REGION + 2 * BLOCK) as u64);
    assert!(r.start >= REGION as u64);
    assert!(r.start + r.len <= (REGION + 16 * BLOCK) as u64);
    assert_eq!(vol.alloc_blk_offset(3), (REGION + 3 * BLOCK) as u64);
}

#[test]
fn fork_beyond_first_extent_is_unsupported() {
    let img = volume(&[
        Rec::Dir { parent: 1, name: "Disk", id: 2 },
        Rec::File { parent: 2, name: "Big", id: 16, len: 700, first: 2, count: 1, second: 5 },
    ]);
    let vol = HfsVolume::new(img).unwrap();
    assert_eq!(vol.file_reader(Cnid::Other(16), Fork::Data).err(), Some(FsError::UnsupportedExtentSpan));
    assert_eq!(vol.file_reader(Cnid::Other(99), Fork::Data).err(), Some(FsError::NotFound));
}

#[test]
fn extent_past_region_is_corruption() {
    let img = volume(&[
        Rec::Dir { parent: 1, name: "Disk", id: 2 },
        Rec::File { parent: 2, name: "Far", id: 16, len: 10, first: 15, count: 4, second: 0 },
    ]);
    let vol = HfsVolume::new(img).unwrap();
    assert_eq!(vol.file_reader(Cnid::Other(16), Fork::Data).err(), Some(FsError::StructuralCorruption));
}

#[test]
fn orphan_file_is_corruption() {
    let img = volume(&[
        Rec::Dir { parent: 1, name: "Disk", id: 2 },
        Rec::File { parent: 40, name: "Lost", id: 16, len: 1, first: 2, count: 1, second: 0 },
    ]);
    assert_eq!(HfsVolume::new(img).err(), Some(FsError::StructuralCorruption));
}

#[test]
fn orphan_directory_is_corruption() {
    let img = volume(&[
        Rec::Dir { parent: 1, name: "Disk", id: 2 },
        Rec::Dir { parent: 41, name: "Away", id: 40 },
    ]);
    assert_eq!(HfsVolume::new(img).err(), Some(FsError::StructuralCorruption));
}

#[test]
fn unknown_record_tag_is_format_mismatch() {
    let img = volume(&[Rec::Dir { parent: 1, name: "Disk", id: 2 }, Rec::Bad { parent: 2 }]);
    assert_eq!(HfsVolume::new(img).err(), Some(FsError::FormatMismatch));
}

#[test]
fn wrong_magic_or_node_size_is_format_mismatch() {
    let mut img = standard();
    img[MDB + 1] = b'X';
    assert_eq!(HfsVolume::new(img).err(), Some(FsError::FormatMismatch));
    let mut img = standard();
    put16(&mut img, REGION + 32, 1024);
    assert_eq!(HfsVolume::new(img).err(), Some(FsError::FormatMismatch));
}

#[test]
fn header_and_bitmap_are_read() {
    let vol = HfsVolume::new(standard()).unwrap();
    let hdr = vol.hdr();
    assert_eq!(hdr.mdb.alloc_blk_count, 16);
    assert_eq!(hdr.mdb.volume_bitmap_len(), 2);
    assert_eq!(hdr.mdb.catalog_file_start(), REGION as u64);
    assert!(hdr.alloc_blk_occupied(0));
    assert!(hdr.alloc_blk_occupied(3));
    assert!(!hdr.alloc_blk_occupied(4));
    assert_eq!(hdr.catalog_file.nodes.len(), 1);
    assert_eq!(hdr.catalog_file.nodes[0].desc.ty, NodeType::Leaf);
    assert_eq!(hdr.catalog_file.nodes[0].recs.len(), 5);
    assert_eq!(hdr.catalog_file.nodes[0].recs_offsets.len(), 5);
    assert!(hdr.catalog_file.root_node().is_some());
    assert!(hdr.catalog_file.record_by_id(Cnid::Other(17)).is_some());
}

#[test]
fn placement_handles_children_listed_before_parents() {
    // directories: 0 = grandchild (parent 20), 1 = root, 2 = child 20 (parent 2)
    let dir_parents = vec![Cnid::Other(20), Cnid::ParentOfRoot, Cnid::RootDir];
    let dir_ids = vec![Cnid::Other(21), Cnid::RootDir, Cnid::Other(20)];
    let file_parents = vec![Cnid::Other(21), Cnid::RootDir];
    let p = place_records(&dir_parents, &dir_ids, &file_parents).unwrap();
    assert_eq!(p.root, 1);
    assert_eq!(p.order, vec![1, 2, 0]);
    assert_eq!(p.dir_parent[2], 1);
    assert_eq!(p.dir_parent[0], 2);
    assert_eq!(p.file_owner, vec![0, 1]);
}

#[test]
fn placement_without_root_fails() {
    let dir_parents = vec![Cnid::RootDir];
    let dir_ids = vec![Cnid::Other(20)];
    assert_eq!(place_records(&dir_parents, &dir_ids, &vec![]).err(), Some(FsError::StructuralCorruption));
}

#[test]
fn build_tree_nests_directories() {
    let dirs = vec![
        Directory::new(b"c", Cnid::Other(21)),
        Directory::new(b" root ", Cnid::RootDir),
        Directory::new(b"b", Cnid::Other(20)),
    ];
    let files = vec![File::new(b"f\r", Cnid::Other(30), 1, 0)];
    let root = build_tree(
        vec![Cnid::Other(20), Cnid::ParentOfRoot, Cnid::RootDir],
        dirs,
        vec![Cnid::Other(21)],
        files,
    )
    .unwrap();
    assert_eq!(root.name(), b"root");
    let b = &root.subdirs()[0];
    assert_eq!(b.name(), b"b");
    let c = &b.subdirs()[0];
    assert_eq!(c.name(), b"c");
    assert_eq!(c.files()[0].name(), b"f");
    assert_eq!(count(&root), (3, 1));
}

#[test]
fn names_are_trimmed() {
    assert_eq!(trim_name(b"  Read Me \t"), b"Read Me".to_vec());
    assert_eq!(trim_name(b"\xcaIcon\xca"), b"Icon".to_vec());
    assert_eq!(trim_name(b"   "), Vec::<u8>::new());
    assert_eq!(trim_name(b""), Vec::<u8>::new());
}

#[test]
fn cnid_reserved_values() {
    assert_eq!(Cnid::from_u32(1), Cnid::ParentOfRoot);
    assert_eq!(Cnid::from_u32(2), Cnid::RootDir);
    assert_eq!(Cnid::from_u32(5), Cnid::BadBlocksFile);
    assert_eq!(Cnid::from_u32(6), Cnid::Other(6));
    assert_eq!(Cnid::CatalogFile.to_u32(), 4);
}
