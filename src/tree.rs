//! Rebuilding the directory hierarchy of an HFS volume from the flat list of
//! catalog records, each tagged with the identifier of its parent.
use vstd::prelude::*;

use crate::error::FsError;
use crate::counting::lemma_distinct_within;
use vstd::multiset::Multiset;
use vstd::set_lib::{lemma_int_range, lemma_len_subset, lemma_subset_equality, set_int_range};

verus! {

/// A catalog node identifier: one of the reserved values, or any other number.
#[derive(Clone, Copy, Debug, PartialEq, Eq, Structural)]
pub enum Cnid {
    ParentOfRoot,
    RootDir,
    ExtentsFile,
    CatalogFile,
    BadBlocksFile,
    Other(u32),
}

/// The identifier that the number `v` stands for.
pub open spec fn cnid_of(v: u32) -> Cnid {
    if v == 1 {
        Cnid::ParentOfRoot
    } else if v == 2 {
        Cnid::RootDir
    } else if v == 3 {
        Cnid::ExtentsFile
    } else if v == 4 {
        Cnid::CatalogFile
    } else if v == 5 {
        Cnid::BadBlocksFile
    } else {
        Cnid::Other(v)
    }
}

impl Cnid {
    /// The identifier for the number `v`.
    pub fn from_u32(v: u32) -> (r: Cnid)
        ensures
            r == cnid_of(v),
    {
        if v == 1 {
            Cnid::ParentOfRoot
        } else if v == 2 {
            Cnid::RootDir
        } else if v == 3 {
            Cnid::ExtentsFile
        } else if v == 4 {
            Cnid::CatalogFile
        } else if v == 5 {
            Cnid::BadBlocksFile
        } else {
            Cnid::Other(v)
        }
    }

    /// The number of the identifier.
    pub fn to_u32(self) -> (r: u32)
        ensures
            self matches Cnid::Other(v) ==> r == v,
            self matches Cnid::Other(v) && !(1 <= v <= 5) ==> cnid_of(r) == self,
            !(self is Other) ==> cnid_of(r) == self,
    {
        match self {
            Cnid::ParentOfRoot => 1,
            Cnid::RootDir => 2,
            Cnid::ExtentsFile => 3,
            Cnid::CatalogFile => 4,
            Cnid::BadBlocksFile => 5,
            Cnid::Other(v) => v,
        }
    }
}

/// A file of the tree: its name, identifier and fork lengths. Its bytes stay
/// on the volume.
#[derive(Clone, Debug)]
pub struct File {
    pub name: Vec<u8>,
    pub id: Cnid,
    pub data_len: u32,
    pub rsrc_len: u32,
}

/// A byte that the name's Mac OS Roman text shows as white space: tab, line
/// feed, vertical tab, form feed, carriage return, space, no-break space.
pub open spec fn is_space(b: u8) -> bool {
    (9 <= b <= 13) || b == 32 || b == 0xca
}

/// `s` without its leading white space.
pub open spec fn trim_start(s: Seq<u8>) -> Seq<u8>
    decreases s.len(),
{
    if s.len() > 0 && is_space(s[0]) {
        trim_start(s.drop_first())
    } else {
        s
    }
}

/// `s` without its trailing white space.
pub open spec fn trim_end(s: Seq<u8>) -> Seq<u8>
    decreases s.len(),
{
    if s.len() > 0 && is_space(s.last()) {
        trim_end(s.drop_last())
    } else {
        s
    }
}

/// `s` without leading and trailing white space.
pub open spec fn trimmed(s: Seq<u8>) -> Seq<u8> {
    trim_end(trim_start(s))
}

/// A catalog name without leading and trailing white space.
pub fn trim_name(name: &[u8]) -> (r: Vec<u8>)
    ensures
        r@ == trimmed(name@),
{
    let len = name.len();
    let mut lo: usize = 0;
    assert(name@.subrange(0, len as int) =~= name@);
    while lo < len && (name[lo] == 32 || name[lo] == 0xca || (9 <= name[lo] && name[lo] <= 13))
        invariant
            len == name@.len(),
            lo <= len,
            trim_start(name@) == trim_start(name@.subrange(lo as int, len as int)),
        decreases len - lo,
    {
        proof {
            assert(name@.subrange(lo as int, len as int).drop_first() =~= name@.subrange(lo + 1, len as int));
        }
        lo = lo + 1;
    }
    let ghost start = name@.subrange(lo as int, len as int);
    proof {
        assert(name@.subrange(0, len as int) =~= name@);
        assert(trim_start(name@) == start);
    }
    let mut hi: usize = len;
    while hi > lo && (name[hi - 1] == 32 || name[hi - 1] == 0xca || (9 <= name[hi - 1] && name[hi - 1] <= 13))
        invariant
            len == name@.len(),
            lo <= hi <= len,
            start == name@.subrange(lo as int, len as int),
            trim_end(start) == trim_end(name@.subrange(lo as int, hi as int)),
        decreases hi - lo,
    {
        proof {
            assert(name@.subrange(lo as int, hi as int).drop_last() =~= name@.subrange(lo as int, hi - 1));
        }
        hi = hi - 1;
    }
    vstd::slice::slice_to_vec(vstd::slice::slice_subrange(name, lo, hi))
}

impl File {
    /// A file named by the trimmed `name`.
    pub fn new(name: &[u8], id: Cnid, data_len: u32, rsrc_len: u32) -> (r: File)
        ensures
            r.name@ == trimmed(name@),
            r.id == id,
            r.data_len == data_len,
            r.rsrc_len == rsrc_len,
    {
        File { name: trim_name(name), id, data_len, rsrc_len }
    }

    pub fn rsrc_len(&self) -> (r: u32)
        ensures
            r == self.rsrc_len,
    {
        self.rsrc_len
    }

    pub fn data_len(&self) -> (r: u32)
        ensures
            r == self.data_len,
    {
        self.data_len
    }

    /// The name as stored in the catalog.
    pub fn name(&self) -> (r: &[u8])
        ensures
            r@ == self.name@,
    {
        self.name.as_slice()
    }

    pub fn id(&self) -> (r: Cnid)
        ensures
            r == self.id,
    {
        self.id
    }
}

/// A directory of the tree, owning its files and subdirectories.
#[derive(Debug)]
pub struct Directory {
    pub name: Vec<u8>,
    pub id: Cnid,
    pub files: Vec<File>,
    pub subdirs: Vec<Directory>,
}

impl Directory {
    /// An empty directory named by the trimmed `name`.
    pub fn new(name: &[u8], id: Cnid) -> (r: Directory)
        ensures
            r.name@ == trimmed(name@),
            r.id == id,
            r.files@.len() == 0,
            r.subdirs@.len() == 0,
    {
        Directory { name: trim_name(name), id, files: Vec::new(), subdirs: Vec::new() }
    }

    pub fn name(&self) -> (r: &[u8])
        ensures
            r@ == self.name@,
    {
        self.name.as_slice()
    }

    pub fn id(&self) -> (r: Cnid)
        ensures
            r == self.id,
    {
        self.id
    }

    pub fn subdirs(&self) -> (r: &[Directory])
        ensures
            r@ == self.subdirs@,
    {
        self.subdirs.as_slice()
    }

    pub fn subdirs_mut(&mut self) -> (r: &mut Vec<Directory>)
        ensures
            *r == old(self).subdirs,
            final(self).subdirs == *final(r),
            final(self).name == old(self).name,
            final(self).id == old(self).id,
            final(self).files == old(self).files,
    {
        &mut self.subdirs
    }

    pub fn files(&self) -> (r: &[File])
        ensures
            r@ == self.files@,
    {
        self.files.as_slice()
    }

    /// The first subdirectory named `name`.
    pub fn subdir(&self, name: &[u8]) -> (r: Option<&Directory>)
        ensures
            r matches Some(d) ==> 0 <= first_named_dir(self.subdirs@, name@, 0) < self.subdirs@.len()
                && *d == self.subdirs@[first_named_dir(self.subdirs@, name@, 0)],
            r is None ==> first_named_dir(self.subdirs@, name@, 0) == -1,
    {
        let mut i: usize = 0;
        while i < self.subdirs.len()
            invariant
                i <= self.subdirs@.len(),
                first_named_dir(self.subdirs@, name@, 0) == first_named_dir(self.subdirs@, name@, i as int),
            decreases self.subdirs@.len() - i,
        {
            if bytes_equal(self.subdirs[i].name.as_slice(), name) {
                return Some(&self.subdirs[i]);
            }
            i = i + 1;
        }
        None
    }

    /// The first file named `name`.
    pub fn file(&self, name: &[u8]) -> (r: Option<&File>)
        ensures
            r matches Some(f) ==> 0 <= first_named_file(self.files@, name@, 0) < self.files@.len()
                && *f == self.files@[first_named_file(self.files@, name@, 0)],
            r is None ==> first_named_file(self.files@, name@, 0) == -1,
    {
        let mut i: usize = 0;
        while i < self.files.len()
            invariant
                i <= self.files@.len(),
                first_named_file(self.files@, name@, 0) == first_named_file(self.files@, name@, i as int),
            decreases self.files@.len() - i,
        {
            if bytes_equal(self.files[i].name.as_slice(), name) {
                return Some(&self.files[i]);
            }
            i = i + 1;
        }
        None
    }
}

/// The position of the first directory from `from` on named `name`, or -1.
pub open spec fn first_named_dir(ds: Seq<Directory>, name: Seq<u8>, from: int) -> int
    decreases ds.len() - from,
{
    if from < 0 || from >= ds.len() {
        -1
    } else if ds[from].name@ == name {
        from
    } else {
        first_named_dir(ds, name, from + 1)
    }
}

/// The position of the first file from `from` on named `name`, or -1.
pub open spec fn first_named_file(fs: Seq<File>, name: Seq<u8>, from: int) -> int
    decreases fs.len() - from,
{
    if from < 0 || from >= fs.len() {
        -1
    } else if fs[from].name@ == name {
        from
    } else {
        first_named_file(fs, name, from + 1)
    }
}

/// The identifiers of the directories of a forest: each tree's root and,
/// below it, its subdirectories.
pub open spec fn forest_ids(ds: Seq<Directory>) -> Multiset<Cnid>
    decreases ds,
{
    if ds.len() == 0 {
        Multiset::empty()
    } else {
        let last = ds[ds.len() - 1];
        forest_ids(ds.subrange(0, ds.len() - 1)).add(Multiset::singleton(last.id)).add(forest_ids(last.subdirs@))
    }
}

/// The identifiers of one tree: its root's and those below it.
pub open spec fn tree_ids(d: Directory) -> Multiset<Cnid> {
    forest_ids(seq![d])
}

/// A forest of one tree holds that tree's root and its subdirectories.
pub proof fn lemma_tree_ids(d: Directory)
    ensures
        tree_ids(d) == Multiset::singleton(d.id).add(forest_ids(d.subdirs@)),
{
    let one = seq![d];
    assert(one.len() == 1);
    assert(one[0] == d);
    assert(one.subrange(0, 0) =~= Seq::<Directory>::empty());
    assert(forest_ids(one.subrange(0, 0)) == Multiset::<Cnid>::empty());
    assert(forest_ids(one) == forest_ids(one.subrange(0, 0)).add(Multiset::singleton(d.id)).add(forest_ids(d.subdirs@)));
    assert(forest_ids(one) =~= Multiset::singleton(d.id).add(forest_ids(d.subdirs@)));
}

/// The identifiers of two forests side by side.
pub proof fn lemma_forest_ids_append(a: Seq<Directory>, b: Seq<Directory>)
    ensures
        forest_ids(a + b) == forest_ids(a).add(forest_ids(b)),
    decreases b.len(),
{
    if b.len() == 0 {
        assert(a + b =~= a);
        assert(forest_ids(a).add(Multiset::empty()) =~= forest_ids(a));
    } else {
        let ab = a + b;
        let b2 = b.subrange(0, b.len() - 1);
        lemma_forest_ids_append(a, b2);
        assert(ab.subrange(0, ab.len() - 1) =~= a + b2);
        assert(ab[ab.len() - 1] == b[b.len() - 1]);
        assert(forest_ids(ab) =~= forest_ids(a).add(forest_ids(b)));
    }
}

/// The identifiers in `ids`, counted with repetition.
pub open spec fn id_multiset(ids: Seq<Cnid>) -> Multiset<Cnid>
    decreases ids.len(),
{
    if ids.len() == 0 {
        Multiset::empty()
    } else {
        id_multiset(ids.subrange(0, ids.len() - 1)).add(Multiset::singleton(ids[ids.len() - 1]))
    }
}

/// The identifiers of `fs`, in order.
pub open spec fn file_id_seq(fs: Seq<File>) -> Seq<Cnid> {
    fs.map_values(|f: File| f.id)
}

/// The identifiers of `fs`, counted with repetition.
pub open spec fn file_ids_of(fs: Seq<File>) -> Multiset<Cnid> {
    id_multiset(file_id_seq(fs))
}

/// The identifiers of the files of a forest, at every level.
pub open spec fn forest_file_ids(ds: Seq<Directory>) -> Multiset<Cnid>
    decreases ds,
{
    if ds.len() == 0 {
        Multiset::empty()
    } else {
        let last = ds[ds.len() - 1];
        forest_file_ids(ds.subrange(0, ds.len() - 1)).add(file_ids_of(last.files@)).add(forest_file_ids(last.subdirs@))
    }
}

/// The identifiers of the files of one tree.
pub open spec fn tree_file_ids(d: Directory) -> Multiset<Cnid> {
    forest_file_ids(seq![d])
}

/// A tree's files are its root's files and those of its subdirectories.
pub proof fn lemma_tree_file_ids(d: Directory)
    ensures
        tree_file_ids(d) == file_ids_of(d.files@).add(forest_file_ids(d.subdirs@)),
{
    let one = seq![d];
    assert(one[0] == d);
    assert(one.subrange(0, 0) =~= Seq::<Directory>::empty());
    assert(forest_file_ids(one.subrange(0, 0)) == Multiset::<Cnid>::empty());
    assert(forest_file_ids(one) =~= file_ids_of(d.files@).add(forest_file_ids(d.subdirs@)));
}

/// The file identifiers of two forests side by side.
pub proof fn lemma_forest_file_ids_append(a: Seq<Directory>, b: Seq<Directory>)
    ensures
        forest_file_ids(a + b) == forest_file_ids(a).add(forest_file_ids(b)),
    decreases b.len(),
{
    if b.len() == 0 {
        assert(a + b =~= a);
        assert(forest_file_ids(a).add(Multiset::empty()) =~= forest_file_ids(a));
    } else {
        let ab = a + b;
        let b2 = b.subrange(0, b.len() - 1);
        lemma_forest_file_ids_append(a, b2);
        assert(ab.subrange(0, ab.len() - 1) =~= a + b2);
        assert(ab[ab.len() - 1] == b[b.len() - 1]);
        assert(forest_file_ids(ab) =~= forest_file_ids(a).add(forest_file_ids(b)));
    }
}

/// The identifiers of two sequences side by side.
pub proof fn lemma_id_multiset_append(a: Seq<Cnid>, b: Seq<Cnid>)
    ensures
        id_multiset(a + b) == id_multiset(a).add(id_multiset(b)),
    decreases b.len(),
{
    if b.len() == 0 {
        assert(a + b =~= a);
        assert(id_multiset(a).add(Multiset::empty()) =~= id_multiset(a));
    } else {
        let ab = a + b;
        let b2 = b.subrange(0, b.len() - 1);
        lemma_id_multiset_append(a, b2);
        assert(ab.subrange(0, ab.len() - 1) =~= a + b2);
        assert(id_multiset(ab) =~= id_multiset(a).add(id_multiset(b)));
    }
}

/// Directories without files or subdirectories hold no files.
pub proof fn lemma_flat_forest_file_ids(ds: Seq<Directory>)
    requires
        forall|i: int| 0 <= i < ds.len() ==> ds[i].subdirs@.len() == 0 && ds[i].files@.len() == 0,
    ensures
        forest_file_ids(ds) == Multiset::<Cnid>::empty(),
    decreases ds.len(),
{
    if ds.len() > 0 {
        let n = ds.len() as int;
        lemma_flat_forest_file_ids(ds.subrange(0, n - 1));
        assert(ds[n - 1].subdirs@ =~= Seq::<Directory>::empty());
        assert(file_id_seq(ds[n - 1].files@) =~= Seq::<Cnid>::empty());
        assert(forest_file_ids(ds[n - 1].subdirs@) == Multiset::<Cnid>::empty());
        assert(forest_file_ids(ds) =~= Multiset::<Cnid>::empty());
    }
}

/// Directories without subdirectories make a forest of exactly their own
/// identifiers.
pub proof fn lemma_flat_forest_ids(ds: Seq<Directory>)
    requires
        forall|i: int| 0 <= i < ds.len() ==> ds[i].subdirs@.len() == 0,
    ensures
        forest_ids(ds) == id_multiset(ds.map_values(|d: Directory| d.id)),
    decreases ds.len(),
{
    if ds.len() > 0 {
        let n = ds.len() as int;
        lemma_flat_forest_ids(ds.subrange(0, n - 1));
        let ids = ds.map_values(|d: Directory| d.id);
        assert(ids.subrange(0, n - 1) =~= ds.subrange(0, n - 1).map_values(|d: Directory| d.id));
        assert(ds[n - 1].subdirs@ =~= Seq::<Directory>::empty());
        assert(forest_ids(ds[n - 1].subdirs@) == Multiset::<Cnid>::empty());
        assert(forest_ids(ds) =~= id_multiset(ids));
    }
}

/// The directory records of a catalog (parent, identifier, name) and its
/// file records (parent, identifier, name), position by position.
pub struct Records {
    pub dir_parents: Seq<Cnid>,
    pub dir_ids: Seq<Cnid>,
    pub dir_names: Seq<Seq<u8>>,
    pub file_parents: Seq<Cnid>,
    pub file_ids: Seq<Cnid>,
    pub file_names: Seq<Seq<u8>>,
}

/// Directory `d` is a directory record under `parent`, with its name.
pub open spec fn dir_linked(parent: Cnid, d: Directory, recs: Records) -> bool {
    exists|i: int|
        0 <= i < recs.dir_ids.len() && #[trigger] recs.dir_ids[i] == d.id && recs.dir_parents[i] == parent
            && recs.dir_names[i] == d.name@
}

/// File `f` is a file record under `parent`, with its name.
pub open spec fn file_linked(parent: Cnid, f: File, recs: Records) -> bool {
    exists|j: int|
        0 <= j < recs.file_ids.len() && #[trigger] recs.file_ids[j] == f.id && recs.file_parents[j] == parent
            && recs.file_names[j] == f.name@
}

/// Every file of `d` is a file record under `d`, with its name.
pub open spec fn files_linked(d: Directory, recs: Records) -> bool {
    forall|k: int| 0 <= k < d.files@.len() ==> #[trigger] file_linked(d.id, d.files@[k], recs)
}

/// Every directory of the forest `ds`, held by a directory with identifier
/// `parent`, is a record under it; and so on below, files included.
pub open spec fn forest_linked(parent: Cnid, ds: Seq<Directory>, recs: Records) -> bool
    decreases ds,
{
    if ds.len() == 0 {
        true
    } else {
        let last = ds[ds.len() - 1];
        &&& forest_linked(parent, ds.subrange(0, ds.len() - 1), recs)
        &&& dir_linked(parent, last, recs)
        &&& files_linked(last, recs)
        &&& forest_linked(last.id, last.subdirs@, recs)
    }
}

/// The tree below `d` hangs together as the records say: each file and
/// subdirectory sits under the directory whose identifier is its parent.
pub open spec fn tree_linked(d: Directory, recs: Records) -> bool {
    files_linked(d, recs) && forest_linked(d.id, d.subdirs@, recs)
}

/// Two forests side by side hang together when each does.
pub proof fn lemma_forest_linked_append(parent: Cnid, a: Seq<Directory>, b: Seq<Directory>, recs: Records)
    ensures
        forest_linked(parent, a + b, recs) == (forest_linked(parent, a, recs) && forest_linked(parent, b, recs)),
    decreases b.len(),
{
    if b.len() == 0 {
        assert(a + b =~= a);
    } else {
        let ab = a + b;
        let b2 = b.subrange(0, b.len() - 1);
        lemma_forest_linked_append(parent, a, b2, recs);
        assert(ab.subrange(0, ab.len() - 1) =~= a + b2);
        assert(ab[ab.len() - 1] == b[b.len() - 1]);
    }
}

/// A forest of one tree hangs together when that tree is a record under
/// `parent` and hangs together itself.
pub proof fn lemma_forest_linked_one(parent: Cnid, d: Directory, recs: Records)
    ensures
        forest_linked(parent, seq![d], recs) == (dir_linked(parent, d, recs) && tree_linked(d, recs)),
{
    let one = seq![d];
    assert(one.len() == 1);
    assert(one[0] == d);
    assert(one.subrange(0, 0) =~= Seq::<Directory>::empty());
    assert(forest_linked(parent, one.subrange(0, 0), recs));
    assert(forest_linked(parent, one, recs) == (forest_linked(parent, one.subrange(0, 0), recs)
        && dir_linked(parent, d, recs) && files_linked(d, recs) && forest_linked(d.id, d.subdirs@, recs)));
}

/// What a path names, or why it names nothing.
pub enum PathTarget {
    Dir(Directory),
    File(File),
    Missing(FsError),
}

/// Resolves `path` from `d`: a component names the first subdirectory of
/// that name; failing that, the first file of that name, which must be the
/// last component.
pub open spec fn resolve(d: Directory, path: Seq<Seq<u8>>) -> PathTarget
    decreases path.len(),
{
    if path.len() == 0 {
        PathTarget::Dir(d)
    } else {
        let i = first_named_dir(d.subdirs@, path[0], 0);
        if i >= 0 {
            resolve(d.subdirs@[i], path.drop_first())
        } else {
            let j = first_named_file(d.files@, path[0], 0);
            if j >= 0 {
                if path.len() == 1 {
                    PathTarget::File(d.files@[j])
                } else {
                    PathTarget::Missing(FsError::NotADirectory)
                }
            } else {
                PathTarget::Missing(FsError::NotFound)
            }
        }
    }
}

/// Byte-wise equality of two slices.
pub fn bytes_equal(a: &[u8], b: &[u8]) -> (r: bool)
    ensures
        r == (a@ == b@),
{
    if a.len() != b.len() {
        return false;
    }
    let mut i: usize = 0;
    while i < a.len()
        invariant
            a@.len() == b@.len(),
            i <= a@.len(),
            forall|k: int| 0 <= k < i ==> a@[k] == b@[k],
        decreases a@.len() - i,
    {
        if a[i] != b[i] {
            return false;
        }
        i = i + 1;
    }
    assert(a@ =~= b@);
    true
}

/// Where each catalog record goes in the tree: the root, the order in which
/// directories were placed, each directory's parent and each file's directory,
/// all as positions in the record lists.
#[derive(Clone, Debug)]
pub struct Placement {
    pub root: usize,
    pub order: Vec<usize>,
    pub dir_parent: Vec<usize>,
    pub file_owner: Vec<usize>,
}

/// The directory placed `k`-th has as parent a directory placed before it,
/// whose identifier is its parent identifier.
pub open spec fn parent_placed_before(
    dir_parents: Seq<Cnid>,
    dir_ids: Seq<Cnid>,
    order: Seq<usize>,
    dir_parent: Seq<usize>,
    k: int,
) -> bool {
    exists|m: int|
        0 <= m < k && dir_parent[order[k] as int] == order[m] && dir_ids[order[m] as int] == dir_parents[order[k] as int]
}

/// `p` places every directory exactly once, reachable from the root, and
/// every file in a directory whose identifier is the file's parent.
pub open spec fn placement_ok(
    dir_parents: Seq<Cnid>,
    dir_ids: Seq<Cnid>,
    file_parents: Seq<Cnid>,
    p: Placement,
) -> bool {
    let n = dir_ids.len();
    &&& dir_parents.len() == n
    &&& p.order@.len() == n
    &&& p.dir_parent@.len() == n
    &&& p.file_owner@.len() == file_parents.len()
    &&& n > 0
    &&& p.order@[0] == p.root
    &&& p.root < n
    &&& dir_parents[p.root as int] == Cnid::ParentOfRoot
    &&& forall|i: int| 0 <= i < p.root ==> dir_parents[i] != Cnid::ParentOfRoot
    &&& forall|k: int| 0 <= k < n ==> p.order@[k] < n
    &&& forall|k: int, l: int| 0 <= k < l < n ==> p.order@[k] != p.order@[l]
    &&& forall|k: int| 0 < k < n ==> #[trigger] parent_placed_before(dir_parents, dir_ids, p.order@, p.dir_parent@, k)
    &&& forall|i: int| 0 <= i < file_parents.len() ==> #[trigger] p.file_owner@[i] < n
            && dir_ids[p.file_owner@[i] as int] == file_parents[i]
}

/// Some placement puts every record in the tree.
pub open spec fn placeable(dir_parents: Seq<Cnid>, dir_ids: Seq<Cnid>, file_parents: Seq<Cnid>) -> bool {
    exists|p: Placement| #[trigger] placement_ok(dir_parents, dir_ids, file_parents, p)
}

/// Every directory whose parent identifier is that of directory `q` is placed.
pub open spec fn children_placed(dir_parents: Seq<Cnid>, dir_ids: Seq<Cnid>, placed: Seq<bool>, q: usize) -> bool {
    forall|j: int| 0 <= j < dir_parents.len() && dir_parents[j] == dir_ids[q as int] ==> #[trigger] placed[j]
}

/// Places the catalog's directories and files. The directory whose parent is
/// the root's parent becomes the root; then, breadth-first, every pending
/// directory whose parent identifier is that of a placed directory goes
/// under it. A file goes to the first directory with its parent's
/// identifier. A record left over is corruption.
#[verifier::loop_isolation(false)]
pub fn place_records(dir_parents: &Vec<Cnid>, dir_ids: &Vec<Cnid>, file_parents: &Vec<Cnid>) -> (r: Result<Placement, FsError>)
    requires
        dir_parents@.len() == dir_ids@.len(),
    ensures
        r matches Ok(p) ==> placement_ok(dir_parents@, dir_ids@, file_parents@, p),
        r is Ok <==> placeable(dir_parents@, dir_ids@, file_parents@),
        r matches Err(e) ==> e == FsError::StructuralCorruption,
        (forall|i: int| 0 <= i < dir_parents@.len() ==> dir_parents@[i] != Cnid::ParentOfRoot) ==> r is Err,
        r is Ok ==> forall|i: int| 0 <= i < file_parents@.len() ==> dir_ids@.contains(#[trigger] file_parents@[i]),
{
    let n = dir_ids.len();
    let root = match find_cnid(dir_parents, Cnid::ParentOfRoot) {
        Some(r) => r,
        None => {
            proof {
                if placeable(dir_parents@, dir_ids@, file_parents@) {
                    let q = choose|q: Placement| #[trigger] placement_ok(dir_parents@, dir_ids@, file_parents@, q);
                    assert(dir_parents@[q.root as int] == Cnid::ParentOfRoot);
                }
            }
            return Err(FsError::StructuralCorruption);
        },
    };
    let mut placed: Vec<bool> = Vec::new();
    let mut dir_parent: Vec<usize> = Vec::new();
    let mut z: usize = 0;
    while z < n
        invariant
            z <= n,
            placed@.len() == z,
            dir_parent@.len() == z,
            forall|q: int| 0 <= q < z ==> !placed@[q],
        decreases n - z,
    {
        placed.push(false);
        dir_parent.push(0);
        z = z + 1;
    }
    placed.set(root, true);
    dir_parent.set(root, root);
    let mut order: Vec<usize> = Vec::new();
    order.push(root);
    proof {
        assert forall|q: int| 0 <= q < n implies (placed@[q] <==> exists|k: int| 0 <= k < order@.len() && order@[k] == q) by {
            if q == root {
                assert(order@[0] == q);
            }
        }
    }
    let mut head: usize = 0;
    while head < order.len()
        invariant
            n == dir_ids@.len(),
            n == dir_parents@.len(),
            root < n,
            dir_parents@[root as int] == Cnid::ParentOfRoot,
            placed@.len() == n,
            dir_parent@.len() == n,
            1 <= order@.len() <= n,
            order@[0] == root,
            head <= order@.len(),
            forall|k: int| 0 <= k < order@.len() ==> order@[k] < n,
            forall|k: int, l: int| 0 <= k < l < order@.len() ==> order@[k] != order@[l],
            forall|q: int| 0 <= q < n ==> (placed@[q] <==> exists|k: int| 0 <= k < order@.len() && order@[k] == q),
            forall|k: int| 0 < k < order@.len() ==> #[trigger] parent_placed_before(dir_parents@, dir_ids@, order@, dir_parent@, k),
            forall|k: int| 0 <= k < head ==> #[trigger] children_placed(dir_parents@, dir_ids@, placed@, order@[k]),
        decreases n - head, n - order@.len(),
    {
        let cur = order[head];
        let mut j: usize = 0;
        while j < n
            invariant
                n == dir_ids@.len(),
                n == dir_parents@.len(),
                root < n,
                placed@.len() == n,
                dir_parent@.len() == n,
                1 <= order@.len() <= n,
                order@[0] == root,
                head < order@.len(),
                cur == order@[head as int],
                j <= n,
                forall|k: int| 0 <= k < order@.len() ==> order@[k] < n,
                forall|k: int, l: int| 0 <= k < l < order@.len() ==> order@[k] != order@[l],
                forall|q: int| 0 <= q < n ==> (placed@[q] <==> exists|k: int| 0 <= k < order@.len() && order@[k] == q),
                forall|k: int| 0 < k < order@.len() ==> #[trigger] parent_placed_before(dir_parents@, dir_ids@, order@, dir_parent@, k),
                forall|k: int| 0 <= k < head ==> #[trigger] children_placed(dir_parents@, dir_ids@, placed@, order@[k]),
                forall|q: int| 0 <= q < j && dir_parents@[q] == dir_ids@[cur as int] ==> placed@[q],
            decreases n - j,
        {
            let ghost placed_before = placed@;
            let ghost order_before = order@;
            if !placed[j] && dir_parents[j] == dir_ids[cur] {
                proof {
                    lemma_unplaced_bound(placed@, order@, n as int, j as int);
                }
                let ghost old_order = order@;
                let ghost old_placed = placed@;
                let ghost old_parent = dir_parent@;
                placed.set(j, true);
                dir_parent.set(j, cur);
                order.push(j);
                proof {
                    assert forall|q: int| 0 <= q < n implies (placed@[q] <==> exists|k: int| 0 <= k < order@.len() && order@[k] == q) by {
                        if q == j {
                            assert(order@[old_order.len() as int] == q);
                        } else {
                            if old_placed[q] {
                                let k = choose|k: int| 0 <= k < old_order.len() && old_order[k] == q;
                                assert(order@[k] == q);
                            }
                            if exists|k: int| 0 <= k < order@.len() && order@[k] == q {
                                let k = choose|k: int| 0 <= k < order@.len() && order@[k] == q;
                                assert(k < old_order.len());
                                assert(old_order[k] == q);
                            }
                        }
                    }
                    assert forall|k: int, l: int| 0 <= k < l < order@.len() implies order@[k] != order@[l] by {
                        if l == old_order.len() {
                            assert(!old_placed[j as int]);
                            if old_order[k] == j {
                                assert(old_placed[j as int]);
                            }
                        }
                    }
                    assert forall|k: int| 0 < k < order@.len() implies #[trigger] parent_placed_before(dir_parents@, dir_ids@, order@, dir_parent@, k) by {
                        if k == old_order.len() {
                            assert(order@[k] == j);
                            assert(dir_parent@[order@[k] as int] == order@[head as int]);
                            assert(dir_ids@[order@[head as int] as int] == dir_parents@[order@[k] as int]);
                            assert(0 <= head < k);
                        } else {
                            assert(parent_placed_before(dir_parents@, dir_ids@, old_order, old_parent, k));
                            let m = choose|m: int| 0 <= m < k && old_parent[old_order[k] as int] == old_order[m]
                                && dir_ids@[old_order[m] as int] == dir_parents@[old_order[k] as int];
                            assert(old_order[k] != j) by {
                                assert(old_placed[old_order[k] as int]);
                            }
                            assert(dir_parent@[order@[k] as int] == order@[m]);
                            assert(dir_ids@[order@[m] as int] == dir_parents@[order@[k] as int]);
                        }
                    }
                }
            }
            proof {
                assert forall|q: int| 0 <= q < j + 1 && dir_parents@[q] == dir_ids@[cur as int] implies placed@[q] by {
                    if q < j {
                        assert(placed_before[q]);
                    }
                }
                assert forall|k: int| 0 <= k < head implies #[trigger] children_placed(dir_parents@, dir_ids@, placed@, order@[k]) by {
                    assert(order@[k] == order_before[k]);
                    assert(children_placed(dir_parents@, dir_ids@, placed_before, order_before[k]));
                    assert forall|q: int| 0 <= q < dir_parents@.len() && dir_parents@[q] == dir_ids@[order@[k] as int] implies #[trigger] placed@[q] by {
                        assert(placed_before[q]);
                    }
                }
            }
            j = j + 1;
        }
        proof {
            assert(children_placed(dir_parents@, dir_ids@, placed@, order@[head as int]));
        }
        head = head + 1;
    }
    if order.len() < n {
        proof {
            if placeable(dir_parents@, dir_ids@, file_parents@) {
                let q = choose|q: Placement| #[trigger] placement_ok(dir_parents@, dir_ids@, file_parents@, q);
                lemma_breadth_first_complete(dir_parents@, dir_ids@, file_parents@, q, order@, placed@, root);
            }
        }
        return Err(FsError::StructuralCorruption);
    }
    let mut file_owner: Vec<usize> = Vec::new();
    let mut i: usize = 0;
    while i < file_parents.len()
        invariant
            n == dir_ids@.len(),
            i <= file_parents@.len(),
            file_owner@.len() == i,
            forall|k: int| 0 <= k < i ==> #[trigger] file_owner@[k] < n && dir_ids@[file_owner@[k] as int] == file_parents@[k],
        decreases file_parents@.len() - i,
    {
        let j = match find_cnid(dir_ids, file_parents[i]) {
            Some(j) => j,
            None => {
                proof {
                    if placeable(dir_parents@, dir_ids@, file_parents@) {
                        let q = choose|q: Placement| #[trigger] placement_ok(dir_parents@, dir_ids@, file_parents@, q);
                        assert(q.file_owner@[i as int] < n);
                    }
                }
                return Err(FsError::StructuralCorruption);
            },
        };
        file_owner.push(j);
        i = i + 1;
    }
    proof {
        assert forall|i: int| 0 <= i < file_parents@.len() implies dir_ids@.contains(#[trigger] file_parents@[i]) by {
            assert(file_owner@[i] < n);
            assert(dir_ids@[file_owner@[i] as int] == file_parents@[i]);
        }
    }
    let placement = Placement { root, order, dir_parent, file_owner };
    assert(placement_ok(dir_parents@, dir_ids@, file_parents@, placement));
    Ok(placement)
}

/// Every directory record appears exactly once in the rebuilt tree: a
/// placement lists each directory at exactly one position, and every
/// directory but the root hangs under a directory placed before it.
pub proof fn lemma_each_directory_placed_once(
    dir_parents: Seq<Cnid>,
    dir_ids: Seq<Cnid>,
    file_parents: Seq<Cnid>,
    p: Placement,
    q: int,
)
    requires
        placement_ok(dir_parents, dir_ids, file_parents, p),
        0 <= q < dir_ids.len(),
    ensures
        exists|k: int| 0 <= k < dir_ids.len() && p.order@[k] == q,
        forall|k: int, l: int| 0 <= k < dir_ids.len() && 0 <= l < dir_ids.len() && p.order@[k] == q && p.order@[l] == q ==> k == l,
{
    let n = dir_ids.len() as int;
    let ints = p.order@.map_values(|x: usize| x as int);
    assert(ints.no_duplicates()) by {
        assert forall|a: int, b: int| 0 <= a < ints.len() && 0 <= b < ints.len() && a != b implies ints[a] != ints[b] by {
            if a < b {
                assert(p.order@[a] != p.order@[b]);
            } else {
                assert(p.order@[b] != p.order@[a]);
            }
        }
    }
    ints.unique_seq_to_set();
    lemma_int_range(0, n);
    assert(ints.to_set().subset_of(set_int_range(0, n))) by {
        assert forall|x: int| ints.to_set().contains(x) implies set_int_range(0, n).contains(x) by {
            let k = choose|k: int| 0 <= k < ints.len() && ints[k] == x;
            assert(p.order@[k] < n);
        }
    }
    lemma_len_subset(ints.to_set(), set_int_range(0, n));
    lemma_subset_equality(ints.to_set(), set_int_range(0, n));
    assert(set_int_range(0, n).contains(q));
    assert(ints.to_set().contains(q));
    let k = choose|k: int| 0 <= k < ints.len() && ints[k] == q;
    assert(p.order@[k] == q);
    assert forall|a: int, b: int| 0 <= a < n && 0 <= b < n && p.order@[a] == q && p.order@[b] == q implies a == b by {
        if a < b {
            assert(p.order@[a] != p.order@[b]);
        } else if b < a {
            assert(p.order@[b] != p.order@[a]);
        }
    }
}

/// The first position of `x` in `v`.
pub fn find_cnid(v: &Vec<Cnid>, x: Cnid) -> (r: Option<usize>)
    ensures
        r matches Some(i) ==> i < v@.len() && v@[i as int] == x && forall|k: int| 0 <= k < i ==> v@[k] != x,
        r is None ==> forall|k: int| 0 <= k < v@.len() ==> v@[k] != x,
{
    let mut i: usize = 0;
    while i < v.len()
        invariant
            i <= v@.len(),
            forall|k: int| 0 <= k < i ==> v@[k] != x,
        decreases v@.len() - i,
    {
        if v[i] == x {
            return Some(i);
        }
        i = i + 1;
    }
    None
}

/// Breadth-first placement from the first root misses nothing that some
/// placement reaches: once every placed directory has had its children
/// placed, all directories are placed.
proof fn lemma_breadth_first_complete(
    dir_parents: Seq<Cnid>,
    dir_ids: Seq<Cnid>,
    file_parents: Seq<Cnid>,
    p: Placement,
    order: Seq<usize>,
    placed: Seq<bool>,
    root: usize,
)
    requires
        placement_ok(dir_parents, dir_ids, file_parents, p),
        root < dir_ids.len(),
        dir_parents[root as int] == Cnid::ParentOfRoot,
        forall|i: int| 0 <= i < root ==> dir_parents[i] != Cnid::ParentOfRoot,
        placed.len() == dir_ids.len(),
        1 <= order.len() <= dir_ids.len(),
        order[0] == root,
        forall|k: int| 0 <= k < order.len() ==> order[k] < dir_ids.len(),
        forall|k: int, l: int| 0 <= k < l < order.len() ==> order[k] != order[l],
        forall|q: int| 0 <= q < dir_ids.len() ==> (placed[q] <==> exists|k: int| 0 <= k < order.len() && order[k] == q),
        forall|k: int| 0 <= k < order.len() ==> #[trigger] children_placed(dir_parents, dir_ids, placed, order[k]),
    ensures
        order.len() == dir_ids.len(),
{
    let n = dir_ids.len() as int;
    if p.root < root {
        assert(dir_parents[p.root as int] == Cnid::ParentOfRoot);
    } else if root < p.root {
        assert(dir_parents[root as int] != Cnid::ParentOfRoot);
    }
    assert(p.root == root);
    assert forall|k: int| 0 <= k < n implies #[trigger] placed[p.order@[k] as int] by {
        lemma_placed_along(dir_parents, dir_ids, file_parents, p, order, placed, k);
    }
    let ints = order.map_values(|x: usize| x as int);
    assert(ints.no_duplicates()) by {
        assert forall|a: int, b: int| 0 <= a < ints.len() && 0 <= b < ints.len() && a != b implies ints[a] != ints[b] by {
            if a < b {
                assert(order[a] != order[b]);
            } else {
                assert(order[b] != order[a]);
            }
        }
    }
    ints.unique_seq_to_set();
    lemma_int_range(0, n);
    assert(set_int_range(0, n).subset_of(ints.to_set())) by {
        assert forall|q: int| set_int_range(0, n).contains(q) implies ints.to_set().contains(q) by {
            lemma_each_directory_placed_once(dir_parents, dir_ids, file_parents, p, q);
            let k = choose|k: int| 0 <= k < n && p.order@[k] == q;
            assert(placed[p.order@[k] as int]);
            let kk = choose|kk: int| 0 <= kk < order.len() && order[kk] == q;
            assert(ints[kk] == q);
        }
    }
    lemma_len_subset(set_int_range(0, n), ints.to_set());
}

/// The directory placed `k`-th by a placement is also placed breadth-first.
proof fn lemma_placed_along(
    dir_parents: Seq<Cnid>,
    dir_ids: Seq<Cnid>,
    file_parents: Seq<Cnid>,
    p: Placement,
    order: Seq<usize>,
    placed: Seq<bool>,
    k: int,
)
    requires
        placement_ok(dir_parents, dir_ids, file_parents, p),
        placed.len() == dir_ids.len(),
        order.len() >= 1,
        order[0] == p.root,
        forall|q: int| 0 <= q < dir_ids.len() ==> (placed[q] <==> exists|k: int| 0 <= k < order.len() && order[k] == q),
        forall|k: int| 0 <= k < order.len() ==> #[trigger] children_placed(dir_parents, dir_ids, placed, order[k]),
        0 <= k < dir_ids.len(),
    ensures
        placed[p.order@[k] as int],
    decreases k,
{
    if k == 0 {
        assert(order[0] == p.order@[0]);
    } else {
        assert(parent_placed_before(dir_parents, dir_ids, p.order@, p.dir_parent@, k));
        let m = choose|m: int| 0 <= m < k && p.dir_parent@[p.order@[k] as int] == p.order@[m]
            && dir_ids[p.order@[m] as int] == dir_parents[p.order@[k] as int];
        lemma_placed_along(dir_parents, dir_ids, file_parents, p, order, placed, m);
        let q = p.order@[m] as int;
        let kk = choose|kk: int| 0 <= kk < order.len() && order[kk] == q;
        assert(children_placed(dir_parents, dir_ids, placed, order[kk]));
    }
}

/// With an entry still unplaced, fewer than all directories are in the order.
proof fn lemma_unplaced_bound(placed: Seq<bool>, order: Seq<usize>, n: int, j: int)
    requires
        placed.len() == n,
        0 <= j < n,
        !placed[j],
        forall|k: int| 0 <= k < order.len() ==> order[k] < n,
        forall|k: int, l: int| 0 <= k < l < order.len() ==> order[k] != order[l],
        forall|q: int| 0 <= q < n ==> (placed[q] <==> exists|k: int| 0 <= k < order.len() && order[k] == q),
    ensures
        order.len() < n,
{
    let ints = order.map_values(|x: usize| x as int);
    assert(ints.no_duplicates()) by {
        assert forall|a: int, b: int| 0 <= a < ints.len() && 0 <= b < ints.len() && a != b implies ints[a] != ints[b] by {
            if a < b {
                assert(order[a] != order[b]);
            } else {
                assert(order[b] != order[a]);
            }
        }
    }
    assert forall|k: int| 0 <= k < ints.len() implies 0 <= #[trigger] ints[k] < n && ints[k] != j by {
        assert(placed[order[k] as int]);
    }
    lemma_distinct_within(ints, n, j);
}

} // verus!
