//! AppleSingle and AppleDouble containers: a header and a list of entries,
//! one of which may carry a file's resource fork.
use vstd::prelude::*;

use crate::common::{ExtraFinderInfo, FinderInfo, UnsizedPascalString};

verus! {

/// What an entry of the container holds.
#[derive(Clone, Debug)]
pub enum EntryData {
    DataFork(Vec<u8>),
    ResourceFork(Vec<u8>),
    FileName(UnsizedPascalString),
    MacComment(Vec<u8>),
    MacIcon(Vec<u8>),
    MacColorIcon(Vec<u8>),
    FileDates { creation: u32, modification: u32, backup: u32, access: u32 },
    FinderInfo(FinderInfo, ExtraFinderInfo),
    MacFileInfo(Vec<u8>),
    ProdosFileInfo { access: u16, file_type: u16, aux_type: u32 },
    MsDosFileInfo { attrs: u16 },
    AfpShortName(Vec<u8>),
    AfpFileInfo(Vec<u8>),
    AfpDirId(Vec<u8>),
    Other { id: u32, data: Vec<u8> },
}

/// An entry: its identifier, where it lies in the container, and its data.
#[derive(Clone, Debug)]
pub struct Entry {
    pub id: u32,
    pub offset: u32,
    pub length: u32,
    pub data: EntryData,
}

/// The container header and its entries.
#[derive(Clone, Debug)]
pub struct Header {
    pub version: u32,
    pub entry_count: u16,
    pub entries: Vec<Entry>,
}

impl Header {
    /// The data of the entries, in order.
    pub fn entries(&self) -> (r: Vec<&EntryData>)
        ensures
            r@.len() == self.entries@.len(),
            forall|i: int| 0 <= i < r@.len() ==> *r@[i] == self.entries@[i].data,
    {
        let mut out: Vec<&EntryData> = Vec::new();
        let mut i: usize = 0;
        while i < self.entries.len()
            invariant
                i <= self.entries@.len(),
                out@.len() == i,
                forall|k: int| 0 <= k < i ==> *out@[k] == self.entries@[k].data,
            decreases self.entries@.len() - i,
        {
            out.push(&self.entries[i].data);
            i = i + 1;
        }
        out
    }
}

/// An AppleSingle file (data and resource fork together) or an AppleDouble
/// header file (the resource fork beside the data).
#[derive(Clone, Debug)]
pub enum AppleFile {
    Double(Header),
    Single(Header),
}

impl AppleFile {
    pub open spec fn spec_header(&self) -> Header {
        match *self {
            AppleFile::Double(h) => h,
            AppleFile::Single(h) => h,
        }
    }

    fn header(&self) -> (r: &Header)
        ensures
            *r == self.spec_header(),
    {
        match self {
            AppleFile::Double(h) => h,
            AppleFile::Single(h) => h,
        }
    }

    /// The data of the entries, in order.
    pub fn entries(&self) -> (r: Vec<&EntryData>)
        ensures
            r@.len() == self.spec_header().entries@.len(),
            forall|i: int| 0 <= i < r@.len() ==> *r@[i] == self.spec_header().entries@[i].data,
    {
        self.header().entries()
    }

    /// The bytes of the first resource fork entry.
    pub fn resource_fork(&self) -> (r: Option<&[u8]>)
        ensures
            r matches Some(v) ==> exists|i: int|
                0 <= i < self.spec_header().entries@.len()
                    && (#[trigger] self.spec_header().entries@[i]).data is ResourceFork
                    && v@ == self.spec_header().entries@[i].data->ResourceFork_0@
                    && forall|k: int| 0 <= k < i ==> !(self.spec_header().entries@[k].data is ResourceFork),
            r is None ==> forall|k: int| 0 <= k < self.spec_header().entries@.len()
                ==> !(self.spec_header().entries@[k].data is ResourceFork),
    {
        let h = self.header();
        let mut i: usize = 0;
        while i < h.entries.len()
            invariant
                *h == self.spec_header(),
                i <= h.entries@.len(),
                forall|k: int| 0 <= k < i ==> !(h.entries@[k].data is ResourceFork),
            decreases h.entries@.len() - i,
        {
            if let EntryData::ResourceFork(d) = &h.entries[i].data {
                return Some(d.as_slice());
            }
            i = i + 1;
        }
        None
    }
}

} // verus!
