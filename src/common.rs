//! Small records shared by the volume formats: fixed and length-prefixed
//! strings, timestamps, QuickDraw points and rectangles, Finder information.
use vstd::prelude::*;

use crate::bytes::{field16, field32, read_u16, read_u32};
use vstd::slice::slice_subrange;
use vstd::string::StringSliceAdditionalSpecFns;

verus! {

/// A fixed-size run of bytes, such as a four-character type or creator code.
#[derive(Clone, Copy, Debug, PartialEq, Eq)]
pub struct SizedString<const SIZE: usize> {
    pub data: [u8; SIZE],
}

impl<const SIZE: usize> SizedString<SIZE> {
    pub fn new(data: [u8; SIZE]) -> (r: Self)
        ensures
            r.data@ == data@,
    {
        SizedString { data }
    }

    pub fn as_inner(&self) -> (r: &[u8; SIZE])
        ensures
            r@ == self.data@,
    {
        &self.data
    }
}

/// A Pascal string in a field of fixed capacity: a length byte, then `CAP`
/// bytes of which the first `len` are the text.
#[derive(Clone, Copy, Debug, PartialEq, Eq)]
pub struct PascalString<const CAP: usize> {
    pub len: u8,
    pub data: [u8; CAP],
}

impl<const CAP: usize> PascalString<CAP> {
    /// The text bytes, clipped to the capacity where the length byte
    /// claims more.
    pub fn as_bytes(&self) -> (r: &[u8])
        ensures
            r@ == self.data@.subrange(0, if self.len as int <= CAP { self.len as int } else { CAP as int }),
    {
        let n: usize = if (self.len as usize) <= CAP { self.len as usize } else { CAP };
        let s: &[u8] = self.data.as_slice();
        slice_subrange(s, 0, n)
    }
}

/// A Pascal string of variable size: a length byte and exactly that many bytes.
#[derive(Clone, Debug, PartialEq, Eq)]
pub struct DynamicPascalString {
    pub len: u8,
    pub data: Vec<u8>,
}

impl DynamicPascalString {
    /// A Pascal string holding the bytes of `t`.
    pub fn new(t: &str) -> (r: Self)
        requires
            t.spec_bytes().len() <= 255,
        ensures
            r.data@ == t.spec_bytes(),
            r.len as nat == t.spec_bytes().len(),
    {
        let data = vstd::slice::slice_to_vec(t.as_bytes());
        DynamicPascalString { len: data.len() as u8, data }
    }

    pub fn len(&self) -> (r: usize)
        ensures
            r == self.data@.len(),
    {
        self.data.len()
    }

    pub fn as_bytes(&self) -> (r: &[u8])
        ensures
            r@ == self.data@,
    {
        self.data.as_slice()
    }

    pub fn as_mut(&mut self) -> (r: &mut Vec<u8>)
        ensures
            *r == old(self).data,
            final(self).data == *final(r),
            final(self).len == old(self).len,
    {
        &mut self.data
    }
}

/// A string whose length is given by the surrounding record.
#[derive(Clone, Debug, PartialEq, Eq)]
pub struct UnsizedPascalString {
    pub data: Vec<u8>,
}

impl UnsizedPascalString {
    pub fn new(t: &str) -> (r: Self)
        ensures
            r.data@ == t.spec_bytes(),
    {
        UnsizedPascalString { data: vstd::slice::slice_to_vec(t.as_bytes()) }
    }

    pub fn len(&self) -> (r: usize)
        ensures
            r == self.data@.len(),
    {
        self.data.len()
    }
}

/// Seconds from 1904-01-01 to 1970-01-01.
pub const MAC_EPOCH_TO_UNIX: u32 = 2082844800;

/// Seconds from 1970-01-01 to 2000-01-01.
pub const Y2K_EPOCH_FROM_UNIX: u32 = 946684800;

/// A timestamp in seconds since 2000-01-01 UTC.
#[derive(Clone, Copy, Debug, PartialEq, Eq)]
pub struct DateTime2k(pub u32);

impl DateTime2k {
    /// Seconds since the Unix epoch.
    pub fn to_unix_seconds(self) -> (r: u64)
        ensures
            r == self.0 as nat + Y2K_EPOCH_FROM_UNIX as nat,
    {
        self.0 as u64 + Y2K_EPOCH_FROM_UNIX as u64
    }

    /// The timestamp for `unix` seconds since the Unix epoch, if it is not
    /// before 2000 and fits.
    pub fn from_unix_seconds(unix: u64) -> (r: Option<Self>)
        ensures
            r matches Some(d) <==> Y2K_EPOCH_FROM_UNIX <= unix && unix - Y2K_EPOCH_FROM_UNIX <= u32::MAX,
            r matches Some(d) ==> d.0 as nat + Y2K_EPOCH_FROM_UNIX as nat == unix,
    {
        if unix < Y2K_EPOCH_FROM_UNIX as u64 || unix - (Y2K_EPOCH_FROM_UNIX as u64) > u32::MAX as u64 {
            None
        } else {
            Some(DateTime2k((unix - Y2K_EPOCH_FROM_UNIX as u64) as u32))
        }
    }
}

/// A classic Mac OS timestamp: seconds since 1904-01-01.
#[derive(Clone, Copy, Debug, PartialEq, Eq)]
pub struct DateTime(pub u32);

impl DateTime {
    /// Seconds since the Unix epoch; negative before 1970.
    pub fn to_unix_seconds(self) -> (r: i64)
        ensures
            r == self.0 as int - MAC_EPOCH_TO_UNIX as int,
    {
        self.0 as i64 - MAC_EPOCH_TO_UNIX as i64
    }

    /// The timestamp for `unix` seconds since the Unix epoch, where it fits
    /// the field.
    pub fn from_unix_seconds(unix: i64) -> (r: Option<Self>)
        ensures
            r matches Some(d) <==> 0 <= unix + MAC_EPOCH_TO_UNIX <= u32::MAX,
            r matches Some(d) ==> d.0 as int == unix + MAC_EPOCH_TO_UNIX,
    {
        if unix < -(MAC_EPOCH_TO_UNIX as i64) || unix > u32::MAX as i64 - MAC_EPOCH_TO_UNIX as i64 {
            None
        } else {
            Some(DateTime((unix + MAC_EPOCH_TO_UNIX as i64) as u32))
        }
    }

    /// Reads the timestamp at `at`.
    pub fn parse(b: &[u8], at: usize) -> (r: Self)
        requires
            at + 4 <= b@.len(),
        ensures
            r.0 as nat == field32(b@, at as int),
    {
        DateTime(read_u32(b, at))
    }
}

/// A QuickDraw point.
#[derive(Clone, Copy, Debug, PartialEq, Eq)]
pub struct Point {
    pub y: i16,
    pub x: i16,
}

/// A QuickDraw rectangle.
#[derive(Clone, Copy, Debug, PartialEq, Eq)]
pub struct Rect {
    pub top_left: Point,
    pub bottom_right: Point,
}

/// The signed value of a 16-bit field.
pub open spec fn signed16(v: nat) -> int {
    if v < 0x8000 { v as int } else { v as int - 0x10000 }
}

/// Reads a signed big-endian 16-bit value at `at`.
pub fn read_i16(b: &[u8], at: usize) -> (r: i16)
    requires
        at + 2 <= b@.len(),
    ensures
        r as int == signed16(field16(b@, at as int)),
{
    let v = read_u16(b, at);
    if v < 0x8000 { v as i16 } else { (v as i32 - 0x10000) as i16 }
}

impl Point {
    /// Reads a point (vertical, then horizontal) at `at`.
    pub fn parse(b: &[u8], at: usize) -> (r: Self)
        requires
            at + 4 <= b@.len(),
        ensures
            r.y as int == signed16(field16(b@, at as int)),
            r.x as int == signed16(field16(b@, at + 2)),
    {
        let _n = b.len();
        Point { y: read_i16(b, at), x: read_i16(b, at + 2) }
    }
}

/// Finder information of a file: type and creator codes, flags, icon
/// position and the folder it is shown in.
#[derive(Clone, Copy, Debug, PartialEq, Eq)]
pub struct FinderInfo {
    pub file_type: SizedString<4>,
    pub file_creator: SizedString<4>,
    pub flags: u16,
    pub location: Point,
    pub parent_dir: u16,
}

/// The sixteen bytes of a Finder information record.
pub const FINDER_INFO_LEN: usize = 16;

impl FinderInfo {
    /// Reads the record at `at`.
    pub fn parse(b: &[u8], at: usize) -> (r: Self)
        requires
            at + FINDER_INFO_LEN <= b@.len(),
        ensures
            r.file_type.data@ == b@.subrange(at as int, at + 4),
            r.file_creator.data@ == b@.subrange(at + 4, at + 8),
            r.flags as nat == field16(b@, at + 8),
            r.parent_dir as nat == field16(b@, at + 14),
    {
        let _n = b.len();
        FinderInfo {
            file_type: SizedString::new(read_code(b, at)),
            file_creator: SizedString::new(read_code(b, at + 4)),
            flags: read_u16(b, at + 8),
            location: Point::parse(b, at + 10),
            parent_dir: read_u16(b, at + 14),
        }
    }
}

/// Reads a four-byte code at `at`.
pub fn read_code(b: &[u8], at: usize) -> (r: [u8; 4])
    requires
        at + 4 <= b@.len(),
    ensures
        r@ == b@.subrange(at as int, at + 4),
{
    let _n = b.len();
    let r = [b[at], b[at + 1], b[at + 2], b[at + 3]];
    assert(r@ =~= b@.subrange(at as int, at + 4));
    r
}

/// Extended Finder information: icon, script, flags, comment and home folder.
#[derive(Clone, Copy, Debug, PartialEq, Eq)]
pub struct ExtraFinderInfo {
    pub icon_id: u16,
    pub script: u8,
    pub flags: u8,
    pub comment_id: u16,
    pub home_dir_id: u32,
}

impl ExtraFinderInfo {
    /// Reads the sixteen-byte record at `at`.
    pub fn parse(b: &[u8], at: usize) -> (r: Self)
        requires
            at + FINDER_INFO_LEN <= b@.len(),
        ensures
            r.icon_id as nat == field16(b@, at as int),
            r.script == b@[at + 8],
            r.flags == b@[at + 9],
            r.comment_id as nat == field16(b@, at + 10),
            r.home_dir_id as nat == field32(b@, at + 12),
    {
        let _n = b.len();
        ExtraFinderInfo {
            icon_id: read_u16(b, at),
            script: b[at + 8],
            flags: b[at + 9],
            comment_id: read_u16(b, at + 10),
            home_dir_id: read_u32(b, at + 12),
        }
    }
}

/// QuickDraw text style bits.
#[derive(Clone, Copy, Debug, PartialEq, Eq)]
pub struct Style(pub u8);

impl Style {
    pub fn bold(&self) -> (r: bool)
        ensures
            r == (self.0 % 2 == 1),
    {
        self.0 % 2 == 1
    }

    pub fn italic(&self) -> (r: bool)
        ensures
            r == ((self.0 / 2) % 2 == 1),
    {
        (self.0 / 2) % 2 == 1
    }

    pub fn underline(&self) -> (r: bool)
        ensures
            r == ((self.0 / 4) % 2 == 1),
    {
        (self.0 / 4) % 2 == 1
    }

    pub fn outline(&self) -> (r: bool)
        ensures
            r == ((self.0 / 8) % 2 == 1),
    {
        (self.0 / 8) % 2 == 1
    }

    pub fn shadow(&self) -> (r: bool)
        ensures
            r == ((self.0 / 16) % 2 == 1),
    {
        (self.0 / 16) % 2 == 1
    }

    pub fn condense(&self) -> (r: bool)
        ensures
            r == ((self.0 / 32) % 2 == 1),
    {
        (self.0 / 32) % 2 == 1
    }

    pub fn extend(&self) -> (r: bool)
        ensures
            r == ((self.0 / 64) % 2 == 1),
    {
        (self.0 / 64) % 2 == 1
    }
}

} // verus!
