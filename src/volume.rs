//! Telling the image formats apart, and splitting slash-separated paths into
//! the components that path lookup takes.
use vstd::prelude::*;

use crate::error::FsError;

verus! {

/// What an image holds.
#[derive(Clone, Copy, Debug, PartialEq, Eq, Structural)]
pub enum VolumeFormat {
    /// A partitioned disk, starting with a driver descriptor block.
    Apm,
    /// A flat MFS volume.
    Mfs,
    /// A hierarchical HFS volume.
    Hfs,
}

/// The format an image announces: a partition map by "ER" at its start,
/// otherwise a volume by the signature at byte 1024.
pub open spec fn format_of(b: Seq<u8>) -> Result<VolumeFormat, FsError> {
    if b.len() < 2 {
        Err(FsError::IoError)
    } else if b[0] == 0x45 && b[1] == 0x52 {
        Ok(VolumeFormat::Apm)
    } else if b.len() < 1026 {
        Err(FsError::IoError)
    } else if b[1024] == 0xd2 && b[1025] == 0xd7 {
        Ok(VolumeFormat::Mfs)
    } else if b[1024] == 0x42 && b[1025] == 0x44 {
        Ok(VolumeFormat::Hfs)
    } else {
        Err(FsError::FormatMismatch)
    }
}

/// Detects the format of an image.
pub fn detect_format(b: &[u8]) -> (r: Result<VolumeFormat, FsError>)
    ensures
        r == format_of(b@),
{
    let len = b.len();
    if len < 2 {
        Err(FsError::IoError)
    } else if b[0] == 0x45 && b[1] == 0x52 {
        Ok(VolumeFormat::Apm)
    } else if len < 1026 {
        Err(FsError::IoError)
    } else if b[1024] == 0xd2 && b[1025] == 0xd7 {
        Ok(VolumeFormat::Mfs)
    } else if b[1024] == 0x42 && b[1025] == 0x44 {
        Ok(VolumeFormat::Hfs)
    } else {
        Err(FsError::FormatMismatch)
    }
}

/// The separator of path components.
pub const SLASH: u8 = 0x2f;

/// Splitting state after reading `p`: the finished components and the one
/// being read.
pub open spec fn split_state(p: Seq<u8>) -> (Seq<Seq<u8>>, Seq<u8>)
    decreases p.len(),
{
    if p.len() == 0 {
        (Seq::empty(), Seq::empty())
    } else {
        let (done, cur) = split_state(p.drop_last());
        if p.last() == SLASH {
            if cur.len() > 0 {
                (done.push(cur), Seq::empty())
            } else {
                (done, Seq::empty())
            }
        } else {
            (done, cur.push(p.last()))
        }
    }
}

/// The components of a slash-separated path, empty ones left out.
pub open spec fn split_spec(p: Seq<u8>) -> Seq<Seq<u8>> {
    let (done, cur) = split_state(p);
    if cur.len() > 0 {
        done.push(cur)
    } else {
        done
    }
}

/// Splits a path at its slashes, leaving out empty components.
pub fn split_path(p: &[u8]) -> (r: Vec<Vec<u8>>)
    ensures
        r@.map_values(|v: Vec<u8>| v@) == split_spec(p@),
{
    let mut done: Vec<Vec<u8>> = Vec::new();
    let mut cur: Vec<u8> = Vec::new();
    let mut i: usize = 0;
    while i < p.len()
        invariant
            i <= p@.len(),
            done@.map_values(|v: Vec<u8>| v@) == split_state(p@.subrange(0, i as int)).0,
            cur@ == split_state(p@.subrange(0, i as int)).1,
        decreases p@.len() - i,
    {
        proof {
            assert(p@.subrange(0, i + 1).drop_last() =~= p@.subrange(0, i as int));
            assert(p@.subrange(0, i + 1).last() == p@[i as int]);
        }
        if p[i] == SLASH {
            if cur.len() > 0 {
                let ghost before = done@;
                let finished = cur;
                done.push(finished);
                cur = Vec::new();
                proof {
                    assert(done@.map_values(|v: Vec<u8>| v@) =~= before.map_values(|v: Vec<u8>| v@).push(finished@));
                }
            }
        } else {
            cur.push(p[i]);
        }
        i = i + 1;
    }
    proof {
        assert(p@.subrange(0, p@.len() as int) =~= p@);
    }
    if cur.len() > 0 {
        let ghost before = done@;
        let last = cur;
        done.push(last);
        proof {
            assert(done@.map_values(|v: Vec<u8>| v@) =~= before.map_values(|v: Vec<u8>| v@).push(last@));
        }
    }
    done
}

} // verus!
