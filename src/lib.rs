//! Decoding and limited mutation of classic Macintosh volumes: the flat MFS
//! format with its packed block map, and the hierarchical HFS format with its
//! catalog B-tree, together with the small binary records they share.
pub mod blockmap;
pub mod bootblocks;
pub mod bytes;
pub mod common;
pub mod counting;
pub mod error;
pub mod hfs;
pub mod m68k;
pub mod mfs;
pub mod partition;
pub mod rsrc;
pub mod single;
pub mod tree;
pub mod volume;
