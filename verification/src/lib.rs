//! The header of a block-addressed file system: a record of exactly one block
//! that names the format and its revision, identifies the file system, gives
//! its capacity, and points to its two root structures.
//!
//! [`Header`] is the record, [`layout`] says which bytes of the block store
//! which field, and [`endian`] how the integers among them are stored.

use vstd::prelude::*;

mod bytes;
pub mod endian;
pub mod header;
pub mod ident;
pub mod inspect;
pub mod layout;

pub use endian::ByteOrder;
pub use header::Header;

verus! {

/// Size of a block in bytes. Sizes and addresses in the header count blocks.
pub const BLOCK_SIZE: u64 = 4096;

/// The eight bytes with which every valid header starts: `RedoxFS` in ASCII
/// and a zero.
pub const SIGNATURE: [u8; 8] = [0x52, 0x65, 0x64, 0x6f, 0x78, 0x46, 0x53, 0x00];

/// The revision of the format that this library reads and writes.
pub const VERSION: u64 = 3;

} // verus!
