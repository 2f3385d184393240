//! Verified core of an XFS journalling driver: decoding on-disk structures,
//! walking a file's block map, building log records, applying a transaction
//! to the blocks it describes, and holding writes in memory.
//!
//! Nothing here performs I/O. A function that needs a block asks for it or
//! takes it as an argument; a function that changes one hands the new bytes
//! back.
//!
//! # Byte order
//!
//! XFS is big-endian on disk on every host. Checksums are little-endian, and
//! so are the structures that describe a log item; a logged inode core is in
//! the order of the machine that wrote it.

pub mod apply;
pub mod apply_laws;
pub mod bmbt;
pub mod bmbt_laws;
pub mod bytes;
pub mod checksum;
pub mod crc_kind;
pub mod dinode;
pub mod endian;
pub mod error;
pub mod extent;
pub mod format;
pub mod frame_laws;
pub mod inode_laws;
pub mod item_laws;
pub mod kind_laws;
pub mod log;
pub mod log_item;
pub mod log_laws;
pub mod log_write;
pub mod message_laws;
pub mod overlay;
pub mod record_laws;
pub mod superblock;
pub mod task;
pub mod text;

pub use error::Error;
pub use log_write::Filesystem;
pub use superblock::Superblock;
