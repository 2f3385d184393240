//! On-disk shapes: magics, sizes and offsets.

pub mod blocks;
pub mod log_items;
