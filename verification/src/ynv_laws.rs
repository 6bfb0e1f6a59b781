//! What the reader and the writer of navmeshes promise together.

pub mod again;
pub mod blocks;
pub mod file;
pub mod flags;
pub mod ids;
pub mod items;
pub mod lists;
pub mod polys;
pub mod size;
pub mod tree;
pub mod whole;
