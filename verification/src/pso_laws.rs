//! What the reader and the writer of PSO files promise together.

pub mod ends;
pub mod file;
pub mod fits;
pub mod grow;
pub mod own;
pub mod places;
pub mod quiet;
pub mod records;
pub mod scalars;
pub mod spots;
pub mod tree;
