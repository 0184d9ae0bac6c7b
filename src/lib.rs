//! Memory-scanning, byte-signature matching and virtual-table reconstruction.
//!
//! The library works on plain byte buffers: a caller reads a region of some
//! address space (a process, a file mapping, a test buffer) and hands the bytes
//! and the region's base address to the scanners here.
pub mod pattern;
pub mod search;
pub mod text;
pub mod vtable;
pub mod memory;
pub mod analysis;
