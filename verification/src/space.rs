//! Byte buffers ("spaces") that atoms are read from and written into.
pub mod error;
pub mod model;
pub mod allocator;
pub mod cursor;
pub mod writer;
pub mod atom_writer;
pub mod aligned;
pub mod reader;
pub mod vec;
pub mod boxed;
pub mod list;
pub mod terminated;
