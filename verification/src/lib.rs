//! General data IO for LV2 plugins: reading and writing atoms in byte buffers.
pub mod atom;
pub mod atoms;
pub mod atomspace;
pub mod buf_size;
pub mod encoding;
pub mod frame;
pub mod header;
pub mod laws;
pub mod port;
pub mod space;
pub mod unidentified;
pub mod util;
