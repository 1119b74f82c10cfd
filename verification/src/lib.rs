//! Merging one compiled object file into an already built 32-bit executable
//! image: the container codec, the section merge, the symbol table and the
//! relocation engine, each with a machine-checked contract.

pub mod coff;
pub mod endian;
pub mod error;
pub mod image_info;
pub mod link;
pub mod merge;
pub mod pe;
pub mod relocate;
pub mod stream;
pub mod text;
