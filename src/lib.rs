//! Reading and writing chunk-based binary containers in the PNG chunk layout:
//! typed, length-prefixed and checksummed chunks behind an eight-byte signature.

pub mod error;
pub mod text;
pub mod wire;
pub mod crc32;
pub mod chunk_type;
pub mod chunk;
pub mod png;

pub use error::PngError;
pub use chunk_type::ChunkType;
pub use chunk::Chunk;
pub use png::Png;
