//! A PNG chunk-level codec: chunk-type validation, chunk encode/decode with
//! CRC verification, a container for whole PNG byte streams, and a small
//! XOR stream cipher for message payloads.
pub mod chunk;
pub mod chunk_type;
pub mod cipher;
pub mod png;
mod text;
pub mod wire;

pub use chunk::Chunk;
pub use chunk::ChunkError;
pub use chunk_type::ChunkType;
pub use chunk_type::ChunkTypeError;
pub use cipher::xor_decode;
pub use cipher::xor_encode;
pub use cipher::CipherError;
pub use png::Png;
pub use png::PngError;
