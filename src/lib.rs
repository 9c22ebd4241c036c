//! Voxel data model: a catalog of block kinds, a fixed-size chunk grid with
//! bounds-checked access, and height-map terrain generation over that grid.
pub mod block;
pub mod chunk;
pub mod mesh;

pub use block::BlockType;
pub use chunk::{Chunk, CHUNK_HEIGHT, CHUNK_SIZE};
