//! Chunk streaming, palette compression and persistence engine of a voxel world.
pub mod atom;
pub mod chunk;
pub mod chunk_task;
pub mod codec;
pub mod config;
pub mod coords;
pub mod digest;
pub mod edits;
pub mod generator;
pub mod mesh;
pub mod palette;
pub mod registry;
pub mod state;
pub mod storage;
pub mod textures;
pub mod voxel_block;
pub mod world;
