//! A chunked voxel world: dense chunk storage, procedural generation strategies,
//! a chunk manager that streams chunks around a moving viewer under a per-tick
//! work budget, and a mesher that turns loaded voxels into a triangle surface.
pub mod voxel;
pub mod utils;
pub mod block_collections;
pub mod chunk;
pub mod mesh;
pub mod chunk_builder;
pub mod chunk_manager;
pub mod vao_builder;
