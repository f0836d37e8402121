//! Chunked voxel storage, compression, neighbour resolution, face-culling
//! meshing and the incremental chunk load pipeline of a block world.

pub mod block;
pub mod chunk;
pub mod compressed;
pub mod world;
pub mod mesh;
pub mod catalog;
pub mod wide;
pub mod mesher;
pub mod store;
pub mod pipeline;
pub mod settings;
pub mod player;
