pub mod block_types;
pub mod chunk;
pub mod mesh;
pub mod voxel_data;
pub mod voxel_map;
pub mod world;
