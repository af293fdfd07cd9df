//! Chunked voxel world: block storage, face-culled meshing, greedy collision
//! boxes, terrain placement and the chunk load/build pipeline.

pub mod block;
pub mod block_culling;
pub mod box_collider;
pub mod camera_controller;
pub mod chunk;
pub mod chunk_manager;
pub mod collision;
pub mod err_screen_state;
pub mod generator;
pub mod identifier;
pub mod input_manager;
pub mod mesh;
pub mod player;
pub mod registry;
pub mod settings;
pub mod vector;
pub mod world;
