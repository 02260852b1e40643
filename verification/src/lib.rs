//! Voxel world logic: block and chunk data, terrain columns, face culling and
//! greedy meshing, chunk streaming decisions, save conversion and menu state.

pub mod types;
pub mod blocks;
pub mod chunks;
pub mod text;
pub mod saves;
pub mod greedy;
pub mod meshing;
pub mod world;
pub mod camera;
pub mod gamestate;
pub mod ui;
