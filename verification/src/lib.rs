//! Progressive loading, level-of-detail sampling and camera timelines for a
//! viewer of time-series meshes.
//!
//! The crate holds the decisions of the viewer as plain data structures:
//! which frames of a sequence to load first and which next, which load
//! requests are still owed, which frame is on screen, and which recorded
//! camera keyframes bracket a frame. Rendering, file access and the asset
//! server stay with the caller.

pub mod asset_load_checker;
pub mod background_meshes;
pub mod camera_system;
pub mod camera_timeline;
pub mod features;
pub mod glob_or_dir_loader;
pub mod load_manager;
pub mod lod_levels;
pub mod lod_midpoint_iterator;
pub mod mesh_pool;
pub mod natural_order;
pub mod render;
pub mod vec_as_dropdown;
