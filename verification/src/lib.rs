//! Verified core of the MeRe meshlet rendering engine.
//!
//! The modules hold the engine's bookkeeping: resource handles, the `.mere`
//! mesh file format, meshlet graph construction and merging, GPU buffer
//! sub-allocation, the asset registry, the frame profiler and a few pure
//! helpers used by the renderer.

pub mod handle;
pub mod bytes;
pub mod mesh;
pub mod meshlet;
pub mod gpu_buffer;
pub mod meshlet_storage;
pub mod profiler;
pub mod history;
pub mod asset_server;
pub mod texture;
pub mod depth_pyramid;
pub mod packing;
pub mod instance_storage;
pub mod render_plan;
pub mod scene;
