//! Verified core of a glTF ray-tracing renderer: Vulkan version packing,
//! alignment and shader-binding-table layout, ray-tracing shader groups,
//! texture/material/image bookkeeping, geometry tables, skinned-mesh
//! duplication, acceleration-structure inputs, scene walks, frame
//! statistics and the window loop's decisions.

pub mod version;
pub mod align;
pub mod rt_pipeline;
pub mod sbt;
pub mod error;
pub mod image;
pub mod texture;
pub mod material;
pub mod geometry;
pub mod frame;
pub mod skybox;
pub mod extensions;
pub mod gltf_model;
pub mod order;
pub mod device;
pub mod resource;
pub mod scene;
pub mod light;
pub mod accel;
pub mod types;
pub mod pipeline;
pub mod model;
pub mod skinning;
pub mod controls;
pub mod frame_loop;
pub mod shader;
