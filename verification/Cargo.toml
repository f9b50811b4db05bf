[package]
name = "rustracer"
version = "0.1.0"
edition = "2021"
publish = false

[dependencies]
ash = "0.37"
gltf = { version = "1", features = ["KHR_materials_ior", "KHR_materials_transmission", "KHR_materials_volume", "KHR_materials_specular", "KHR_materials_variants", "KHR_materials_pbrSpecularGlossiness", "KHR_materials_unlit", "KHR_lights_punctual"] }
glam = "0.24"
nalgebra = "0.32"
image = "0.24"
rayon = "1"
mikktspace = "0.3"
log = "0.4"
anyhow = "1"
thiserror = "1"
