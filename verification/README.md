# rustracer

The verified core of a glTF 2.0 ray-tracing renderer for Vulkan.

`src/` is a Verus library. It holds the renderer's bookkeeping, with
contracts proved by Verus:

- `version`, `align`, `rt_pipeline`, `sbt`, `device`, `pipeline`, `shader`: Vulkan API
  version packing, size alignment, ray-tracing shader groups, the shader
  binding table layout and bytes, queue families, device ranking and
  reading SPIR-V words.
- `image`, `texture`, `material`, `extensions`, `gltf_model`, `model`:
  RGBA8 conversion of glTF images and decoding of image files, texture
  and sampler tables, material codes and linear-texture detection,
  extension checks, and the buffer ranges of the plain model loader.
- `geometry`, `skinning`, `accel`, `scene`, `light`, `skybox`: the shared
  geometry buffers, giving skinned nodes vertices of their own, the inputs
  of the acceleration structures, scene walks, lights and sky-box faces.
- `frame`, `frame_loop`, `controls`, `resource`, `order`, `types`: frame
  statistics, the window loop's decisions, movement keys, asset search, and
  stable ordering.

`app/` is ordinary Rust around the library: reading glTF and image files,
turning glTF documents into the library's inputs, the floating-point camera
and normal/tangent generation, and the conversions to Vulkan structures.

`tests/` exercises the library on concrete values.
