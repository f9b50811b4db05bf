use vstd::prelude::*;
use std::rc::Rc;
use crate::extensions::{spec_unsupported, unsupported_extensions, views};
pub use crate::material::TextureInfo;
pub use crate::texture::{MagFilter, MinFilter, WrapMode};

verus! {

/// A texture of the plain glTF model: its image and its sampler slot
/// (0 = default sampler, glTF sampler `i` at `i + 1`).
#[derive(Debug, Clone, Copy)]
pub struct Texture {
    pub image_index: usize,
    pub sampler_index: usize,
}

/// Sampling parameters of the plain glTF model.
#[derive(Debug, Clone, Copy)]
pub struct Sampler {
    pub mag_filter: MagFilter,
    pub min_filter: MinFilter,
    pub wrap_s: WrapMode,
    pub wrap_t: WrapMode,
}

/// How a glTF primitive is drawn.
#[derive(Debug, Clone, Copy, PartialEq, Eq, Structural)]
pub enum PrimitiveMode {
    Points,
    Lines,
    LineLoop,
    LineStrip,
    Triangles,
    TriangleStrip,
    TriangleFan,
}

/// What a glTF primitive provides.
#[derive(Debug, Clone, Copy)]
pub struct PrimitiveShape {
    pub has_indices: bool,
    pub has_positions: bool,
    pub has_normals: bool,
    pub mode: PrimitiveMode,
}

impl Texture {
    /// A texture over image `image_index` with an optional glTF sampler.
    pub fn new(image_index: usize, sampler: Option<usize>) -> (t: Self)
        requires
            sampler matches Some(i) ==> i < usize::MAX,
        ensures
            t.image_index == image_index,
            t.sampler_index == crate::texture::spec_sampler_slot(sampler),
    {
        Texture {
            image_index,
            sampler_index: match sampler {
                Some(i) => i + 1,
                None => 0,
            },
        }
    }
}

impl Sampler {
    /// Sampler 0, used by textures without a sampler.
    pub fn default() -> (s: Self)
        ensures
            s.mag_filter == MagFilter::Linear,
            s.min_filter == MinFilter::LinearMipmapLinear,
            s.wrap_s == WrapMode::Repeat,
            s.wrap_t == WrapMode::Repeat,
    {
        Sampler {
            mag_filter: MagFilter::Linear,
            min_filter: MinFilter::LinearMipmapLinear,
            wrap_s: WrapMode::Repeat,
            wrap_t: WrapMode::Repeat,
        }
    }

    /// A glTF sampler; unset filters default to linear.
    pub fn new(mag_filter: Option<MagFilter>, min_filter: Option<MinFilter>, wrap_s: WrapMode, wrap_t: WrapMode) -> (s: Self)
        ensures
            s.mag_filter == match mag_filter {
                Some(f) => f,
                None => MagFilter::Linear,
            },
            s.min_filter == match min_filter {
                Some(f) => f,
                None => MinFilter::Linear,
            },
            s.wrap_s == wrap_s,
            s.wrap_t == wrap_t,
    {
        Sampler {
            mag_filter: match mag_filter {
                Some(f) => f,
                None => MagFilter::Linear,
            },
            min_filter: match min_filter {
                Some(f) => f,
                None => MinFilter::Linear,
            },
            wrap_s,
            wrap_t,
        }
    }
}

/// The shared name of a glTF object, if it has one.
pub fn get_name(name_opt: Option<&str>) -> (n: Option<Rc<String>>)
    ensures
        match name_opt {
            Some(s) => n matches Some(r) && (*r)@ == s@,
            None => n is None,
        },
{
    match name_opt {
        Some(s) => Some(Rc::new(s.to_owned())),
        None => None,
    }
}

/// A primitive is loaded when it has indices, positions and normals.
pub fn is_primitive_supported(p: &PrimitiveShape) -> (b: bool)
    ensures
        b == (p.has_indices && p.has_positions && p.has_normals),
{
    p.has_indices && p.has_positions && p.has_normals
}

/// The extensions a document uses that the plain model loader does not
/// handle (it handles `KHR_materials_ior` only), in order; the loader
/// reports each as an error.
pub fn check_extensions(used: &[String]) -> (r: Vec<String>)
    ensures
        views(r@) == spec_unsupported(views(used@), seq!["KHR_materials_ior"@]),
{
    let mut supported: Vec<String> = Vec::new();
    supported.push(String::from_str("KHR_materials_ior"));
    proof {
        assert(views(supported@) =~= seq!["KHR_materials_ior"@]);
    }
    unsupported_extensions(used, &supported)
}

} // verus!
