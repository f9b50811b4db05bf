use vstd::prelude::*;

verus! {

/// A texture: which image it samples and with which sampler. Sampler 0 is
/// the default sampler; glTF sampler `i` is stored at `i + 1`.
#[derive(Debug, Clone)]
pub struct Texture {
    pub image_index: usize,
    pub texture_index: usize,
    pub sampler_index: usize,
    pub name: Option<String>,
}

#[derive(Debug, Clone, Copy, PartialEq, Eq, Structural)]
pub enum MagFilter {
    Nearest,
    Linear,
}

#[derive(Debug, Clone, Copy, PartialEq, Eq, Structural)]
pub enum MinFilter {
    Nearest,
    Linear,
    NearestMipmapNearest,
    LinearMipmapNearest,
    NearestMipmapLinear,
    LinearMipmapLinear,
}

#[derive(Debug, Clone, Copy, PartialEq, Eq, Structural)]
pub enum WrapMode {
    ClampToEdge,
    MirroredRepeat,
    Repeat,
}

/// Texture sampling parameters; `index` is the position in the sampler table.
#[derive(Debug, Clone, Copy)]
pub struct Sampler {
    pub mag_filter: MagFilter,
    pub min_filter: MinFilter,
    pub wrap_s: WrapMode,
    pub wrap_t: WrapMode,
    pub index: usize,
}

/// A Vulkan filter.
#[derive(Debug, Clone, Copy, PartialEq, Eq, Structural)]
pub enum Filter {
    Nearest,
    Linear,
}

/// The fields of a `VkSamplerCreateInfo` that a glTF sampler sets.
#[derive(Debug, Clone, Copy, PartialEq, Eq, Structural)]
pub struct SamplerCreateDesc {
    pub mag_filter: Filter,
    pub min_filter: Filter,
    pub address_mode_u: WrapMode,
    pub address_mode_v: WrapMode,
}

/// Position of an optional glTF sampler in the sampler table (0 = default).
pub open spec fn spec_sampler_slot(sampler: Option<usize>) -> usize {
    match sampler {
        Some(i) => (i + 1) as usize,
        None => 0,
    }
}

impl Texture {
    /// Describes glTF texture `texture_index` over image `image_index`, using
    /// the glTF sampler `sampler` if it names one and the default otherwise.
    pub fn new(texture_index: usize, image_index: usize, sampler: Option<usize>, name: Option<String>) -> (t: Self)
        requires
            sampler matches Some(i) ==> i < usize::MAX,
        ensures
            t.texture_index == texture_index,
            t.image_index == image_index,
            t.sampler_index == spec_sampler_slot(sampler),
            t.name == name,
    {
        let sampler_index = match sampler {
            Some(i) => i + 1,
            None => 0,
        };
        Texture { image_index, texture_index, sampler_index, name }
    }
}

impl Sampler {
    /// Linear magnification, trilinear minification, repeat on both axes.
    pub fn default() -> (s: Self)
        ensures
            s.mag_filter == MagFilter::Linear,
            s.min_filter == MinFilter::LinearMipmapLinear,
            s.wrap_s == WrapMode::Repeat,
            s.wrap_t == WrapMode::Repeat,
            s.index == 0,
    {
        Sampler {
            mag_filter: MagFilter::Linear,
            min_filter: MinFilter::LinearMipmapLinear,
            wrap_s: WrapMode::Repeat,
            wrap_t: WrapMode::Repeat,
            index: 0,
        }
    }

    /// A glTF sampler; unset filters default to linear.
    pub fn new(
        mag_filter: Option<MagFilter>,
        min_filter: Option<MinFilter>,
        wrap_s: WrapMode,
        wrap_t: WrapMode,
        index: Option<usize>,
    ) -> (s: Self)
        requires
            index matches Some(i) ==> i < usize::MAX,
        ensures
            s.mag_filter == match mag_filter {
                Some(f) => f,
                None => MagFilter::Linear,
            },
            s.min_filter == match min_filter {
                Some(f) => f,
                None => MinFilter::Linear,
            },
            s.wrap_s == wrap_s,
            s.wrap_t == wrap_t,
            s.index == spec_sampler_slot(index),
    {
        Sampler {
            mag_filter: match mag_filter {
                Some(f) => f,
                None => MagFilter::Linear,
            },
            min_filter: match min_filter {
                Some(f) => f,
                None => MinFilter::Linear,
            },
            wrap_s,
            wrap_t,
            index: match index {
                Some(i) => i + 1,
                None => 0,
            },
        }
    }
}

/// The Vulkan filter of a minification filter: its base filter, whatever the
/// mipmap mode.
pub open spec fn spec_min_filter(f: MinFilter) -> Filter {
    match f {
        MinFilter::Linear | MinFilter::LinearMipmapLinear | MinFilter::LinearMipmapNearest => Filter::Linear,
        _ => Filter::Nearest,
    }
}

/// Maps a glTF sampler to Vulkan sampler parameters.
pub fn map_gltf_sampler(sampler: &Sampler) -> (d: SamplerCreateDesc)
    ensures
        d.mag_filter == match sampler.mag_filter {
            MagFilter::Linear => Filter::Linear,
            MagFilter::Nearest => Filter::Nearest,
        },
        d.min_filter == spec_min_filter(sampler.min_filter),
        d.address_mode_u == sampler.wrap_s,
        d.address_mode_v == sampler.wrap_t,
{
    let mag_filter = match sampler.mag_filter {
        MagFilter::Linear => Filter::Linear,
        MagFilter::Nearest => Filter::Nearest,
    };
    let min_filter = match sampler.min_filter {
        MinFilter::Linear | MinFilter::LinearMipmapLinear | MinFilter::LinearMipmapNearest => Filter::Linear,
        MinFilter::Nearest | MinFilter::NearestMipmapLinear | MinFilter::NearestMipmapNearest => Filter::Nearest,
    };
    SamplerCreateDesc {
        mag_filter,
        min_filter,
        address_mode_u: sampler.wrap_s,
        address_mode_v: sampler.wrap_t,
    }
}

/// The texture table the shaders read: `[texture, image, sampler]` per texture.
pub fn texture_table(textures: &[Texture]) -> (table: Vec<[usize; 3]>)
    ensures
        table@.len() == textures@.len(),
        forall|i: int| 0 <= i < textures@.len() ==> (#[trigger] table@[i])@ == seq![
            textures@[i].texture_index,
            textures@[i].image_index,
            textures@[i].sampler_index,
        ],
{
    let mut table: Vec<[usize; 3]> = Vec::new();
    let mut i: usize = 0;
    while i < textures.len()
        invariant
            i <= textures@.len(),
            table@.len() == i,
            forall|k: int| 0 <= k < i ==> (#[trigger] table@[k])@ == seq![
                textures@[k].texture_index,
                textures@[k].image_index,
                textures@[k].sampler_index,
            ],
        decreases textures@.len() - i,
    {
        let t = &textures[i];
        let row = [t.texture_index, t.image_index, t.sampler_index];
        proof {
            assert(row@ =~= seq![t.texture_index, t.image_index, t.sampler_index]);
        }
        table.push(row);
        i += 1;
    }
    table
}

} // verus!
