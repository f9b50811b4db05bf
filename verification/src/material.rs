use vstd::prelude::*;
use std::collections::HashSet;

verus! {

/// A material's reference to a texture, as glTF states it: the texture's
/// index and the texture-coordinate set it uses.
#[derive(Debug, Clone, Copy)]
pub struct TextureRef {
    pub texture_index: usize,
    pub tex_coord: u32,
}

/// The texture slot of a material as the shaders read it: the texture table
/// index (0 is the dummy texture, so glTF texture `i` is `i + 1`) and the
/// coordinate set; both -1 when the material has no such texture.
#[derive(Debug, Clone, Copy)]
pub struct TextureInfo {
    pub texture_index: i32,
    pub tex_coord: i32,
}

/// The kind of PBR model a material uses.
#[derive(Debug, Clone, Copy, PartialEq, Eq, Structural)]
pub enum MaterialType {
    MetallicRoughness,
}

/// The glTF alpha mode.
#[derive(Debug, Clone, Copy, PartialEq, Eq, Structural)]
pub enum AlphaMode {
    Opaque,
    Mask,
    Blend,
}

/// Which PBR workflow the shaders run for a material.
#[derive(Debug, Clone, Copy, PartialEq, Eq, Structural)]
pub enum Workflow {
    MetallicRoughness,
    SpecularGlossiness,
}

/// The images a material samples, for finding the textures that hold linear
/// (non-colour) data.
#[derive(Debug, Clone, Copy)]
pub struct MaterialImageSources {
    pub normal: Option<usize>,
    pub metallic_roughness: Option<usize>,
    pub transmission: Option<usize>,
    pub specular: Option<usize>,
    pub occlusion: Option<usize>,
    pub thickness: Option<usize>,
}

/// The non-numeric description of a material: its textures and modes.
#[derive(Debug, Clone)]
pub struct Material {
    pub name: Option<String>,
    pub index: usize,
    pub unlit: bool,
    pub alpha_mode: AlphaMode,
    pub double_sided: bool,
    pub base_color_texture: TextureInfo,
    pub metallic_roughness_texture: TextureInfo,
    pub normal_texture: TextureInfo,
    pub emissive_texture: TextureInfo,
    pub occlusion_texture: TextureInfo,
    pub material_type: MaterialType,
    pub has_specular_glossiness: bool,
}

/// The integer codes of a material in the GPU material record.
#[derive(Debug, Clone, Copy, PartialEq, Eq, Structural)]
pub struct MaterialCodes {
    pub alpha_mode: u32,
    pub double_sided: u32,
    pub workflow: u32,
    pub unlit: u32,
}

impl TextureInfo {
    /// The slot of a texture the material does not have.
    pub fn default() -> (t: Self)
        ensures
            t.texture_index == -1,
            t.tex_coord == -1,
    {
        TextureInfo { texture_index: -1, tex_coord: -1 }
    }

    /// The slot for an optional texture reference, shifted past the dummy
    /// texture at index 0 (the values are cast to `i32` as the GPU record has them).
    pub fn new(info: Option<TextureRef>) -> (t: Self)
        requires
            info matches Some(r) ==> r.texture_index < usize::MAX,
        ensures
            t == spec_texture_info(info, 1),
    {
        match info {
            Some(r) => TextureInfo { texture_index: (1 + r.texture_index) as i32, tex_coord: r.tex_coord as i32 },
            None => Self::default(),
        }
    }

    /// The slot of a normal texture.
    pub fn new_normal(info: Option<TextureRef>) -> (t: Self)
        requires
            info matches Some(r) ==> r.texture_index < usize::MAX,
        ensures
            t == spec_texture_info(info, 1),
    {
        Self::new(info)
    }

    /// The slot of an occlusion texture.
    pub fn new_occ(info: Option<TextureRef>) -> (t: Self)
        requires
            info matches Some(r) ==> r.texture_index < usize::MAX,
        ensures
            t == spec_texture_info(info, 1),
    {
        Self::new(info)
    }

    /// The slot for a texture reference without the shift past a dummy
    /// texture, as the plain glTF model loader builds it.
    pub fn new_unshifted(info: Option<TextureRef>) -> (t: Self)
        ensures
            t == spec_texture_info(info, 0),
    {
        match info {
            Some(r) => TextureInfo { texture_index: r.texture_index as i32, tex_coord: r.tex_coord as i32 },
            None => Self::default(),
        }
    }

    /// The material has no texture in this slot.
    pub fn is_none(&self) -> (b: bool)
        ensures
            b == (self.texture_index == -1),
    {
        self.texture_index == -1
    }
}

/// The slot built from an optional reference, with the texture index shifted by `shift`.
pub open spec fn spec_texture_info(info: Option<TextureRef>, shift: int) -> TextureInfo {
    match info {
        Some(r) => TextureInfo { texture_index: (r.texture_index + shift) as i32, tex_coord: r.tex_coord as i32 },
        None => TextureInfo { texture_index: -1i32, tex_coord: -1i32 },
    }
}

impl Material {
    pub fn has_normal_texture(&self) -> (b: bool)
        ensures
            b == (self.normal_texture.texture_index != -1),
    {
        !self.normal_texture.is_none()
    }

    pub fn is_opaque(&self) -> (b: bool)
        ensures
            b == (self.alpha_mode == AlphaMode::Opaque),
    {
        self.alpha_mode == AlphaMode::Opaque
    }

    /// Specular-glossiness when the material carries that extension,
    /// metallic-roughness otherwise.
    pub fn workflow(&self) -> (w: Workflow)
        ensures
            w == if self.has_specular_glossiness {
                Workflow::SpecularGlossiness
            } else {
                Workflow::MetallicRoughness
            },
    {
        if self.has_specular_glossiness {
            Workflow::SpecularGlossiness
        } else {
            Workflow::MetallicRoughness
        }
    }

    /// The integer fields of the GPU material record: the glTF alpha-mode
    /// code (opaque 1, mask 2, blend 3), the flags as 0/1 and the workflow
    /// (metallic-roughness 0, specular-glossiness 1).
    pub fn raw_codes(&self) -> (c: MaterialCodes)
        ensures
            c.alpha_mode == match self.alpha_mode {
                AlphaMode::Opaque => 1u32,
                AlphaMode::Mask => 2u32,
                AlphaMode::Blend => 3u32,
            },
            c.double_sided == if self.double_sided { 1u32 } else { 0u32 },
            c.workflow == if self.has_specular_glossiness { 1u32 } else { 0u32 },
            c.unlit == if self.unlit { 1u32 } else { 0u32 },
    {
        let alpha_mode: u32 = match self.alpha_mode {
            AlphaMode::Opaque => 1,
            AlphaMode::Mask => 2,
            AlphaMode::Blend => 3,
        };
        let workflow: u32 = match self.workflow() {
            Workflow::MetallicRoughness => 0,
            Workflow::SpecularGlossiness => 1,
        };
        MaterialCodes {
            alpha_mode,
            double_sided: if self.double_sided { 1 } else { 0 },
            workflow,
            unlit: if self.unlit { 1 } else { 0 },
        }
    }
}

/// The images of one material that hold linear data: its normal,
/// metallic-roughness, transmission, specular, occlusion and volume
/// thickness textures.
pub open spec fn linear_sources(m: MaterialImageSources) -> Set<usize> {
    Set::new(
        |x: usize|
            m.normal == Some(x) || m.metallic_roughness == Some(x) || m.transmission == Some(x)
                || m.specular == Some(x) || m.occlusion == Some(x) || m.thickness == Some(x),
    )
}

/// All images that some material samples as linear data.
pub open spec fn spec_linear_textures(ms: Seq<MaterialImageSources>) -> Set<usize> {
    Set::new(|x: usize| exists|i: int| 0 <= i < ms.len() && #[trigger] linear_sources(ms[i]).contains(x))
}

fn insert_source(set: &mut HashSet<usize>, source: Option<usize>)
    ensures
        final(set)@ == match source {
            Some(x) => old(set)@.insert(x),
            None => old(set)@,
        },
{
    if let Some(x) = source {
        set.insert(x);
    }
}

/// Finds the images that hold linear data: colour textures (base colour,
/// emissive) are sRGB, every other texture is linear.
pub fn find_linear_textures(materials: &[MaterialImageSources]) -> (set: HashSet<usize>)
    ensures
        set@ == spec_linear_textures(materials@),
{
    let mut set: HashSet<usize> = HashSet::new();
    let mut i: usize = 0;
    while i < materials.len()
        invariant
            i <= materials@.len(),
            set@ == spec_linear_textures(materials@.take(i as int)),
        decreases materials@.len() - i,
    {
        let m = materials[i];
        let ghost before = set@;
        insert_source(&mut set, m.normal);
        insert_source(&mut set, m.metallic_roughness);
        insert_source(&mut set, m.transmission);
        insert_source(&mut set, m.specular);
        insert_source(&mut set, m.occlusion);
        insert_source(&mut set, m.thickness);
        proof {
            let prev = materials@.take(i as int);
            let next = materials@.take(i + 1);
            assert(set@ =~= before.union(linear_sources(m)));
            assert forall|x: usize| spec_linear_textures(next).contains(x) <==> set@.contains(x) by {
                if spec_linear_textures(next).contains(x) {
                    let j = choose|j: int| 0 <= j < next.len() && #[trigger] linear_sources(next[j]).contains(x);
                    if j < i {
                        assert(prev[j] == next[j]);
                        assert(spec_linear_textures(prev).contains(x));
                    } else {
                        assert(next[j] == m);
                    }
                }
                if set@.contains(x) {
                    if before.contains(x) {
                        let j = choose|j: int| 0 <= j < prev.len() && #[trigger] linear_sources(prev[j]).contains(x);
                        assert(next[j] == prev[j]);
                        assert(linear_sources(next[j]).contains(x));
                    } else {
                        assert(next[i as int] == m);
                        assert(linear_sources(next[i as int]).contains(x));
                    }
                }
            }
            assert(set@ =~= spec_linear_textures(next));
        }
        i += 1;
    }
    proof {
        assert(materials@.take(materials@.len() as int) =~= materials@);
    }
    set
}

} // verus!
