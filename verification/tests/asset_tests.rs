use std::collections::HashSet;

use rustracer::error::Error;
use rustracer::extensions::{check_extensions, unsupported_extensions};
use rustracer::gltf_model;
use rustracer::image::{process_images, Format, Image, ImageData, ImageInfo, ImageSource, PixelIter, TexGamma};
use rustracer::material::{
    find_linear_textures, AlphaMode, Material, MaterialImageSources, MaterialType, TextureInfo, TextureRef, Workflow,
};
use rustracer::texture::{map_gltf_sampler, texture_table, Filter, MagFilter, MinFilter, Sampler, Texture, WrapMode};
use rustracer::types::a3toa4;
use rustracer::gltf_model::{PrimitiveMode, PrimitiveShape};

fn data(pixels: Vec<u8>, format: Format, width: u32, height: u32) -> ImageData {
    ImageData { pixels, format, width, height }
}

#[test]
fn rgb_pixels_gain_an_opaque_alpha() {
    let img = Image::try_from(&data(vec![10, 20, 30, 40, 50, 60], Format::R8G8B8, 2, 1)).unwrap();
    assert_eq!(img.pixels, vec![10, 20, 30, 255, 40, 50, 60, 255]);
    assert_eq!((img.width, img.height), (2, 1));
    assert_eq!(img.source, None);
    assert_eq!(img.index, 0);
    assert_eq!(img.gamma, TexGamma::Srgb);
}

#[test]
fn narrow_formats_fill_missing_channels() {
    let r = Image::try_from(&data(vec![7, 8], Format::R8, 2, 1)).unwrap();
    assert_eq!(r.pixels, vec![7, 0, 0, 255, 8, 0, 0, 255]);
    let rg = Image::try_from(&data(vec![1, 2], Format::R8G8, 1, 1)).unwrap();
    assert_eq!(rg.pixels, vec![1, 2, 0, 255]);
    let rgba = Image::try_from(&data(vec![1, 2, 3, 4], Format::R8G8B8A8, 1, 1)).unwrap();
    assert_eq!(rgba.pixels, vec![1, 2, 3, 4]);
    let empty = Image::try_from(&data(vec![], Format::R8G8B8A8, 0, 0)).unwrap();
    assert!(empty.pixels.is_empty());
}

#[test]
fn sixteen_bit_images_are_refused() {
    for format in [Format::R16, Format::R16G16, Format::R16G16B16, Format::R16G16B16A16, Format::R32G32B32FLOAT] {
        match Image::try_from(&data(vec![0, 0, 0, 0, 0, 0, 0, 0], format, 1, 1)) {
            Err(Error::Support(m)) => assert_eq!(m, "16 bytes images"),
            other => panic!("unexpected {:?}", other.map(|i| i.pixels)),
        }
    }
}

#[test]
fn pixel_iter_walks_whole_pixels() {
    let d = data(vec![1, 2, 3, 4, 5, 6], Format::R8G8B8, 2, 1);
    let mut it = PixelIter::new(&d).unwrap();
    assert_eq!(it.next(), Some([1, 2, 3, 255]));
    assert_eq!(it.next(), Some([4, 5, 6, 255]));
    assert_eq!(it.next(), None);
    assert_eq!(it.next(), None);
    assert!(PixelIter::new(&data(vec![], Format::R16, 0, 0)).is_err());
}

#[test]
fn default_image_is_one_srgb_pixel() {
    let img = Image::default();
    assert_eq!(img.pixels, vec![1, 1, 1, 1]);
    assert_eq!((img.width, img.height, img.index), (1, 1, 0));
    assert_eq!(img.gamma, TexGamma::Srgb);
}

#[test]
fn image_info_shifts_index_and_tests_the_gltf_index() {
    let mut img = Image::default();
    let linear: HashSet<usize> = [2usize].into_iter().collect();
    img.update_info(&ImageInfo { index: 2, source: ImageSource::Uri("tex.png".to_string()) }, &linear);
    assert_eq!(img.index, 3);
    assert_eq!(img.gamma, TexGamma::Linear);
    assert_eq!(img.source, Some("tex.png".to_string()));
    let mut other = Image::default();
    other.update_info(&ImageInfo { index: 3, source: ImageSource::View }, &linear);
    assert_eq!(other.index, 4);
    assert_eq!(other.gamma, TexGamma::Srgb);
    assert_eq!(other.source, None);
}

#[test]
fn image_table_starts_with_the_default_image() {
    let gltf_images = vec![data(vec![9, 9, 9], Format::R8G8B8, 1, 1), data(vec![5, 6], Format::R8G8, 1, 1)];
    let infos = vec![
        ImageInfo { index: 0, source: ImageSource::View },
        ImageInfo { index: 1, source: ImageSource::Uri("n.png".to_string()) },
    ];
    let linear: HashSet<usize> = [1usize].into_iter().collect();
    let images = process_images(&gltf_images, &infos, &linear);
    assert_eq!(images.len(), 3);
    assert_eq!(images[0].pixels, vec![1, 1, 1, 1]);
    assert_eq!(images[1].pixels, vec![9, 9, 9, 255]);
    assert_eq!(images[1].gamma, TexGamma::Srgb);
    assert_eq!(images[2].pixels, vec![5, 6, 0, 255]);
    assert_eq!(images[2].gamma, TexGamma::Linear);
    assert_eq!(images[2].source, Some("n.png".to_string()));
    for (i, img) in images.iter().enumerate() {
        assert_eq!(img.index, i);
    }
}

#[test]
fn textures_reference_sampler_slots() {
    let t = Texture::new(4, 2, Some(0), Some("albedo".to_string()));
    assert_eq!((t.texture_index, t.image_index, t.sampler_index), (4, 2, 1));
    assert_eq!(t.name, Some("albedo".to_string()));
    let d = Texture::new(5, 3, None, None);
    assert_eq!(d.sampler_index, 0);
    let table = texture_table(&[t, d]);
    assert_eq!(table, vec![[4, 2, 1], [5, 3, 0]]);
}

#[test]
fn samplers_default_to_linear() {
    let d = Sampler::default();
    assert_eq!((d.mag_filter, d.min_filter, d.wrap_s, d.wrap_t, d.index), (
        MagFilter::Linear,
        MinFilter::LinearMipmapLinear,
        WrapMode::Repeat,
        WrapMode::Repeat,
        0,
    ));
    let s = Sampler::new(None, None, WrapMode::ClampToEdge, WrapMode::MirroredRepeat, Some(2));
    assert_eq!((s.mag_filter, s.min_filter, s.index), (MagFilter::Linear, MinFilter::Linear, 3));
    assert_eq!((s.wrap_s, s.wrap_t), (WrapMode::ClampToEdge, WrapMode::MirroredRepeat));
    let n = Sampler::new(Some(MagFilter::Nearest), Some(MinFilter::NearestMipmapLinear), WrapMode::Repeat, WrapMode::Repeat, None);
    assert_eq!((n.mag_filter, n.min_filter, n.index), (MagFilter::Nearest, MinFilter::NearestMipmapLinear, 0));
}

#[test]
fn sampler_filters_map_to_vulkan() {
    let mut s = Sampler::default();
    let d = map_gltf_sampler(&s);
    assert_eq!((d.mag_filter, d.min_filter), (Filter::Linear, Filter::Linear));
    assert_eq!((d.address_mode_u, d.address_mode_v), (WrapMode::Repeat, WrapMode::Repeat));
    s.mag_filter = MagFilter::Nearest;
    s.min_filter = MinFilter::NearestMipmapLinear;
    s.wrap_s = WrapMode::ClampToEdge;
    let d = map_gltf_sampler(&s);
    assert_eq!((d.mag_filter, d.min_filter), (Filter::Nearest, Filter::Nearest));
    assert_eq!(d.address_mode_u, WrapMode::ClampToEdge);
    for (f, expected) in [
        (MinFilter::Nearest, Filter::Nearest),
        (MinFilter::Linear, Filter::Linear),
        (MinFilter::NearestMipmapNearest, Filter::Nearest),
        (MinFilter::LinearMipmapNearest, Filter::Linear),
        (MinFilter::LinearMipmapLinear, Filter::Linear),
    ] {
        s.min_filter = f;
        assert_eq!(map_gltf_sampler(&s).min_filter, expected);
    }
}

#[test]
fn texture_slots_shift_past_the_dummy_texture() {
    let t = TextureInfo::new(Some(TextureRef { texture_index: 2, tex_coord: 1 }));
    assert_eq!((t.texture_index, t.tex_coord), (3, 1));
    let none = TextureInfo::new(None);
    assert_eq!((none.texture_index, none.tex_coord), (-1, -1));
    assert!(none.is_none());
    assert!(!t.is_none());
    let n = TextureInfo::new_normal(Some(TextureRef { texture_index: 0, tex_coord: 0 }));
    assert_eq!(n.texture_index, 1);
    let o = TextureInfo::new_occ(Some(TextureRef { texture_index: 7, tex_coord: 2 }));
    assert_eq!((o.texture_index, o.tex_coord), (8, 2));
    let u = TextureInfo::new_unshifted(Some(TextureRef { texture_index: 7, tex_coord: 2 }));
    assert_eq!((u.texture_index, u.tex_coord), (7, 2));
    let d = TextureInfo::default();
    assert_eq!((d.texture_index, d.tex_coord), (-1, -1));
}

pub fn material(alpha_mode: AlphaMode, normal: Option<usize>) -> Material {
    Material {
        name: None,
        index: 0,
        unlit: false,
        alpha_mode,
        double_sided: false,
        base_color_texture: TextureInfo::default(),
        metallic_roughness_texture: TextureInfo::default(),
        normal_texture: TextureInfo::new(normal.map(|i| TextureRef { texture_index: i, tex_coord: 0 })),
        emissive_texture: TextureInfo::default(),
        occlusion_texture: TextureInfo::default(),
        material_type: MaterialType::MetallicRoughness,
        has_specular_glossiness: false,
    }
}

#[test]
fn material_codes() {
    let mut m = material(AlphaMode::Mask, Some(0));
    assert!(m.has_normal_texture());
    assert!(!m.is_opaque());
    assert_eq!(m.workflow(), Workflow::MetallicRoughness);
    let c = m.raw_codes();
    assert_eq!((c.alpha_mode, c.double_sided, c.workflow, c.unlit), (2, 0, 0, 0));
    m.alpha_mode = AlphaMode::Blend;
    m.double_sided = true;
    m.unlit = true;
    m.has_specular_glossiness = true;
    assert_eq!(m.workflow(), Workflow::SpecularGlossiness);
    let c = m.raw_codes();
    assert_eq!((c.alpha_mode, c.double_sided, c.workflow, c.unlit), (3, 1, 1, 1));
    let o = material(AlphaMode::Opaque, None);
    assert!(o.is_opaque());
    assert!(!o.has_normal_texture());
    assert_eq!(o.raw_codes().alpha_mode, 1);
}

#[test]
fn linear_textures_are_the_non_colour_images() {
    let none = MaterialImageSources {
        normal: None,
        metallic_roughness: None,
        transmission: None,
        specular: None,
        occlusion: None,
        thickness: None,
    };
    let ms = [
        MaterialImageSources { normal: Some(1), metallic_roughness: Some(2), ..none },
        MaterialImageSources { metallic_roughness: Some(2), transmission: Some(5), specular: Some(6), ..none },
        MaterialImageSources { occlusion: Some(7), thickness: Some(8), ..none },
        none,
    ];
    let set = find_linear_textures(&ms);
    let expected: HashSet<usize> = [1usize, 2, 5, 6, 7, 8].into_iter().collect();
    assert_eq!(set, expected);
    assert!(find_linear_textures(&[]).is_empty());
}

#[test]
fn occlusion_only_images_are_linear() {
    let m = MaterialImageSources {
        normal: None,
        metallic_roughness: None,
        transmission: None,
        specular: None,
        occlusion: Some(3),
        thickness: None,
    };
    assert!(find_linear_textures(&[m]).contains(&3));
}

fn names(v: &[&str]) -> Vec<String> {
    v.iter().map(|s| s.to_string()).collect()
}

#[test]
fn loader_reports_unsupported_extensions_only() {
    let used = names(&[
        "KHR_materials_ior",
        "KHR_materials_transmission",
        "KHR_texture_transform",
        "KHR_materials_variants",
        "KHR_materials_volume",
        "KHR_materials_pbrSpecularGlossiness",
        "KHR_materials_unlit",
        "KHR_lights_punctual",
        "KHR_materials_specular",
    ]);
    let expected = names(&["KHR_texture_transform", "KHR_materials_pbrSpecularGlossiness", "KHR_materials_specular"]);
    assert_eq!(check_extensions(&used), expected);
    assert!(check_extensions(&names(&["KHR_materials_transmission"])).is_empty());
    assert!(check_extensions(&[]).is_empty());
}

#[test]
fn plain_loader_supports_ior_only() {
    let used = names(&[
        "KHR_materials_ior",
        "KHR_materials_transmission",
        "KHR_texture_transform",
        "KHR_materials_variants",
        "KHR_materials_volume",
        "KHR_materials_unlit",
        "KHR_lights_punctual",
    ]);
    let expected = names(&[
        "KHR_materials_transmission",
        "KHR_texture_transform",
        "KHR_materials_variants",
        "KHR_materials_volume",
        "KHR_materials_unlit",
        "KHR_lights_punctual",
    ]);
    assert_eq!(gltf_model::check_extensions(&used), expected);
    assert_eq!(
        gltf_model::check_extensions(&names(&["KHR_materials_transmission"])),
        names(&["KHR_materials_transmission"])
    );
    assert!(gltf_model::check_extensions(&names(&["KHR_materials_ior"])).is_empty());
}

#[test]
fn unsupported_extensions_keep_their_order() {
    let supported = names(&["a", "b"]);
    assert_eq!(unsupported_extensions(&names(&["b", "c", "a", "d"]), &supported), names(&["c", "d"]));
}

#[test]
fn plain_model_textures_and_samplers() {
    let t = gltf_model::Texture::new(3, Some(4));
    assert_eq!((t.image_index, t.sampler_index), (3, 5));
    assert_eq!(gltf_model::Texture::new(3, None).sampler_index, 0);
    let d = gltf_model::Sampler::default();
    assert_eq!((d.mag_filter, d.min_filter), (MagFilter::Linear, MinFilter::LinearMipmapLinear));
    let s = gltf_model::Sampler::new(None, Some(MinFilter::Nearest), WrapMode::Repeat, WrapMode::ClampToEdge);
    assert_eq!((s.mag_filter, s.min_filter, s.wrap_t), (MagFilter::Linear, MinFilter::Nearest, WrapMode::ClampToEdge));
}

#[test]
fn names_are_shared_strings() {
    let n = gltf_model::get_name(Some("Cube"));
    assert_eq!(n.as_deref().map(|s| s.as_str()), Some("Cube"));
    assert!(gltf_model::get_name(None).is_none());
}

#[test]
fn plain_model_needs_indices_positions_and_normals() {
    let full = PrimitiveShape { has_indices: true, has_positions: true, has_normals: true, mode: PrimitiveMode::Lines };
    assert!(gltf_model::is_primitive_supported(&full));
    assert!(!gltf_model::is_primitive_supported(&PrimitiveShape { has_normals: false, ..full }));
    assert!(!gltf_model::is_primitive_supported(&PrimitiveShape { has_indices: false, ..full }));
}

#[test]
fn a3_extends_to_a4() {
    assert_eq!(a3toa4(&[1.0f32, 2.0, 3.0], 0.0), [1.0, 2.0, 3.0, 0.0]);
    assert_eq!(a3toa4(&[1u32, 2, 3, 4], 9), [1, 2, 3, 9]);
}

fn png_bytes(img: image::DynamicImage) -> Vec<u8> {
    let mut out = std::io::Cursor::new(Vec::new());
    img.write_to(&mut out, image::ImageOutputFormat::Png).unwrap();
    out.into_inner()
}

#[test]
fn load_image_decodes_png_to_rgba8() {
    let src = image::RgbaImage::from_raw(2, 1, vec![10, 20, 30, 40, 50, 60, 70, 80]).unwrap();
    let img = Image::load_image(&png_bytes(image::DynamicImage::ImageRgba8(src)), "faces/posx.png").unwrap();
    assert_eq!((img.width, img.height), (2, 1));
    assert_eq!(img.pixels, vec![10, 20, 30, 40, 50, 60, 70, 80]);
    assert_eq!(img.source.as_deref(), Some("faces/posx.png"));
    assert_eq!(img.index, 0);
    assert_eq!(img.gamma, TexGamma::Srgb);
}

#[test]
fn load_image_expands_grey_to_rgba() {
    let src = image::GrayImage::from_raw(1, 2, vec![7, 200]).unwrap();
    let img = Image::load_image(&png_bytes(image::DynamicImage::ImageLuma8(src)), "grey.PNG").unwrap();
    assert_eq!((img.width, img.height), (1, 2));
    assert_eq!(img.pixels, vec![7, 7, 7, 255, 200, 200, 200, 255]);
}

#[test]
fn load_image_refuses_unknown_extension_and_bad_bytes() {
    let src = image::RgbaImage::from_raw(1, 1, vec![1, 2, 3, 4]).unwrap();
    let bytes = png_bytes(image::DynamicImage::ImageRgba8(src));
    assert!(matches!(Image::load_image(&bytes, "face.txt"), Err(Error::Load(_))));
    assert!(matches!(Image::load_image(&bytes, "face"), Err(Error::Load(_))));
    assert!(matches!(Image::load_image(&[1, 2, 3], "face.png"), Err(Error::Load(_))));
}

#[test]
fn image_from_rgba8_keeps_its_parts() {
    let img = Image::from_rgba8(1, 1, vec![9, 8, 7, 6], Some("a.jpg".to_string()));
    assert_eq!(img.pixels, vec![9, 8, 7, 6]);
    assert_eq!((img.width, img.height, img.index, img.gamma), (1, 1, 0, TexGamma::Srgb));
    assert_eq!(img.source.as_deref(), Some("a.jpg"));
}
