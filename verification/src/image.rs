use vstd::prelude::*;
use std::collections::HashSet;
use crate::error::Error;

verus! {

/// Whether a texture holds colour (sRGB) or linear data.
#[derive(Debug, Clone, Copy, Hash, PartialEq, Eq, Structural)]
pub enum TexGamma {
    Linear,
    Srgb,
}

/// Pixel layout of decoded glTF image data.
#[derive(Debug, Clone, Copy, PartialEq, Eq, Structural)]
pub enum Format {
    R8,
    R8G8,
    R8G8B8,
    R8G8B8A8,
    R16,
    R16G16,
    R16G16B16,
    R16G16B16A16,
    R32G32B32FLOAT,
    R32G32B32A32FLOAT,
}

/// Decoded image data as the glTF importer hands it over.
#[derive(Debug, Clone)]
pub struct ImageData {
    pub pixels: Vec<u8>,
    pub format: Format,
    pub width: u32,
    pub height: u32,
}

/// Where a glTF image came from.
#[derive(Debug, Clone)]
pub enum ImageSource {
    /// Embedded in a buffer view.
    View,
    /// Referenced by URI.
    Uri(String),
}

/// The parts of a glTF image description that the loader reads.
#[derive(Debug, Clone)]
pub struct ImageInfo {
    pub index: usize,
    pub source: ImageSource,
}

/// An RGBA8 texture image.
#[derive(Debug, Clone)]
pub struct Image {
    pub pixels: Vec<u8>,
    pub width: u32,
    pub height: u32,
    pub source: Option<String>,
    pub index: usize,
    pub gamma: TexGamma,
}

/// Bytes per pixel of the 8-bit formats; the others are not supported.
pub open spec fn spec_pixel_size(format: Format) -> Option<nat> {
    match format {
        Format::R8 => Some(1),
        Format::R8G8 => Some(2),
        Format::R8G8B8 => Some(3),
        Format::R8G8B8A8 => Some(4),
        _ => None,
    }
}

/// The RGBA value of the pixel whose bytes start at `pos`: missing colour
/// channels are 0 and a missing alpha channel is 255.
pub open spec fn rgba_at(p: Seq<u8>, format: Format, pos: int) -> Seq<u8> {
    match format {
        Format::R8 => seq![p[pos], 0u8, 0u8, 255u8],
        Format::R8G8 => seq![p[pos], p[pos + 1], 0u8, 255u8],
        Format::R8G8B8 => seq![p[pos], p[pos + 1], p[pos + 2], 255u8],
        _ => seq![p[pos], p[pos + 1], p[pos + 2], p[pos + 3]],
    }
}

/// The RGBA bytes of the pixels from byte `pos` to the end.
pub open spec fn rgba_from(p: Seq<u8>, format: Format, size: nat, pos: int) -> Seq<u8>
    decreases p.len() - pos,
{
    if size == 0 || pos < 0 || pos + size > p.len() {
        Seq::empty()
    } else {
        rgba_at(p, format, pos) + rgba_from(p, format, size, pos + size)
    }
}

/// The RGBA8 expansion of 8-bit pixel data.
pub open spec fn spec_expand_rgba(p: Seq<u8>, format: Format) -> Seq<u8> {
    match spec_pixel_size(format) {
        Some(size) => rgba_from(p, format, size, 0),
        None => Seq::empty(),
    }
}

/// The message of the error for image formats with more than 8 bits a channel.
pub open spec fn unsupported_image_message() -> Seq<char> {
    "16 bytes images"@
}

/// Walks 8-bit pixel data one pixel at a time, yielding RGBA.
pub struct PixelIter<'a> {
    pixels: &'a [u8],
    format: Format,
    pixel_size: usize,
    position: usize,
}

impl<'a> PixelIter<'a> {
    pub closed spec fn pixels(&self) -> Seq<u8> {
        self.pixels@
    }

    pub closed spec fn format(&self) -> Format {
        self.format
    }

    pub closed spec fn position(&self) -> int {
        self.position as int
    }

    pub closed spec fn wf(&self) -> bool {
        &&& spec_pixel_size(self.format) == Some(self.pixel_size as nat)
        &&& self.position <= self.pixels@.len()
    }

    /// The pixel size of the rest of the data divides what is left.
    pub open spec fn aligned(&self) -> bool {
        (self.pixels().len() - self.position()) % (spec_pixel_size(self.format())->0 as int) == 0
    }

    /// Starts at the first pixel; only 8-bit-per-channel formats are handled.
    pub fn new(image: &'a ImageData) -> (res: Result<Self, Error>)
        ensures
            spec_pixel_size(image.format) is Some <==> res is Ok,
            res matches Ok(it) ==> it.wf() && it.pixels() == image.pixels@ && it.format() == image.format
                && it.position() == 0,
            res matches Err(e) ==> (e matches Error::Support(m) && m@ == unsupported_image_message()),
    {
        let pixel_size: usize = match image.format {
            Format::R8 => 1,
            Format::R8G8 => 2,
            Format::R8G8B8 => 3,
            Format::R8G8B8A8 => 4,
            _ => {
                let msg = String::from_str("16 bytes images");
                proof {
                    reveal_strlit("16 bytes images");
                }
                return Err(Error::Support(msg));
            },
        };
        Ok(PixelIter { pixels: image.pixels.as_slice(), format: image.format, pixel_size, position: 0 })
    }

    /// The next pixel as RGBA, or `None` at the end of the data.
    pub fn next(&mut self) -> (res: Option<[u8; 4]>)
        requires
            old(self).wf(),
            old(self).aligned(),
        ensures
            final(self).wf(),
            final(self).aligned(),
            final(self).pixels() == old(self).pixels(),
            final(self).format() == old(self).format(),
            old(self).position() == old(self).pixels().len() ==> res is None && final(self).position()
                == old(self).position(),
            old(self).position() < old(self).pixels().len() ==> (res matches Some(px) && px@ == rgba_at(
                old(self).pixels(),
                old(self).format(),
                old(self).position(),
            ) && final(self).position() == old(self).position() + spec_pixel_size(old(self).format())->0),
    {
        if self.position == self.pixels.len() {
            return None;
        }
        proof {
            let n = self.pixel_size as int;
            let rest = self.pixels@.len() - self.position;
            assert(rest > 0 && rest % n == 0);
            assert(rest >= n) by (nonlinear_arith)
                requires
                    rest > 0,
                    n > 0,
                    rest % n == 0,
            ;
            assert((rest - n) % n == 0) by (nonlinear_arith)
                requires
                    rest % n == 0,
                    n > 0,
                    rest >= n,
            ;
        }
        let p = self.position;
        let pixel = match self.format {
            Format::R8 => {
                let r = self.pixels[p];
                [r, 0, 0, u8::MAX]
            },
            Format::R8G8 => {
                let r = self.pixels[p];
                let g = self.pixels[p + 1];
                [r, g, 0, u8::MAX]
            },
            Format::R8G8B8 => {
                let r = self.pixels[p];
                let g = self.pixels[p + 1];
                let b = self.pixels[p + 2];
                [r, g, b, u8::MAX]
            },
            _ => {
                let r = self.pixels[p];
                let g = self.pixels[p + 1];
                let b = self.pixels[p + 2];
                let a = self.pixels[p + 3];
                [r, g, b, a]
            },
        };
        self.position += self.pixel_size;
        proof {
            assert(pixel@ =~= rgba_at(self.pixels@, self.format, p as int));
        }
        Some(pixel)
    }
}

/// Whether the `image` crate decodes `bytes` as an image file, the format
/// being chosen by the extension of `path`, and if so the decoded width and
/// height. (The decoded pixel values are not a function of the bytes alone:
/// the JPEG decoder picks a SIMD path by the CPU it runs on.)
pub uninterp spec fn spec_decoded_extent(bytes: Seq<u8>, path: Seq<char>) -> Option<(u32, u32)>;

/// Calls `image::ImageFormat::from_path` on `path` and
/// `image::load_from_memory_with_format` on `bytes`, then converts with
/// `DynamicImage::to_rgba8` and `ImageBuffer::into_raw`. Claimed: success and
/// the dimensions are `spec_decoded_extent`, and the RGBA8 buffer holds
/// exactly four bytes per pixel (as `ImageBuffer::new` allocates it). The
/// pixel values and the error text are left unsaid.
#[verifier::external_body]
fn decode_rgba8(bytes: &[u8], path: &str) -> (r: Result<(u32, u32, Vec<u8>), String>)
    ensures
        r is Ok <==> spec_decoded_extent(bytes@, path@) is Some,
        r matches Ok(t) ==> spec_decoded_extent(bytes@, path@) == Some((t.0, t.1))
            && t.2@.len() == 4 * t.0 * t.1,
{
    match image::ImageFormat::from_path(path) {
        Err(e) => Err(e.to_string()),
        Ok(format) => match image::load_from_memory_with_format(bytes, format) {
            Err(e) => Err(e.to_string()),
            Ok(img) => {
                let rgba = img.to_rgba8();
                Ok((rgba.width(), rgba.height(), rgba.into_raw()))
            },
        },
    }
}

impl Image {
    /// A single white-ish sRGB pixel, standing in at index 0 for "no texture".
    pub fn default() -> (img: Self)
        ensures
            img.pixels@ == seq![1u8, 1u8, 1u8, 1u8],
            img.width == 1,
            img.height == 1,
            img.source is None,
            img.index == 0,
            img.gamma == TexGamma::Srgb,
    {
        let pixels = vec![1u8; 4];
        proof {
            assert(pixels@ =~= seq![1u8, 1u8, 1u8, 1u8]);
        }
        Image { pixels, width: 1, height: 1, source: None, index: 0, gamma: TexGamma::Srgb }
    }

    /// Converts decoded glTF image data to RGBA8. Formats with more than
    /// 8 bits a channel are refused; the data must hold whole pixels.
    pub fn try_from(image: &ImageData) -> (res: Result<Image, Error>)
        requires
            spec_pixel_size(image.format) matches Some(n) ==> (image.pixels@.len() as int) % (n as int) == 0,
        ensures
            spec_pixel_size(image.format) is Some <==> res is Ok,
            res matches Ok(img) ==> {
                &&& img.pixels@ == spec_expand_rgba(image.pixels@, image.format)
                &&& img.pixels@.len() == 4 * ((image.pixels@.len() as int) / (spec_pixel_size(image.format)->0 as int))
                &&& img.width == image.width
                &&& img.height == image.height
                &&& img.source is None
                &&& img.index == 0
                &&& img.gamma == TexGamma::Srgb
            },
            res matches Err(e) ==> (e matches Error::Support(m) && m@ == unsupported_image_message()),
    {
        let mut iter = match PixelIter::new(image) {
            Ok(it) => it,
            Err(e) => return Err(e),
        };
        let ghost p = image.pixels@;
        let ghost f = image.format;
        let ghost size = spec_pixel_size(f)->0;
        let mut pixels: Vec<u8> = Vec::new();
        proof {
            lemma_rgba_from_len(p, f, size, 0);
        }
        loop
            invariant
                iter.wf(),
                iter.aligned(),
                iter.pixels() == p,
                iter.format() == f,
                size == spec_pixel_size(f)->0,
                size > 0,
                pixels@ + rgba_from(p, f, size, iter.position()) == rgba_from(p, f, size, 0),
            ensures
                pixels@ == rgba_from(p, f, size, 0),
            decreases p.len() - iter.position(),
        {
            let ghost pos = iter.position();
            match iter.next() {
                Some(px) => {
                    proof {
                        assert(rgba_from(p, f, size, pos) == rgba_at(p, f, pos) + rgba_from(p, f, size, pos + size));
                    }
                    let ghost before = pixels@;
                    pixels.push(px[0]);
                    pixels.push(px[1]);
                    pixels.push(px[2]);
                    pixels.push(px[3]);
                    proof {
                        assert(pixels@ =~= before + px@);
                        assert(pixels@ + rgba_from(p, f, size, pos + size) =~= before + (rgba_at(p, f, pos) + rgba_from(p, f, size, pos + size)));
                    }
                },
                None => {
                    proof {
                        assert(pos == p.len());
                        assert(rgba_from(p, f, size, pos) =~= Seq::<u8>::empty());
                        assert(pixels@ =~= rgba_from(p, f, size, 0));
                    }
                    break;
                },
            }
        }
        Ok(Image {
            pixels,
            width: image.width,
            height: image.height,
            source: None,
            index: 0,
            gamma: TexGamma::Srgb,
        })
    }

    /// Takes the glTF index (shifted by one past the default image) and the
    /// source URI, and marks the image linear when its glTF index is in
    /// `linear`, the set of images that materials sample as linear data.
    pub fn update_info(&mut self, info: &ImageInfo, linear: &HashSet<usize>)
        requires
            info.index < usize::MAX,
        ensures
            final(self).index == info.index + 1,
            final(self).gamma == if linear@.contains(info.index) {
                TexGamma::Linear
            } else {
                old(self).gamma
            },
            final(self).source == match info.source {
                ImageSource::View => None::<String>,
                ImageSource::Uri(uri) => Some(uri),
            },
            final(self).pixels == old(self).pixels,
            final(self).width == old(self).width,
            final(self).height == old(self).height,
    {
        self.index = info.index + 1;
        if linear.contains(&info.index) {
            self.gamma = TexGamma::Linear;
        }
        self.source = match &info.source {
            ImageSource::View => None,
            ImageSource::Uri(uri) => Some(uri.clone()),
        };
    }

    /// An sRGB image read from a file, from its decoded RGBA8 pixels.
    pub fn from_rgba8(width: u32, height: u32, pixels: Vec<u8>, source: Option<String>) -> (img: Self)
        ensures
            img.width == width,
            img.height == height,
            img.pixels@ == pixels@,
            img.source == source,
            img.index == 0,
            img.gamma == TexGamma::Srgb,
    {
        Image { pixels, width, height, source, index: 0, gamma: TexGamma::Srgb }
    }

    /// Decodes the bytes of the image file at `path` to RGBA8, choosing the
    /// format by the path's extension; the image remembers `path` as its
    /// source. Fails with `Error::Load` where the extension names no
    /// supported format or the bytes do not decode.
    pub fn load_image(bytes: &[u8], path: &str) -> (r: Result<Image, Error>)
        ensures
            r is Ok <==> spec_decoded_extent(bytes@, path@) is Some,
            r matches Ok(img) ==> {
                &&& spec_decoded_extent(bytes@, path@) == Some((img.width, img.height))
                &&& img.pixels@.len() == 4 * img.width * img.height
                &&& img.source matches Some(s) && s@ == path@
                &&& img.index == 0
                &&& img.gamma == TexGamma::Srgb
            },
            r matches Err(e) ==> e is Load,
    {
        match decode_rgba8(bytes, path) {
            Ok((width, height, pixels)) => Ok(Image::from_rgba8(width, height, pixels, Some(path.to_owned()))),
            Err(msg) => Err(Error::Load(msg)),
        }
    }
}

proof fn lemma_rgba_from_len(p: Seq<u8>, f: Format, size: nat, pos: int)
    requires
        spec_pixel_size(f) == Some(size),
        0 <= pos <= p.len(),
        (p.len() - pos) % (size as int) == 0,
    ensures
        rgba_from(p, f, size, pos).len() == 4 * ((p.len() - pos) / (size as int)),
    decreases p.len() - pos,
{
    let rest = p.len() - pos;
    if pos + size > p.len() {
        assert(rest < size);
        assert(rest == 0) by (nonlinear_arith)
            requires
                0 <= rest < size,
                rest % (size as int) == 0,
        ;
        assert(rest == 0);
        assert(0int / (size as int) == 0);
    } else {
        assert(rest >= size && (rest - size) % (size as int) == 0 && (rest - size) / (size as int) == rest / (size as int) - 1)
            by (nonlinear_arith)
            requires
                rest > 0,
                size > 0,
                rest % (size as int) == 0,
        ;
        lemma_rgba_from_len(p, f, size, pos + size);
    }
}

/// `img` is `data` converted to RGBA8 and described by `info`, as the image
/// table of a document holds it.
pub open spec fn processed_image(img: Image, data: ImageData, info: ImageInfo, linear: Set<usize>) -> bool {
    &&& img.pixels@ == spec_expand_rgba(data.pixels@, data.format)
    &&& img.width == data.width
    &&& img.height == data.height
    &&& img.index == info.index + 1
    &&& img.gamma == if linear.contains(info.index) {
        TexGamma::Linear
    } else {
        TexGamma::Srgb
    }
    &&& img.source == match info.source {
        ImageSource::View => None::<String>,
        ImageSource::Uri(uri) => Some(uri),
    }
}

/// The image `data` converts without error.
pub open spec fn convertible(data: ImageData) -> bool {
    spec_pixel_size(data.format) matches Some(n) && (data.pixels@.len() as int) % (n as int) == 0
}

/// Builds the image table of a document: the default image at index 0, then
/// every glTF image converted to RGBA8 at its glTF index plus one. Every image
/// must be 8-bit (the loader unwraps the conversion) and the descriptions must
/// come in index order (the loader asserts that entry `i` has index `i`).
pub fn process_images(gltf_images: &[ImageData], infos: &[ImageInfo], linear: &HashSet<usize>) -> (images: Vec<Image>)
    requires
        gltf_images@.len() == infos@.len(),
        forall|i: int| 0 <= i < gltf_images@.len() ==> convertible(#[trigger] gltf_images@[i]),
        forall|i: int| 0 <= i < infos@.len() ==> (#[trigger] infos@[i]).index == i,
    ensures
        images@.len() == gltf_images@.len() + 1,
        images@[0].pixels@ == seq![1u8, 1u8, 1u8, 1u8],
        images@[0].width == 1 && images@[0].height == 1,
        images@[0].source is None && images@[0].index == 0 && images@[0].gamma == TexGamma::Srgb,
        forall|i: int| 0 <= i < gltf_images@.len() ==> processed_image(
            #[trigger] images@[i + 1],
            gltf_images@[i],
            infos@[i],
            linear@,
        ),
        forall|i: int| 0 <= i < images@.len() ==> (#[trigger] images@[i]).index == i,
{
    let mut images: Vec<Image> = Vec::new();
    images.push(Image::default());
    let n = gltf_images.len();
    let mut i: usize = 0;
    while i < n
        invariant
            n == gltf_images@.len(),
            n == infos@.len(),
            i <= n,
            forall|k: int| 0 <= k < gltf_images@.len() ==> convertible(#[trigger] gltf_images@[k]),
            forall|k: int| 0 <= k < infos@.len() ==> (#[trigger] infos@[k]).index == k,
            images@.len() == i + 1,
            images@[0].pixels@ == seq![1u8, 1u8, 1u8, 1u8],
            images@[0].width == 1 && images@[0].height == 1,
            images@[0].source is None && images@[0].index == 0 && images@[0].gamma == TexGamma::Srgb,
            forall|k: int| 0 <= k < i ==> processed_image(
                #[trigger] images@[k + 1],
                gltf_images@[k],
                infos@[k],
                linear@,
            ),
            forall|k: int| 0 <= k < images@.len() ==> (#[trigger] images@[k]).index == k,
        decreases n - i,
    {
        let data = &gltf_images[i];
        let info = &infos[i];
        proof {
            assert(convertible(gltf_images@[i as int]));
            assert(infos@[i as int].index == i);
        }
        let mut img = match Image::try_from(data) {
            Ok(img) => img,
            Err(_) => {
                proof {
                    assert(false);
                }
                return images;
            },
        };
        img.update_info(info, linear);
        images.push(img);
        i += 1;
        proof {
            assert(processed_image(images@[i as int], gltf_images@[i - 1], infos@[i - 1], linear@));
        }
    }
    images
}

} // verus!
