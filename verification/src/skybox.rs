use vstd::prelude::*;
use crate::image::{Image, TexGamma};
use crate::texture::Sampler;
use crate::order::{buckets_below, stable_order_by_key};

verus! {

/// A cube-map face, in the order Vulkan lays out cube-map layers.
#[derive(Debug, Clone, Copy, PartialEq, Eq, Structural)]
#[allow(non_camel_case_types)]
pub enum Face {
    posx,
    negx,
    posy,
    negy,
    posz,
    negz,
}

/// Position of the first `'.'` in `s` at or after `i`, or `s.len()`.
pub open spec fn dot_pos(s: Seq<char>, i: int) -> int
    decreases s.len() - i,
{
    if i < 0 || i >= s.len() {
        s.len() as int
    } else if s[i] == '.' {
        i
    } else {
        dot_pos(s, i + 1)
    }
}

/// A file name without everything from its first `'.'` on.
pub open spec fn file_stem(s: Seq<char>) -> Seq<char> {
    s.take(dot_pos(s, 0))
}

/// The layer of a face named by its own name (`posx` ... `negz`) or by a
/// direction word (`right`, `left`, `top`, `bottom`, `front`, `back`).
pub open spec fn spec_face_index(stem: Seq<char>) -> Option<usize> {
    if stem == "posx"@ {
        Some(0)
    } else if stem == "negx"@ {
        Some(1)
    } else if stem == "posy"@ {
        Some(2)
    } else if stem == "negy"@ {
        Some(3)
    } else if stem == "posz"@ {
        Some(4)
    } else if stem == "negz"@ {
        Some(5)
    } else if stem == "back"@ {
        Some(5)
    } else if stem == "front"@ {
        Some(4)
    } else if stem == "top"@ {
        Some(2)
    } else if stem == "bottom"@ {
        Some(3)
    } else if stem == "left"@ {
        Some(1)
    } else if stem == "right"@ {
        Some(0)
    } else {
        None
    }
}

/// The first `k` characters of `name` spell `lit`.
fn prefix_is(name: &str, n: usize, k: usize, lit: &str) -> (b: bool)
    requires
        n == name@.len(),
        k <= n,
    ensures
        b == (name@.take(k as int) == lit@),
{
    let m = lit.unicode_len();
    if m != k {
        proof {
            assert(name@.take(k as int).len() != lit@.len());
        }
        return false;
    }
    let mut i: usize = 0;
    while i < k
        invariant
            n == name@.len(),
            k <= n,
            m == k,
            m == lit@.len(),
            i <= k,
            forall|j: int| 0 <= j < i ==> name@[j] == lit@[j],
        decreases k - i,
    {
        if name.get_char(i) != lit.get_char(i) {
            proof {
                assert(name@.take(k as int)[i as int] != lit@[i as int]);
            }
            return false;
        }
        i += 1;
    }
    proof {
        assert(name@.take(k as int) =~= lit@);
    }
    true
}

impl Face {
    /// The cube-map layer of a face image, from its file name: the part
    /// before the first `'.'` names the face. Any other name is refused
    /// (the loader stops on it).
    pub fn get_index(name: &str) -> (i: usize)
        requires
            spec_face_index(file_stem(name@)) is Some,
        ensures
            i == spec_face_index(file_stem(name@))->0,
    {
        match face_index(name) {
            Some(i) => i,
            None => 0,
        }
    }
}

/// The cube-map layer a file name names, if it names a face.
pub fn face_index(name: &str) -> (r: Option<usize>)
    ensures
        r == spec_face_index(file_stem(name@)),
{
    let n = name.unicode_len();
    let mut k: usize = 0;
    while k < n && name.get_char(k) != '.'
        invariant
            n == name@.len(),
            k <= n,
            forall|j: int| 0 <= j < k ==> name@[j] != '.',
            dot_pos(name@, 0) == dot_pos(name@, k as int),
        decreases n - k,
    {
        k += 1;
    }
    proof {
        assert(dot_pos(name@, k as int) == k);
    }
    if prefix_is(name, n, k, "posx") {
        Some(0)
    } else if prefix_is(name, n, k, "negx") {
        Some(1)
    } else if prefix_is(name, n, k, "posy") {
        Some(2)
    } else if prefix_is(name, n, k, "negy") {
        Some(3)
    } else if prefix_is(name, n, k, "posz") {
        Some(4)
    } else if prefix_is(name, n, k, "negz") {
        Some(5)
    } else if prefix_is(name, n, k, "back") {
        Some(5)
    } else if prefix_is(name, n, k, "front") {
        Some(4)
    } else if prefix_is(name, n, k, "top") {
        Some(2)
    } else if prefix_is(name, n, k, "bottom") {
        Some(3)
    } else if prefix_is(name, n, k, "left") {
        Some(1)
    } else if prefix_is(name, n, k, "right") {
        Some(0)
    } else {
        None
    }
}

/// The six faces of a sky box, their sampler and all their pixels back to back.
pub struct SkyBox {
    pub images: Vec<Image>,
    pub sampler: Sampler,
    pub collector: Vec<u8>,
}

/// Total number of pixel bytes of `images`.
pub open spec fn total_pixel_bytes(images: Seq<Image>) -> nat
    decreases images.len(),
{
    if images.len() == 0 {
        0
    } else {
        total_pixel_bytes(images.drop_last()) + images.last().pixels@.len()
    }
}

/// The pixel bytes of `images`, image after image.
pub open spec fn concat_pixels(images: Seq<Image>) -> Seq<u8>
    decreases images.len(),
{
    if images.len() == 0 {
        Seq::empty()
    } else {
        concat_pixels(images.drop_last()) + images.last().pixels@
    }
}

impl SkyBox {
    /// Total size of the face images in bytes.
    pub fn get_total_size(&self) -> (n: usize)
        requires
            total_pixel_bytes(self.images@) <= usize::MAX,
        ensures
            n == total_pixel_bytes(self.images@),
    {
        let mut total: usize = 0;
        let mut i: usize = 0;
        while i < self.images.len()
            invariant
                i <= self.images@.len(),
                total == total_pixel_bytes(self.images@.take(i as int)),
                total_pixel_bytes(self.images@) <= usize::MAX,
            decreases self.images@.len() - i,
        {
            proof {
                assert(self.images@.take(i + 1).drop_last() =~= self.images@.take(i as int));
                lemma_total_prefix(self.images@, i + 1);
            }
            total = total + self.images[i].pixels.len();
            i += 1;
        }
        proof {
            assert(self.images@.take(i as int) =~= self.images@);
        }
        total
    }

    /// Width of the first face and height of the second.
    pub fn get_extents(&self) -> (e: [u32; 2])
        requires
            self.images@.len() >= 2,
        ensures
            e@ == seq![self.images@[0].width, self.images@[1].height],
    {
        let e = [self.images[0].width, self.images[1].height];
        proof {
            assert(e@ =~= seq![self.images@[0].width, self.images@[1].height]);
        }
        e
    }

    /// The gamma of the first face.
    pub fn get_gamma(&self) -> (g: TexGamma)
        requires
            self.images@.len() >= 1,
        ensures
            g == self.images@[0].gamma,
    {
        self.images[0].gamma
    }

    /// All face pixels, face after face, for one upload.
    pub fn collect_pixels(images: &[Image]) -> (v: Vec<u8>)
        ensures
            v@ == concat_pixels(images@),
    {
        let mut v: Vec<u8> = Vec::new();
        let mut i: usize = 0;
        while i < images.len()
            invariant
                i <= images@.len(),
                v@ == concat_pixels(images@.take(i as int)),
            decreases images@.len() - i,
        {
            let ghost before = v@;
            let p = &images[i].pixels;
            let mut j: usize = 0;
            while j < p.len()
                invariant
                    j <= p@.len(),
                    v@ == before + p@.take(j as int),
                decreases p@.len() - j,
            {
                v.push(p[j]);
                j += 1;
                proof {
                    assert(v@ =~= before + p@.take(j as int));
                }
            }
            proof {
                assert(images@.take(i + 1).drop_last() =~= images@.take(i as int));
                assert(p@.take(j as int) =~= p@);
            }
            i += 1;
        }
        proof {
            assert(images@.take(i as int) =~= images@);
        }
        v
    }

    /// The order in which to load the face images: sorted by face layer,
    /// keeping the listing order among names of the same face.
    pub fn face_order(names: &[String]) -> (order: Vec<usize>)
        requires
            forall|i: int| 0 <= i < names@.len() ==> spec_face_index(file_stem((#[trigger] names@[i])@)) is Some,
        ensures
            order@ == buckets_below(
                Seq::new(names@.len(), |i: int| spec_face_index(file_stem(names@[i]@))->0),
                6,
            ),
    {
        let ghost keys_spec = Seq::new(names@.len(), |i: int| spec_face_index(file_stem(names@[i]@))->0);
        let mut keys: Vec<usize> = Vec::new();
        let mut i: usize = 0;
        while i < names.len()
            invariant
                i <= names@.len(),
                forall|k: int| 0 <= k < names@.len() ==> spec_face_index(file_stem((#[trigger] names@[k])@)) is Some,
                keys@ == keys_spec.take(i as int),
                keys_spec.len() == names@.len(),
                forall|k: int| 0 <= k < names@.len() ==> #[trigger] keys_spec[k] == spec_face_index(file_stem(names@[k]@))->0,
            decreases names@.len() - i,
        {
            let key = Face::get_index(names[i].as_str());
            keys.push(key);
            i += 1;
            proof {
                assert(keys@ =~= keys_spec.take(i as int));
            }
        }
        proof {
            assert(keys@ =~= keys_spec);
        }
        let order = stable_order_by_key(&keys, 6);
        order
    }
}

proof fn lemma_total_prefix(images: Seq<Image>, i: int)
    requires
        0 <= i <= images.len(),
    ensures
        total_pixel_bytes(images.take(i)) <= total_pixel_bytes(images),
    decreases images.len() - i,
{
    if i < images.len() {
        lemma_total_prefix(images, i + 1);
        assert(images.take(i + 1).drop_last() =~= images.take(i));
    } else {
        assert(images.take(i) =~= images);
    }
}

} // verus!
