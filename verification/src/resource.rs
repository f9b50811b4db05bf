use vstd::prelude::*;

verus! {

/// `suffix` ends `name`.
pub open spec fn ends_with(name: Seq<char>, suffix: Seq<char>) -> bool {
    suffix.len() <= name.len() && name.subrange(name.len() - suffix.len(), name.len() as int) == suffix
}

/// Whether `name` ends with `suffix`.
pub fn has_suffix(name: &str, suffix: &str) -> (b: bool)
    ensures
        b == ends_with(name@, suffix@),
{
    let n = name.unicode_len();
    let m = suffix.unicode_len();
    if m > n {
        return false;
    }
    let mut i: usize = 0;
    while i < m
        invariant
            n == name@.len(),
            m == suffix@.len(),
            m <= n,
            i <= m,
            forall|k: int| 0 <= k < i ==> name@[n - m + k] == suffix@[k],
        decreases m - i,
    {
        if name.get_char(n - m + i) != suffix.get_char(i) {
            proof {
                assert(name@.subrange(n - m, n as int)[i as int] != suffix@[i as int]);
            }
            return false;
        }
        i += 1;
    }
    proof {
        assert(name@.subrange(n - m, n as int) =~= suffix@);
    }
    true
}

/// The name is a glTF file (`.gltf` or `.glb`).
pub open spec fn is_gltf_name(name: Seq<char>) -> bool {
    ends_with(name, ".gltf"@) || ends_with(name, ".glb"@)
}

/// The name is a sky-box face image (`.png` or `.jpg`).
pub open spec fn is_face_image_name(name: Seq<char>) -> bool {
    ends_with(name, ".png"@) || ends_with(name, ".jpg"@)
}

/// The first directory entry, by name, that is a glTF file.
pub fn find_gltf(names: &[String]) -> (r: Option<usize>)
    ensures
        r matches Some(i) ==> i < names@.len() && is_gltf_name(names@[i as int]@) && forall|k: int|
            0 <= k < i ==> !is_gltf_name(#[trigger] names@[k]@),
        r is None ==> forall|k: int| 0 <= k < names@.len() ==> !is_gltf_name(#[trigger] names@[k]@),
{
    let mut i: usize = 0;
    while i < names.len()
        invariant
            i <= names@.len(),
            forall|k: int| 0 <= k < i ==> !is_gltf_name(#[trigger] names@[k]@),
        decreases names@.len() - i,
    {
        let name = names[i].as_str();
        if has_suffix(name, ".gltf") || has_suffix(name, ".glb") {
            return Some(i);
        }
        i += 1;
    }
    None
}

/// The positions of the face images among the entries of a sky-box
/// directory, in listing order; a sky box has exactly six (the loader
/// asserts it).
pub fn load_cubemap(names: &[String]) -> (r: Vec<usize>)
    requires
        face_images_prefix(names@, names@.len()).len() == 6,
    ensures
        r@ == face_images_prefix(names@, names@.len()),
{
    let mut r: Vec<usize> = Vec::new();
    let mut i: usize = 0;
    while i < names.len()
        invariant
            i <= names@.len(),
            r@ == face_images_prefix(names@, i as nat),
        decreases names@.len() - i,
    {
        let name = names[i].as_str();
        if has_suffix(name, ".png") || has_suffix(name, ".jpg") {
            r.push(i);
        }
        i += 1;
    }
    r
}

/// Positions among the first `n` entries that name face images.
pub open spec fn face_images_prefix(names: Seq<String>, n: nat) -> Seq<usize>
    decreases n,
{
    if n == 0 {
        Seq::empty()
    } else if is_face_image_name(names[n - 1]@) {
        face_images_prefix(names, (n - 1) as nat).push((n - 1) as usize)
    } else {
        face_images_prefix(names, (n - 1) as nat)
    }
}

/// The model the search settles on after the first `n` search prefixes.
/// `found[i][t]` says whether prefix `i` with tail `t` (0: the path itself,
/// 1: its `glTF` subdirectory) yields a model. Until a model is found both
/// tails are tried; afterwards only the first tail of each later prefix is,
/// and a hit there replaces the earlier choice.
pub open spec fn spec_model_choice(found: Seq<[bool; 2]>, n: nat) -> Option<(usize, usize)>
    decreases n,
{
    if n == 0 {
        None
    } else {
        let i = (n - 1) as usize;
        match spec_model_choice(found, (n - 1) as nat) {
            None => if found[n - 1]@[0] {
                Some((i, 0usize))
            } else if found[n - 1]@[1] {
                Some((i, 1usize))
            } else {
                None
            },
            Some(prev) => if found[n - 1]@[0] {
                Some((i, 0usize))
            } else {
                Some(prev)
            },
        }
    }
}

/// Chooses the model file among the search candidates: walks the prefixes
/// in order and, per prefix, the tails in order until something is found,
/// keeping the last find. `None` when no candidate yields a model.
pub fn load_model(found: &[[bool; 2]]) -> (r: Option<(usize, usize)>)
    ensures
        r == spec_model_choice(found@, found@.len()),
{
    let mut res: Option<(usize, usize)> = None;
    let mut i: usize = 0;
    while i < found.len()
        invariant
            i <= found@.len(),
            res == spec_model_choice(found@, i as nat),
        decreases found@.len() - i,
    {
        // The first tail always gets a look; the second only while nothing
        // has been found yet.
        if found[i][0] {
            res = Some((i, 0));
        } else if res.is_none() && found[i][1] {
            res = Some((i, 1));
        }
        i += 1;
    }
    res
}

} // verus!
