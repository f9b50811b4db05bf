use vstd::prelude::*;

verus! {

/// The views of a list of strings.
pub open spec fn views(s: Seq<String>) -> Seq<Seq<char>> {
    s.map_values(|x: String| x@)
}

/// The entries among the first `n` of `used` that `supported` does not
/// list, in order.
pub open spec fn unsupported_prefix(used: Seq<Seq<char>>, supported: Seq<Seq<char>>, n: nat) -> Seq<Seq<char>>
    decreases n,
{
    if n == 0 {
        Seq::empty()
    } else {
        let prev = unsupported_prefix(used, supported, (n - 1) as nat);
        if supported.contains(used[n - 1]) {
            prev
        } else {
            prev.push(used[n - 1])
        }
    }
}

/// The entries of `used` that `supported` does not list, in order.
pub open spec fn spec_unsupported(used: Seq<Seq<char>>, supported: Seq<Seq<char>>) -> Seq<Seq<char>> {
    unsupported_prefix(used, supported, used.len())
}

fn is_listed(list: &Vec<String>, name: &String) -> (b: bool)
    ensures
        b == views(list@).contains(name@),
{
    let mut i: usize = 0;
    while i < list.len()
        invariant
            i <= list@.len(),
            forall|j: int| 0 <= j < i ==> list@[j]@ != name@,
        decreases list@.len() - i,
    {
        if list[i] == *name {
            proof {
                assert(views(list@)[i as int] == name@);
            }
            return true;
        }
        i += 1;
    }
    proof {
        if views(list@).contains(name@) {
            let j = choose|j: int| 0 <= j < views(list@).len() && views(list@)[j] == name@;
            assert(list@[j]@ == name@);
        }
    }
    false
}

/// The extensions of `used` that `supported` does not list, in order of use.
pub fn unsupported_extensions(used: &[String], supported: &Vec<String>) -> (r: Vec<String>)
    ensures
        views(r@) == spec_unsupported(views(used@), views(supported@)),
{
    let mut r: Vec<String> = Vec::new();
    let mut i: usize = 0;
    while i < used.len()
        invariant
            i <= used@.len(),
            views(r@) == unsupported_prefix(views(used@), views(supported@), i as nat),
        decreases used@.len() - i,
    {
        let e = &used[i];
        let listed = is_listed(supported, e);
        if !listed {
            let c = e.clone();
            let ghost before = r@;
            r.push(c);
            proof {
                assert(views(r@) =~= views(before).push(used@[i as int]@));
            }
        }
        i += 1;
    }
    r
}

/// The glTF extensions the renderer handles.
pub open spec fn supported_extensions() -> Seq<Seq<char>> {
    seq![
        "KHR_materials_ior"@,
        "KHR_materials_transmission"@,
        "KHR_materials_variants"@,
        "KHR_materials_volume"@,
        "KHR_materials_unlit"@,
        "KHR_lights_punctual"@,
    ]
}

/// The list of the extensions the renderer handles.
pub fn supported_extension_list() -> (v: Vec<String>)
    ensures
        views(v@) == supported_extensions(),
{
    let mut v: Vec<String> = Vec::new();
    v.push(String::from_str("KHR_materials_ior"));
    v.push(String::from_str("KHR_materials_transmission"));
    v.push(String::from_str("KHR_materials_variants"));
    v.push(String::from_str("KHR_materials_volume"));
    v.push(String::from_str("KHR_materials_unlit"));
    v.push(String::from_str("KHR_lights_punctual"));
    proof {
        assert(views(v@) =~= supported_extensions());
    }
    v
}

/// The extensions a document uses that the scene loader does not handle,
/// in order; the loader reports each as an error.
pub fn check_extensions(used: &[String]) -> (r: Vec<String>)
    ensures
        views(r@) == spec_unsupported(views(used@), supported_extensions()),
{
    let supported = supported_extension_list();
    unsupported_extensions(used, &supported)
}

} // verus!
