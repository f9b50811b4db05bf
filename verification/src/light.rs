use vstd::prelude::*;
use crate::scene::SceneNode;

verus! {

/// The kind of a punctual light as glTF states it.
#[derive(Debug, Clone, Copy, PartialEq, Eq, Structural)]
pub enum LightKind {
    Directional,
    Point,
    Spot,
}

/// The kind of light the renderer draws; spot lights are drawn as point lights.
#[derive(Debug, Clone, Copy, PartialEq, Eq, Structural)]
#[allow(non_camel_case_types)]
pub enum LightType {
    DIRECTIONAL,
    POINT,
    SPOT,
}

pub open spec fn spec_light_type(kind: LightKind) -> LightType {
    match kind {
        LightKind::Directional => LightType::DIRECTIONAL,
        _ => LightType::POINT,
    }
}

pub open spec fn spec_light_code(t: LightType) -> u32 {
    match t {
        LightType::DIRECTIONAL => 0,
        LightType::POINT => 1,
        LightType::SPOT => 2,
    }
}

impl LightType {
    /// The light type drawn for a glTF light kind (spot lights are not
    /// implemented and are drawn as point lights).
    pub fn from_kind(kind: LightKind) -> (t: Self)
        ensures
            t == spec_light_type(kind),
    {
        match kind {
            LightKind::Directional => LightType::DIRECTIONAL,
            LightKind::Point => LightType::POINT,
            LightKind::Spot => LightType::POINT,
        }
    }

    /// The code of the type in the GPU light record.
    pub fn code(self) -> (c: u32)
        ensures
            c == spec_light_code(self),
    {
        match self {
            LightType::DIRECTIONAL => 0,
            LightType::POINT => 1,
            LightType::SPOT => 2,
        }
    }
}

/// A GPU light record with this type code is a directional light.
pub fn is_dir(kind_code: u32) -> (b: bool)
    ensures
        b == (kind_code == 0),
{
    kind_code == LightType::DIRECTIONAL.code()
}

/// Number of lights of type `t` among the first `n`.
pub open spec fn count_type(types: Seq<LightType>, t: LightType, n: nat) -> nat
    decreases n,
{
    if n == 0 {
        0
    } else {
        count_type(types, t, (n - 1) as nat) + if types[n - 1] == t {
            1nat
        } else {
            0nat
        }
    }
}

/// How many directional and how many point lights there are (the loader
/// reports these two numbers).
pub fn report_lights(types: &[LightType]) -> (r: (usize, usize))
    ensures
        r.0 == count_type(types@, LightType::DIRECTIONAL, types@.len()),
        r.1 == count_type(types@, LightType::POINT, types@.len()),
{
    let mut dirs: usize = 0;
    let mut points: usize = 0;
    let mut i: usize = 0;
    while i < types.len()
        invariant
            i <= types@.len(),
            dirs == count_type(types@, LightType::DIRECTIONAL, i as nat),
            points == count_type(types@, LightType::POINT, i as nat),
            dirs <= i,
            points <= i,
        decreases types@.len() - i,
    {
        if types[i] == LightType::DIRECTIONAL {
            dirs += 1;
        }
        if types[i] == LightType::POINT {
            points += 1;
        }
        i += 1;
    }
    (dirs, points)
}

/// The lights of a scene split by type, as `(node, light)` pairs in
/// traversal order, and what the renderer adds when a list is empty.
#[derive(Debug, Clone)]
pub struct SceneLights {
    pub directional: Vec<(usize, usize)>,
    pub point: Vec<(usize, usize)>,
    /// A default light record is added when there is no directional light.
    pub add_default_directional: bool,
    /// How many random point lights are added when there is no point light.
    pub random_point_lights: usize,
}

/// `(node, light)` pairs among the first `n` visited nodes whose light is
/// (`dir`) or is not (`!dir`) directional.
pub open spec fn lights_of(nodes: Seq<SceneNode>, order: Seq<usize>, types: Seq<LightType>, dir: bool, n: nat) -> Seq<(usize, usize)>
    decreases n,
{
    if n == 0 {
        Seq::empty()
    } else {
        let prev = lights_of(nodes, order, types, dir, (n - 1) as nat);
        let node = order[n - 1];
        match nodes[node as int].light {
            Some(l) => if (types[l as int] == LightType::DIRECTIONAL) == dir {
                prev.push((node, l))
            } else {
                prev
            },
            None => prev,
        }
    }
}

/// Collects the lights attached to the visited nodes, split into directional
/// and other lights; when there is no point light five random ones are
/// added, and when there is no directional light a default record is.
pub fn scene_lights(nodes: &[SceneNode], order: &[usize], types: &[LightType]) -> (r: SceneLights)
    requires
        forall|k: int| 0 <= k < order@.len() ==> (#[trigger] order@[k]) < nodes@.len(),
        forall|j: int| 0 <= j < nodes@.len() ==> ((#[trigger] nodes@[j]).light matches Some(l) ==> l < types@.len()),
    ensures
        r.directional@ == lights_of(nodes@, order@, types@, true, order@.len()),
        r.point@ == lights_of(nodes@, order@, types@, false, order@.len()),
        r.add_default_directional == (r.directional@.len() == 0),
        r.random_point_lights == if r.point@.len() == 0 {
            5usize
        } else {
            0usize
        },
{
    let mut directional: Vec<(usize, usize)> = Vec::new();
    let mut point: Vec<(usize, usize)> = Vec::new();
    let mut k: usize = 0;
    while k < order.len()
        invariant
            k <= order@.len(),
            forall|m: int| 0 <= m < order@.len() ==> (#[trigger] order@[m]) < nodes@.len(),
            forall|j: int| 0 <= j < nodes@.len() ==> ((#[trigger] nodes@[j]).light matches Some(l) ==> l < types@.len()),
            directional@ == lights_of(nodes@, order@, types@, true, k as nat),
            point@ == lights_of(nodes@, order@, types@, false, k as nat),
        decreases order@.len() - k,
    {
        let node = order[k];
        proof {
            assert(order@[k as int] < nodes@.len());
        }
        match nodes[node].light {
            Some(l) => {
                proof {
                    assert(nodes@[node as int].light matches Some(x) ==> x < types@.len());
                }
                if types[l] == LightType::DIRECTIONAL {
                    directional.push((node, l));
                } else {
                    point.push((node, l));
                }
            },
            None => {},
        }
        k += 1;
    }
    let add_default_directional = directional.len() == 0;
    let random_point_lights: usize = if point.len() == 0 { 5 } else { 0 };
    SceneLights { directional, point, add_default_directional, random_point_lights }
}

} // verus!
