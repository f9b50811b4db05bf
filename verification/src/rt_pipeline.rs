use vstd::prelude::*;

verus! {

/// The role a shader plays in a ray-tracing pipeline.
#[derive(Debug, Clone, Copy, PartialEq, Eq, Structural)]
pub enum RayTracingShaderGroup {
    RayGen,
    Miss,
    ClosestHit,
    AnyHit,
    ShadowAnyHit,
    ShadowMiss,
}

/// How many shader groups a pipeline has, and how many of them are
/// ray-generation, miss and hit groups.
#[derive(Debug, Clone, Copy)]
pub struct RayTracingShaderGroupInfo {
    pub group_count: u32,
    pub raygen_shader_count: u32,
    pub miss_shader_count: u32,
    pub hit_shader_count: u32,
}

/// The two kinds of shader group this pipeline builds.
#[derive(Debug, Clone, Copy, PartialEq, Eq, Structural)]
pub enum ShaderGroupType {
    General,
    TrianglesHitGroup,
}

/// One `VkRayTracingShaderGroupCreateInfoKHR`, by shader indices;
/// `u32::MAX` (`VK_SHADER_UNUSED_KHR`) marks an unused slot.
#[derive(Debug, Clone, Copy, PartialEq, Eq, Structural)]
pub struct ShaderGroupDesc {
    pub ty: ShaderGroupType,
    pub general_shader: u32,
    pub closest_hit_shader: u32,
    pub any_hit_shader: u32,
    pub intersection_shader: u32,
}

/// Reads `ash::vk::SHADER_UNUSED_KHR`, which ash defines as `!0`.
#[verifier::external_body]
fn shader_unused() -> (r: u32)
    ensures
        r == u32::MAX,
{
    ash::vk::SHADER_UNUSED_KHR
}

pub open spec fn is_raygen(g: RayTracingShaderGroup) -> bool {
    g == RayTracingShaderGroup::RayGen
}

pub open spec fn is_miss(g: RayTracingShaderGroup) -> bool {
    g == RayTracingShaderGroup::Miss || g == RayTracingShaderGroup::ShadowMiss
}

pub open spec fn is_hit(g: RayTracingShaderGroup) -> bool {
    g == RayTracingShaderGroup::ClosestHit || g == RayTracingShaderGroup::ShadowAnyHit
}

pub open spec fn is_any_hit(g: RayTracingShaderGroup) -> bool {
    g == RayTracingShaderGroup::AnyHit
}

/// Number of elements of `s` that satisfy `p`.
pub open spec fn count_where(
    s: Seq<RayTracingShaderGroup>,
    p: spec_fn(RayTracingShaderGroup) -> bool,
) -> nat
    decreases s.len(),
{
    if s.len() == 0 {
        0
    } else {
        count_where(s.drop_last(), p) + if p(s.last()) {
            1nat
        } else {
            0nat
        }
    }
}

/// `g` occurs at most once in `s`.
pub open spec fn at_most_once(s: Seq<RayTracingShaderGroup>, g: RayTracingShaderGroup) -> bool {
    forall|i: int, j: int| 0 <= i < s.len() && 0 <= j < s.len() && s[i] == g && s[j] == g ==> i == j
}

/// The index of the any-hit shader, if the pipeline has one.
pub open spec fn any_hit_index(s: Seq<RayTracingShaderGroup>) -> Option<int> {
    if exists|i: int| 0 <= i < s.len() && is_any_hit(s[i]) {
        Some(choose|i: int| 0 <= i < s.len() && is_any_hit(s[i]))
    } else {
        None
    }
}

/// The group that the shader at `index` with role `g` gets: a general group
/// for ray-generation and miss shaders, a triangle hit group for closest-hit
/// shaders (with the pipeline's any-hit shader attached, if any) and for
/// shadow any-hit shaders.
pub open spec fn group_desc(g: RayTracingShaderGroup, index: int, any_hit: Option<int>) -> ShaderGroupDesc {
    let unused = u32::MAX;
    match g {
        RayTracingShaderGroup::ClosestHit => ShaderGroupDesc {
            ty: ShaderGroupType::TrianglesHitGroup,
            general_shader: unused,
            closest_hit_shader: index as u32,
            any_hit_shader: match any_hit {
                Some(a) => a as u32,
                None => unused,
            },
            intersection_shader: unused,
        },
        RayTracingShaderGroup::ShadowAnyHit => ShaderGroupDesc {
            ty: ShaderGroupType::TrianglesHitGroup,
            general_shader: unused,
            closest_hit_shader: unused,
            any_hit_shader: index as u32,
            intersection_shader: unused,
        },
        _ => ShaderGroupDesc {
            ty: ShaderGroupType::General,
            general_shader: index as u32,
            closest_hit_shader: unused,
            any_hit_shader: unused,
            intersection_shader: unused,
        },
    }
}

/// The groups built for the first `n` shaders: one per shader that is not
/// the any-hit shader, in shader order.
pub open spec fn group_descs(s: Seq<RayTracingShaderGroup>, any_hit: Option<int>, n: nat) -> Seq<ShaderGroupDesc>
    decreases n,
{
    if n == 0 {
        Seq::empty()
    } else {
        let prev = group_descs(s, any_hit, (n - 1) as nat);
        if is_any_hit(s[n - 1]) {
            prev
        } else {
            prev.push(group_desc(s[n - 1], n - 1, any_hit))
        }
    }
}

proof fn lemma_count_step(s: Seq<RayTracingShaderGroup>, p: spec_fn(RayTracingShaderGroup) -> bool, i: int)
    requires
        0 <= i < s.len(),
    ensures
        count_where(s.take(i + 1), p) == count_where(s.take(i), p) + if p(s[i]) {
            1nat
        } else {
            0nat
        },
{
    assert(s.take(i + 1).drop_last() =~= s.take(i));
}

proof fn lemma_count_le(s: Seq<RayTracingShaderGroup>, p: spec_fn(RayTracingShaderGroup) -> bool)
    ensures
        count_where(s, p) <= s.len(),
    decreases s.len(),
{
    if s.len() > 0 {
        lemma_count_le(s.drop_last(), p);
    }
}

/// Every shader is counted exactly once among ray-generation, miss, hit and
/// any-hit shaders.
proof fn lemma_counts_partition(s: Seq<RayTracingShaderGroup>)
    ensures
        count_where(s, |g| is_raygen(g)) + count_where(s, |g| is_miss(g)) + count_where(
            s,
            |g| is_hit(g),
        ) + count_where(s, |g| is_any_hit(g)) == s.len(),
    decreases s.len(),
{
    if s.len() > 0 {
        lemma_counts_partition(s.drop_last());
    }
}

proof fn lemma_any_hit_count(s: Seq<RayTracingShaderGroup>)
    requires
        at_most_once(s, RayTracingShaderGroup::AnyHit),
    ensures
        count_where(s, |g| is_any_hit(g)) == if any_hit_index(s) is Some {
            1nat
        } else {
            0nat
        },
    decreases s.len(),
{
    if s.len() > 0 {
        let t = s.drop_last();
        assert(at_most_once(t, RayTracingShaderGroup::AnyHit));
        lemma_any_hit_count(t);
        if is_any_hit(s.last()) {
            assert(is_any_hit(s[s.len() - 1]));
            if exists|i: int| 0 <= i < t.len() && is_any_hit(t[i]) {
                let i = choose|i: int| 0 <= i < t.len() && is_any_hit(t[i]);
                assert(s[i] == RayTracingShaderGroup::AnyHit);
                assert(false);
            }
        } else {
            if exists|i: int| 0 <= i < s.len() && is_any_hit(s[i]) {
                let i = choose|i: int| 0 <= i < s.len() && is_any_hit(s[i]);
                assert(i < t.len());
                assert(is_any_hit(t[i]));
            }
            if exists|i: int| 0 <= i < t.len() && is_any_hit(t[i]) {
                let i = choose|i: int| 0 <= i < t.len() && is_any_hit(t[i]);
                assert(is_any_hit(s[i]));
            }
        }
    }
}

proof fn lemma_group_descs_len(s: Seq<RayTracingShaderGroup>, any_hit: Option<int>, n: nat)
    requires
        n <= s.len(),
    ensures
        group_descs(s, any_hit, n).len() == n - count_where(s.take(n as int), |g| is_any_hit(g)),
    decreases n,
{
    if n > 0 {
        lemma_group_descs_len(s, any_hit, (n - 1) as nat);
        lemma_count_step(s, |g| is_any_hit(g), n - 1);
        lemma_count_le(s.take(n - 1), |g| is_any_hit(g));
    }
}

/// Works out the shader groups of a ray-tracing pipeline from the roles of
/// its shaders: the counts of groups per kind and one group per shader other
/// than the single any-hit shader, which is attached to the closest-hit groups.
/// More than one any-hit or more than one shadow any-hit shader is refused
/// (the pipeline asserts against it).
pub fn shader_groups(shaders: &[RayTracingShaderGroup]) -> (res: (RayTracingShaderGroupInfo, Vec<ShaderGroupDesc>))
    requires
        shaders@.len() <= u32::MAX,
        at_most_once(shaders@, RayTracingShaderGroup::AnyHit),
        at_most_once(shaders@, RayTracingShaderGroup::ShadowAnyHit),
    ensures
        res.0.group_count == shaders@.len() - if any_hit_index(shaders@) is Some {
            1int
        } else {
            0int
        },
        res.0.raygen_shader_count == count_where(shaders@, |g| is_raygen(g)),
        res.0.miss_shader_count == count_where(shaders@, |g| is_miss(g)),
        res.0.hit_shader_count == count_where(shaders@, |g| is_hit(g)),
        res.1@ == group_descs(shaders@, any_hit_index(shaders@), shaders@.len()),
{
    let ghost s = shaders@;
    let n = shaders.len();
    let mut anyhit: Option<usize> = None;
    let mut i: usize = 0;
    while i < n
        invariant
            n == s.len(),
            s == shaders@,
            i <= n,
            at_most_once(s, RayTracingShaderGroup::AnyHit),
            anyhit matches Some(a) ==> a < i && s[a as int] == RayTracingShaderGroup::AnyHit,
            anyhit is None ==> forall|j: int| 0 <= j < i ==> s[j] != RayTracingShaderGroup::AnyHit,
        decreases n - i,
    {
        if shaders[i] == RayTracingShaderGroup::AnyHit {
            anyhit = Some(i);
        }
        i += 1;
    }
    proof {
        match anyhit {
            Some(a) => {
                assert(is_any_hit(s[a as int]));
                let c = choose|j: int| 0 <= j < s.len() && is_any_hit(s[j]);
                assert(c == a);
                assert(any_hit_index(s) == Some(a as int));
            },
            None => {
                assert(!(exists|j: int| 0 <= j < s.len() && is_any_hit(s[j])));
                assert(any_hit_index(s) is None);
            },
        }
        lemma_any_hit_count(s);
    }
    let unused = shader_unused();
    let mut raygen: u32 = 0;
    let mut miss: u32 = 0;
    let mut hit: u32 = 0;
    let mut groups: Vec<ShaderGroupDesc> = Vec::new();
    let mut k: usize = 0;
    while k < n
        invariant
            n == s.len(),
            s == shaders@,
            n <= u32::MAX,
            k <= n,
            unused == u32::MAX,
            anyhit matches Some(a) ==> any_hit_index(s) == Some(a as int),
            anyhit is None ==> any_hit_index(s) is None,
            raygen == count_where(s.take(k as int), |g| is_raygen(g)),
            miss == count_where(s.take(k as int), |g| is_miss(g)),
            hit == count_where(s.take(k as int), |g| is_hit(g)),
            groups@ == group_descs(s, any_hit_index(s), k as nat),
        decreases n - k,
    {
        let g = shaders[k];
        proof {
            lemma_count_step(s, |g| is_raygen(g), k as int);
            lemma_count_step(s, |g| is_miss(g), k as int);
            lemma_count_step(s, |g| is_hit(g), k as int);
            lemma_count_le(s.take(k as int), |g| is_raygen(g));
            lemma_count_le(s.take(k as int), |g| is_miss(g));
            lemma_count_le(s.take(k as int), |g| is_hit(g));
        }
        match g {
            RayTracingShaderGroup::RayGen => raygen += 1,
            RayTracingShaderGroup::Miss | RayTracingShaderGroup::ShadowMiss => miss += 1,
            RayTracingShaderGroup::ClosestHit | RayTracingShaderGroup::ShadowAnyHit => hit += 1,
            _ => {},
        }
        let index = k as u32;
        if g != RayTracingShaderGroup::AnyHit {
            let desc = match g {
                RayTracingShaderGroup::ClosestHit => ShaderGroupDesc {
                    ty: ShaderGroupType::TrianglesHitGroup,
                    general_shader: unused,
                    closest_hit_shader: index,
                    any_hit_shader: match anyhit {
                        Some(a) => a as u32,
                        None => unused,
                    },
                    intersection_shader: unused,
                },
                RayTracingShaderGroup::ShadowAnyHit => ShaderGroupDesc {
                    ty: ShaderGroupType::TrianglesHitGroup,
                    general_shader: unused,
                    closest_hit_shader: unused,
                    any_hit_shader: index,
                    intersection_shader: unused,
                },
                _ => ShaderGroupDesc {
                    ty: ShaderGroupType::General,
                    general_shader: index,
                    closest_hit_shader: unused,
                    any_hit_shader: unused,
                    intersection_shader: unused,
                },
            };
            groups.push(desc);
        }
        k += 1;
    }
    proof {
        assert(s.take(n as int) =~= s);
    }
    let group_count = n as u32 - if anyhit.is_some() { 1 } else { 0 };
    let info = RayTracingShaderGroupInfo {
        group_count,
        raygen_shader_count: raygen,
        miss_shader_count: miss,
        hit_shader_count: hit,
    };
    (info, groups)
}

/// The group count is the sum of the ray-generation, miss and hit counts, and
/// the number of groups built equals the group count.
pub proof fn lemma_group_count_is_sum(s: Seq<RayTracingShaderGroup>)
    requires
        at_most_once(s, RayTracingShaderGroup::AnyHit),
    ensures
        s.len() - (if any_hit_index(s) is Some {
            1int
        } else {
            0int
        }) == count_where(s, |g| is_raygen(g)) + count_where(s, |g| is_miss(g)) + count_where(
            s,
            |g| is_hit(g),
        ),
        group_descs(s, any_hit_index(s), s.len()).len() == s.len() - (if any_hit_index(s) is Some {
            1int
        } else {
            0int
        }),
{
    lemma_counts_partition(s);
    lemma_any_hit_count(s);
    lemma_group_descs_len(s, any_hit_index(s), s.len());
    assert(s.take(s.len() as int) =~= s);
}

} // verus!
