use vstd::prelude::*;
use crate::geometry::GeoBuilder;
use crate::scene::SceneNode;
use crate::skinning::mesh_lists;

verus! {

/// What building the bottom-level acceleration structure of one geometry
/// needs: its ranges in the shared buffers and whether it is opaque.
#[derive(Debug, Clone, Copy, PartialEq, Eq, Structural)]
pub struct BlasInput {
    pub geo_id: u32,
    /// Highest vertex index the geometry may use (its vertex count).
    pub max_vertex: u32,
    pub first_vertex: u32,
    pub primitive_count: u32,
    /// Byte offset of the geometry's first index.
    pub primitive_offset: u32,
    pub opaque: bool,
}

/// The acceleration-structure input of geometry `geo_id`.
pub open spec fn spec_blas_input<A>(b: &GeoBuilder<A>, geo_id: u32) -> BlasInput {
    BlasInput {
        geo_id,
        max_vertex: b.len@[geo_id as int]@[0] as u32,
        first_vertex: b.offsets@[geo_id as int]@[0],
        primitive_count: (b.len@[geo_id as int]@[1] / 3) as u32,
        primitive_offset: (b.offsets@[geo_id as int]@[1] * 4) as u32,
        opaque: b.opaque@[b.material_id@[geo_id as int] as int],
    }
}

/// Geometry `geo_id` can be described for an acceleration-structure build.
pub open spec fn blas_ready<A>(b: &GeoBuilder<A>, geo_id: u32) -> bool {
    &&& geo_id < b.len@.len()
    &&& geo_id < b.offsets@.len()
    &&& geo_id < b.material_id@.len()
    &&& b.material_id@[geo_id as int] < b.opaque@.len()
    &&& b.len@[geo_id as int]@[1] % 3 == 0
    &&& b.offsets@[geo_id as int]@[1] * 4 <= u32::MAX
}

/// Whether geometry `geo_id` can be described for an acceleration
/// structure build (see `blas_ready`).
pub fn is_blas_ready<A>(b: &GeoBuilder<A>, geo_id: u32) -> (r: bool)
    ensures
        r == blas_ready(b, geo_id),
{
    let g = geo_id as usize;
    if g >= b.len.len() || g >= b.offsets.len() || g >= b.material_id.len() {
        return false;
    }
    b.material_id[g] < b.opaque.len() && b.len[g][1] % 3 == 0 && b.offsets[g][1] as u64 * 4 <= u32::MAX as u64
}

/// Describes the triangles of geometry `geo_id` for an acceleration
/// structure build: a triangle per three indices, indices addressed in bytes.
/// The index count must be a multiple of three (the builder asserts it).
pub fn primitive_to_blas_input<A: Copy>(geo_builder: &GeoBuilder<A>, geo_id: u32) -> (b: BlasInput)
    requires
        blas_ready(geo_builder, geo_id),
    ensures
        b == spec_blas_input(geo_builder, geo_id),
        b.geo_id == geo_id,
        b.max_vertex == geo_builder.len@[geo_id as int]@[0] as u32,
        b.first_vertex == geo_builder.offsets@[geo_id as int]@[0],
        b.primitive_count == (geo_builder.len@[geo_id as int]@[1] / 3) as u32,
        b.primitive_offset == geo_builder.offsets@[geo_id as int]@[1] * 4,
        b.opaque == geo_builder.opaque@[geo_builder.material_id@[geo_id as int] as int],
{
    let lens = geo_builder.len[geo_id as usize];
    let offs = geo_builder.offsets[geo_id as usize];
    let opaque = geo_builder.is_opaque(geo_id);
    let v_len = lens[0];
    let i_len = lens[1];
    assert(i_len % 3 == 0);
    let primitive_count = (i_len / 3) as u32;
    BlasInput {
        geo_id,
        max_vertex: v_len as u32,
        first_vertex: offs[0],
        primitive_count,
        primitive_offset: offs[1] * 4,
        opaque,
    }
}

/// Calls `ash::vk::Packed24_8::new` and reads the value back with its
/// `low_24` and `high_8` accessors; ash keeps the low 24 bits of the first
/// argument and the byte of the second.
#[verifier::external_body]
fn pack_24_8(low_24: u32, high_8: u8) -> (r: (u32, u8))
    ensures
        r.0 == low_24 & 0xff_ffffu32,
        r.1 == high_8,
{
    let p = ash::vk::Packed24_8::new(low_24, high_8);
    (p.low_24(), p.high_8())
}

/// One instance of the top-level acceleration structure.
#[derive(Debug, Clone, Copy, PartialEq, Eq, Structural)]
pub struct InstanceDesc {
    /// The node whose transform places the instance.
    pub node: usize,
    /// Skinned nodes are placed by the identity (their vertices are already
    /// transformed); others by their world transform.
    pub world_transform: bool,
    /// The custom index the shaders read (the geometry id, 24 bits) and the
    /// visibility mask.
    pub custom_index: u32,
    pub mask: u8,
    pub blas_address: u64,
}

/// The instance of geometry `g` placed by `node`.
pub open spec fn instance_for(nodes: Seq<SceneNode>, blas_addresses: Seq<u64>, node: usize, g: u32) -> InstanceDesc {
    InstanceDesc {
        node,
        world_transform: nodes[node as int].skin is None,
        custom_index: g & 0xff_ffffu32,
        mask: 0xffu8,
        blas_address: blas_addresses[g as int],
    }
}

/// The instances of the first `n` visited nodes: one per primitive of each
/// node's mesh.
pub open spec fn spec_instances(
    nodes: Seq<SceneNode>,
    order: Seq<usize>,
    mesh_geometries: Seq<Seq<u32>>,
    blas_addresses: Seq<u64>,
    n: nat,
) -> Seq<InstanceDesc>
    decreases n,
{
    if n == 0 {
        Seq::empty()
    } else {
        let prev = spec_instances(nodes, order, mesh_geometries, blas_addresses, (n - 1) as nat);
        let node = order[n - 1];
        match nodes[node as int].mesh {
            Some(m) => prev + mesh_geometries[m as int].map_values(
                |g: u32| instance_for(nodes, blas_addresses, node, g),
            ),
            None => prev,
        }
    }
}

/// Lists the top-level instances: for each visited node with a mesh, one
/// instance per primitive, referencing the bottom-level structure of the
/// primitive's geometry.
pub fn top_level_instances(
    nodes: &[SceneNode],
    order: &[usize],
    mesh_geometries: &Vec<Vec<u32>>,
    blas_addresses: &[u64],
) -> (ins: Vec<InstanceDesc>)
    requires
        forall|k: int| 0 <= k < order@.len() ==> (#[trigger] order@[k]) < nodes@.len(),
        forall|j: int|
            0 <= j < nodes@.len() ==> ((#[trigger] nodes@[j]).mesh matches Some(m) ==> m < mesh_geometries@.len()),
        forall|m: int, p: int|
            0 <= m < mesh_geometries@.len() && 0 <= p < mesh_geometries@[m]@.len() ==> (#[trigger] mesh_geometries@[m]@[p])
                < blas_addresses@.len(),
    ensures
        ins@ == spec_instances(
            nodes@,
            order@,
            mesh_lists(mesh_geometries@),
            blas_addresses@,
            order@.len(),
        ),
{
    let ghost geos = mesh_lists(mesh_geometries@);
    let mut ins: Vec<InstanceDesc> = Vec::new();
    let mut k: usize = 0;
    while k < order.len()
        invariant
            k <= order@.len(),
            geos == mesh_lists(mesh_geometries@),
            forall|q: int| 0 <= q < order@.len() ==> (#[trigger] order@[q]) < nodes@.len(),
            forall|j: int|
                0 <= j < nodes@.len() ==> ((#[trigger] nodes@[j]).mesh matches Some(m) ==> m < mesh_geometries@.len()),
            forall|m: int, p: int|
                0 <= m < mesh_geometries@.len() && 0 <= p < mesh_geometries@[m]@.len() ==> (#[trigger] mesh_geometries@[m]@[p])
                    < blas_addresses@.len(),
            ins@ == spec_instances(nodes@, order@, geos, blas_addresses@, k as nat),
        decreases order@.len() - k,
    {
        let node = order[k];
        proof {
            assert(order@[k as int] < nodes@.len());
        }
        let world_transform = nodes[node].skin.is_none();
        match nodes[node].mesh {
            Some(m) => {
                proof {
                    assert(nodes@[node as int].mesh matches Some(x) ==> x < mesh_geometries@.len());
                }
                let geometries = &mesh_geometries[m];
                let ghost before = ins@;
                let mut p: usize = 0;
                while p < geometries.len()
                    invariant
                        p <= geometries@.len(),
                        geometries@ == geos[m as int],
                        m < mesh_geometries@.len(),
                        geometries@ == mesh_geometries@[m as int]@,
                        world_transform == (nodes@[node as int].skin is None),
                        node < nodes@.len(),
                        forall|mm: int, pp: int|
                            0 <= mm < mesh_geometries@.len() && 0 <= pp < mesh_geometries@[mm]@.len()
                                ==> (#[trigger] mesh_geometries@[mm]@[pp]) < blas_addresses@.len(),
                        ins@ == before + geometries@.take(p as int).map_values(|g: u32| instance_for(nodes@, blas_addresses@, node, g)),
                    decreases geometries@.len() - p,
                {
                    let g = geometries[p];
                    proof {
                        assert(mesh_geometries@[m as int]@[p as int] < blas_addresses@.len());
                    }
                    let (custom_index, mask) = pack_24_8(g, 0xff);
                    let desc = InstanceDesc { node, world_transform, custom_index, mask, blas_address: blas_addresses[g as usize] };
                    proof {
                        assert(desc == instance_for(nodes@, blas_addresses@, node, g));
                        assert(geometries@.take(p + 1) =~= geometries@.take(p as int).push(g));
                        assert(geometries@.take(p + 1).map_values(|g: u32| instance_for(nodes@, blas_addresses@, node, g)) =~= geometries@.take(p as int).map_values(|g: u32| instance_for(nodes@, blas_addresses@, node, g)).push(instance_for(nodes@, blas_addresses@, node, g)));
                    }
                    ins.push(desc);
                    p += 1;
                    proof {
                        assert(ins@ =~= before + geometries@.take(p as int).map_values(|g: u32| instance_for(nodes@, blas_addresses@, node, g)));
                    }
                }
                proof {
                    assert(geometries@.take(p as int) =~= geometries@);
                }
            },
            None => {},
        }
        k += 1;
    }
    ins
}

/// `out` lists the elements of `input` sorted by geometry id, each exactly
/// once, and elements with equal ids keep their input order: `pos` maps each
/// output position to the input position it came from.
pub open spec fn stable_sort_witness(out: Seq<BlasInput>, input: Seq<BlasInput>, pos: Seq<int>) -> bool {
    &&& out.len() == input.len()
    &&& pos.len() == out.len()
    &&& forall|k: int| 0 <= k < out.len() ==> 0 <= #[trigger] pos[k] < input.len() && out[k] == input[pos[k]]
    &&& forall|k: int, l: int| 0 <= k < l < out.len() ==> #[trigger] pos[k] != #[trigger] pos[l]
    &&& forall|k: int, l: int| 0 <= k < l < out.len() ==> (#[trigger] out[k]).geo_id <= (#[trigger] out[l]).geo_id
    &&& forall|k: int, l: int|
        0 <= k < l < out.len() && (#[trigger] out[k]).geo_id == (#[trigger] out[l]).geo_id ==> pos[k] < pos[l]
}

/// Sorts acceleration-structure inputs by geometry id, keeping the order of
/// inputs with equal ids (a stable sort), so that the structure of geometry
/// `g` ends up at position `g` when every geometry is present once.
pub fn sort_by_geo_id(inputs: &Vec<BlasInput>) -> (out: Vec<BlasInput>)
    ensures
        exists|pos: Seq<int>| stable_sort_witness(out@, inputs@, pos),
{
    let mut out: Vec<BlasInput> = Vec::new();
    let ghost mut pos: Seq<int> = Seq::empty();
    let n = inputs.len();
    let mut i: usize = 0;
    while i < n
        invariant
            n == inputs@.len(),
            i <= n,
            out@.len() == i,
            pos.len() == i,
            forall|k: int| 0 <= k < i ==> 0 <= #[trigger] pos[k] < i && out@[k] == inputs@[pos[k]],
            forall|k: int, l: int| 0 <= k < l < i ==> #[trigger] pos[k] != #[trigger] pos[l],
            forall|k: int, l: int| 0 <= k < l < i ==> (#[trigger] out@[k]).geo_id <= (#[trigger] out@[l]).geo_id,
            forall|k: int, l: int|
                0 <= k < l < i && (#[trigger] out@[k]).geo_id == (#[trigger] out@[l]).geo_id ==> pos[k] < pos[l],
        decreases n - i,
    {
        let x = inputs[i];
        let mut p: usize = 0;
        while p < out.len() && out[p].geo_id <= x.geo_id
            invariant
                p <= out@.len(),
                forall|k: int| 0 <= k < p ==> (#[trigger] out@[k]).geo_id <= x.geo_id,
            decreases out@.len() - p,
        {
            p += 1;
        }
        let ghost old_out = out@;
        let ghost old_pos = pos;
        out.insert(p, x);
        proof {
            pos = pos.insert(p as int, i as int);
            assert forall|k: int| p < k <= i implies (#[trigger] out@[k]).geo_id > x.geo_id by {
                assert(out@[k] == old_out[k - 1]);
                assert(old_out[p as int].geo_id > x.geo_id);
                if k - 1 > p {
                    assert(old_out[p as int].geo_id <= old_out[k - 1].geo_id);
                }
            }
            assert forall|k: int| 0 <= k < i + 1 implies 0 <= #[trigger] pos[k] < i + 1 && out@[k] == inputs@[pos[k]] by {
                if k < p {
                    assert(pos[k] == old_pos[k] && out@[k] == old_out[k]);
                } else if k > p {
                    assert(pos[k] == old_pos[k - 1] && out@[k] == old_out[k - 1]);
                }
            }
            assert forall|k: int, l: int| 0 <= k < l < i + 1 implies #[trigger] pos[k] != #[trigger] pos[l] by {
                if k != p && l != p {
                    let k0 = if k < p { k } else { k - 1 };
                    let l0 = if l < p { l } else { l - 1 };
                    assert(pos[k] == old_pos[k0] && pos[l] == old_pos[l0]);
                } else if k == p {
                    assert(pos[l] == old_pos[l - 1]);
                } else {
                    assert(pos[k] == old_pos[k]);
                }
            }
            assert forall|k: int, l: int| 0 <= k < l < i + 1 implies (#[trigger] out@[k]).geo_id <= (#[trigger] out@[l]).geo_id by {
                if k != p && l != p {
                    let k0 = if k < p { k } else { k - 1 };
                    let l0 = if l < p { l } else { l - 1 };
                    assert(out@[k] == old_out[k0] && out@[l] == old_out[l0]);
                } else if k == p {
                    assert(out@[l].geo_id > x.geo_id);
                } else {
                    assert(out@[k] == old_out[k]);
                }
            }
            assert forall|k: int, l: int|
                0 <= k < l < i + 1 && (#[trigger] out@[k]).geo_id == (#[trigger] out@[l]).geo_id implies pos[k] < pos[l] by {
                if k != p && l != p {
                    let k0 = if k < p { k } else { k - 1 };
                    let l0 = if l < p { l } else { l - 1 };
                    assert(out@[k] == old_out[k0] && out@[l] == old_out[l0]);
                    assert(pos[k] == old_pos[k0] && pos[l] == old_pos[l0]);
                } else if k == p {
                    assert(out@[l].geo_id > x.geo_id);
                } else {
                    assert(pos[k] == old_pos[k]);
                    assert(pos[k] < i);
                }
            }
        }
        i += 1;
    }
    proof {
        assert(stable_sort_witness(out@, inputs@, pos));
    }
    out
}

proof fn lemma_strictly_increasing_ids(out: Seq<BlasInput>, n: int, g: int)
    requires
        out.len() == n,
        forall|k: int| 0 <= k < n ==> (#[trigger] out[k]).geo_id < n,
        forall|k: int, l: int| 0 <= k < l < n ==> (#[trigger] out[k]).geo_id < (#[trigger] out[l]).geo_id,
        0 <= g < n,
    ensures
        out[g].geo_id == g,
{
    assert forall|k: int| 0 <= k < n implies (#[trigger] out[k]).geo_id >= k by {
        lemma_ids_at_least(out, n, k);
    }
    assert forall|k: int| 0 <= k < n implies (#[trigger] out[k]).geo_id <= k by {
        lemma_ids_at_most(out, n, k);
    }
}

proof fn lemma_ids_at_least(out: Seq<BlasInput>, n: int, k: int)
    requires
        out.len() == n,
        forall|a: int, b: int| 0 <= a < b < n ==> (#[trigger] out[a]).geo_id < (#[trigger] out[b]).geo_id,
        0 <= k < n,
    ensures
        out[k].geo_id >= k,
    decreases k,
{
    if k > 0 {
        lemma_ids_at_least(out, n, k - 1);
        assert(out[k - 1].geo_id < out[k].geo_id);
    }
}

proof fn lemma_ids_at_most(out: Seq<BlasInput>, n: int, k: int)
    requires
        out.len() == n,
        forall|a: int| 0 <= a < n ==> (#[trigger] out[a]).geo_id < n,
        forall|a: int, b: int| 0 <= a < b < n ==> (#[trigger] out[a]).geo_id < (#[trigger] out[b]).geo_id,
        0 <= k < n,
    ensures
        out[k].geo_id <= k,
    decreases n - k,
{
    if k < n - 1 {
        lemma_ids_at_most(out, n, k + 1);
        assert(out[k].geo_id < out[k + 1].geo_id);
    }
}

/// When the inputs carry the geometry ids `0..n`, each once, the sorted
/// inputs hold geometry `g` at position `g`: the top-level instances find
/// the bottom-level structure of a geometry by its id.
pub proof fn lemma_sorted_inputs_indexed_by_id(out: Seq<BlasInput>, input: Seq<BlasInput>, pos: Seq<int>)
    requires
        stable_sort_witness(out, input, pos),
        forall|i: int| 0 <= i < input.len() ==> (#[trigger] input[i]).geo_id < input.len(),
        forall|i: int, j: int| 0 <= i < j < input.len() ==> (#[trigger] input[i]).geo_id != (#[trigger] input[j]).geo_id,
    ensures
        forall|g: int| 0 <= g < out.len() ==> (#[trigger] out[g]).geo_id == g,
{
    let n = out.len() as int;
    assert forall|k: int| 0 <= k < n implies (#[trigger] out[k]).geo_id < n by {
        assert(out[k] == input[pos[k]]);
    }
    assert forall|k: int, l: int| 0 <= k < l < n implies (#[trigger] out[k]).geo_id < (#[trigger] out[l]).geo_id by {
        assert(out[k].geo_id <= out[l].geo_id);
        assert(pos[k] != pos[l]);
        assert(out[k] == input[pos[k]] && out[l] == input[pos[l]]);
        if pos[k] < pos[l] {
            assert(input[pos[k]].geo_id != input[pos[l]].geo_id);
        } else {
            assert(input[pos[l]].geo_id != input[pos[k]].geo_id);
        }
    }
    assert forall|g: int| 0 <= g < out.len() implies (#[trigger] out[g]).geo_id == g by {
        lemma_strictly_increasing_ids(out, n, g);
    }
}

/// The acceleration-structure inputs of all primitives of all meshes, mesh by
/// mesh, in the order the meshes list them.
pub open spec fn spec_blas_inputs<A>(b: &GeoBuilder<A>, mesh_geometries: Seq<Seq<u32>>) -> Seq<BlasInput> {
    mesh_geometries.flatten().map_values(|g: u32| spec_blas_input(b, g))
}

/// The inputs of the bottom-level acceleration structures: one per primitive
/// of every mesh, sorted by geometry id (stably).
pub fn collect_blas_inputs<A: Copy>(geo_builder: &GeoBuilder<A>, mesh_geometries: &Vec<Vec<u32>>) -> (out: Vec<BlasInput>)
    requires
        forall|m: int, p: int|
            0 <= m < mesh_geometries@.len() && 0 <= p < mesh_geometries@[m]@.len() ==> blas_ready(
                geo_builder,
                #[trigger] mesh_geometries@[m]@[p],
            ),
    ensures
        exists|pos: Seq<int>|
            stable_sort_witness(out@, spec_blas_inputs(geo_builder, mesh_lists(mesh_geometries@)), pos),
{
    let ghost geos = mesh_lists(mesh_geometries@);
    let mut inputs: Vec<BlasInput> = Vec::new();
    let mut m: usize = 0;
    while m < mesh_geometries.len()
        invariant
            m <= mesh_geometries@.len(),
            geos == mesh_lists(mesh_geometries@),
            forall|mm: int, p: int|
                0 <= mm < mesh_geometries@.len() && 0 <= p < mesh_geometries@[mm]@.len() ==> blas_ready(
                    geo_builder,
                    #[trigger] mesh_geometries@[mm]@[p],
                ),
            inputs@ == geos.take(m as int).flatten().map_values(|g: u32| spec_blas_input(geo_builder, g)),
        decreases mesh_geometries@.len() - m,
    {
        let list = &mesh_geometries[m];
        let ghost before = inputs@;
        let mut p: usize = 0;
        while p < list.len()
            invariant
                p <= list@.len(),
                m < mesh_geometries@.len(),
                list@ == mesh_geometries@[m as int]@,
                forall|mm: int, pp: int|
                    0 <= mm < mesh_geometries@.len() && 0 <= pp < mesh_geometries@[mm]@.len() ==> blas_ready(
                        geo_builder,
                        #[trigger] mesh_geometries@[mm]@[pp],
                    ),
                inputs@ == before + list@.take(p as int).map_values(|g: u32| spec_blas_input(geo_builder, g)),
            decreases list@.len() - p,
        {
            let g = list[p];
            proof {
                assert(blas_ready(geo_builder, mesh_geometries@[m as int]@[p as int]));
            }
            let b = primitive_to_blas_input(geo_builder, g);
            inputs.push(b);
            proof {
                assert(list@.take(p + 1) =~= list@.take(p as int).push(g));
                assert(list@.take(p + 1).map_values(|g: u32| spec_blas_input(geo_builder, g))
                    =~= list@.take(p as int).map_values(|g: u32| spec_blas_input(geo_builder, g)).push(spec_blas_input(geo_builder, g)));
            }
            p += 1;
            proof {
                assert(inputs@ =~= before + list@.take(p as int).map_values(|g: u32| spec_blas_input(geo_builder, g)));
            }
        }
        proof {
            assert(list@.take(p as int) =~= list@);
            assert(geos.take(m + 1) =~= geos.take(m as int).push(list@));
            geos.take(m as int).lemma_flatten_push(list@);
            assert((geos.take(m as int).flatten() + list@).map_values(|g: u32| spec_blas_input(geo_builder, g))
                =~= geos.take(m as int).flatten().map_values(|g: u32| spec_blas_input(geo_builder, g))
                    + list@.map_values(|g: u32| spec_blas_input(geo_builder, g)));
        }
        m += 1;
    }
    proof {
        assert(geos.take(m as int) =~= geos);
        assert(inputs@ == spec_blas_inputs(geo_builder, mesh_lists(mesh_geometries@)));
    }
    sort_by_geo_id(&inputs)
}

} // verus!
