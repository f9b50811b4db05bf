use vstd::prelude::*;
use crate::scene::SceneNode;
use crate::geometry::{geometry_in_range, geometry_unskinned, GeoBuilder, Vertex};

verus! {

/// The entry a node leaves in the user list of its mesh: its index and
/// whether it is skinned (then its vertices need the compute pass).
pub open spec fn user_entry(nodes: Seq<SceneNode>, i: usize) -> (usize, bool) {
    (i, nodes[i as int].skin is Some)
}

/// The users of each of `mesh_count` meshes among the first `n` visited
/// nodes, each node listed once, in visit order.
pub open spec fn spec_mesh_users(nodes: Seq<SceneNode>, order: Seq<usize>, mesh_count: nat, n: nat) -> Seq<
    Seq<(usize, bool)>,
>
    decreases n,
{
    if n == 0 {
        Seq::new(mesh_count, |m: int| Seq::<(usize, bool)>::empty())
    } else {
        let prev = spec_mesh_users(nodes, order, mesh_count, (n - 1) as nat);
        let i = order[n - 1];
        match nodes[i as int].mesh {
            Some(m) => if prev[m as int].contains(user_entry(nodes, i)) {
                prev
            } else {
                prev.update(m as int, prev[m as int].push(user_entry(nodes, i)))
            },
            None => prev,
        }
    }
}

/// Lists, per mesh, the visited nodes that draw it and whether each is
/// skinned; a node visited twice is listed once.
pub fn mesh_users(nodes: &[SceneNode], order: &[usize], mesh_count: usize) -> (users: Vec<Vec<(usize, bool)>>)
    requires
        forall|k: int| 0 <= k < order@.len() ==> (#[trigger] order@[k]) < nodes@.len(),
        forall|j: int| 0 <= j < nodes@.len() ==> ((#[trigger] nodes@[j]).mesh matches Some(m) ==> m < mesh_count),
    ensures
        users@.len() == mesh_count,
        forall|m: int| 0 <= m < mesh_count ==> (#[trigger] users@[m])@ == spec_mesh_users(
            nodes@,
            order@,
            mesh_count as nat,
            order@.len(),
        )[m],
{
    let mut users: Vec<Vec<(usize, bool)>> = Vec::new();
    let mut m: usize = 0;
    while m < mesh_count
        invariant
            m <= mesh_count,
            users@.len() == m,
            forall|q: int| 0 <= q < m ==> (#[trigger] users@[q])@ == Seq::<(usize, bool)>::empty(),
        decreases mesh_count - m,
    {
        users.push(Vec::new());
        m += 1;
    }
    let mut k: usize = 0;
    while k < order.len()
        invariant
            k <= order@.len(),
            users@.len() == mesh_count,
            forall|q: int| 0 <= q < order@.len() ==> (#[trigger] order@[q]) < nodes@.len(),
            forall|j: int| 0 <= j < nodes@.len() ==> ((#[trigger] nodes@[j]).mesh matches Some(mm) ==> mm < mesh_count),
            spec_mesh_users(nodes@, order@, mesh_count as nat, k as nat).len() == mesh_count,
            forall|q: int|
                0 <= q < mesh_count ==> (#[trigger] users@[q])@ == spec_mesh_users(nodes@, order@, mesh_count as nat, k as nat)[q],
            forall|q: int, e: int|
                0 <= q < mesh_count && 0 <= e < users@[q]@.len() ==> (#[trigger] users@[q]@[e]).0 < nodes@.len()
                    && users@[q]@[e] == user_entry(nodes@, users@[q]@[e].0),
        decreases order@.len() - k,
    {
        let i = order[k];
        proof {
            assert(order@[k as int] < nodes@.len());
        }
        let ghost prev = spec_mesh_users(nodes@, order@, mesh_count as nat, k as nat);
        match nodes[i].mesh {
            Some(mi) => {
                proof {
                    assert(nodes@[i as int].mesh matches Some(x) ==> x < mesh_count);
                }
                let skinned = nodes[i].skin.is_some();
                let mut list: Vec<(usize, bool)> = Vec::new();
                users.set_and_swap(mi, &mut list);
                let ghost old_users = users@;
                let mut found = false;
                let mut e: usize = 0;
                while e < list.len()
                    invariant
                        e <= list@.len(),
                        list@ == prev[mi as int],
                        i < nodes@.len(),
                        forall|x: int| 0 <= x < list@.len() ==> (#[trigger] list@[x]) == user_entry(nodes@, list@[x].0),
                        found == exists|x: int| 0 <= x < e && (#[trigger] list@[x]).0 == i,
                    decreases list@.len() - e,
                {
                    if list[e].0 == i {
                        found = true;
                    }
                    e += 1;
                }
                proof {
                    if found {
                        let x = choose|x: int| 0 <= x < e && (#[trigger] list@[x]).0 == i;
                        assert(list@[x] == user_entry(nodes@, i));
                        assert(prev[mi as int].contains(user_entry(nodes@, i)));
                    } else {
                        assert forall|x: int| 0 <= x < list@.len() implies #[trigger] list@[x] != user_entry(nodes@, i) by {
                        }
                        assert(!prev[mi as int].contains(user_entry(nodes@, i)));
                    }
                }
                if !found {
                    list.push((i, skinned));
                }
                users.set_and_swap(mi, &mut list);
                proof {
                    let next = spec_mesh_users(nodes@, order@, mesh_count as nat, (k + 1) as nat);
                    assert forall|q: int| 0 <= q < mesh_count implies (#[trigger] users@[q])@ == next[q] by {
                        if q != mi as int {
                            assert(users@[q] == old_users[q]);
                        }
                    }
                }
            },
            None => {},
        }
        k += 1;
    }
    users
}

/// The skinned users of a mesh, in list order.
pub open spec fn skinned_users(e: Seq<(usize, bool)>) -> Seq<usize>
    decreases e.len(),
{
    if e.len() == 0 {
        Seq::empty()
    } else {
        skinned_users(e.drop_last()) + if e.last().1 {
            seq![e.last().0]
        } else {
            Seq::empty()
        }
    }
}

/// Whether some user of a mesh is not skinned.
pub open spec fn has_static_user(e: Seq<(usize, bool)>) -> bool {
    exists|j: int| 0 <= j < e.len() && !(#[trigger] e[j]).1
}

/// What to do with a mesh so that every skinned node drawing it gets
/// vertices of its own: bind the mesh itself to the skin of `in_place`,
/// and give each node of `duplicate` a skinned copy.
#[derive(Debug, Clone)]
pub struct SkinPlan {
    pub in_place: Option<usize>,
    pub duplicate: Vec<usize>,
}

/// The plan for a mesh with users `e`: nothing when no user is skinned;
/// when every user is skinned, the last one takes the mesh itself and the
/// others get copies; otherwise every skinned user gets a copy.
pub open spec fn spec_skin_plan(e: Seq<(usize, bool)>) -> (Option<usize>, Seq<usize>) {
    let s = skinned_users(e);
    if s.len() == 0 {
        (None, Seq::empty())
    } else if !has_static_user(e) {
        (Some(s.last()), s.drop_last())
    } else {
        (None, s)
    }
}

/// Plans the skinning of one mesh from its users, listed in any order.
pub fn skin_plan(users: &[(usize, bool)]) -> (plan: SkinPlan)
    ensures
        (plan.in_place, plan.duplicate@) == spec_skin_plan(users@),
{
    let mut skinned: Vec<usize> = Vec::new();
    let mut has_static = false;
    let mut k: usize = 0;
    while k < users.len()
        invariant
            k <= users@.len(),
            skinned@ == skinned_users(users@.take(k as int)),
            has_static == exists|j: int| 0 <= j < k && !(#[trigger] users@[j]).1,
        decreases users@.len() - k,
    {
        proof {
            assert(users@.take(k + 1).drop_last() =~= users@.take(k as int));
        }
        if users[k].1 {
            skinned.push(users[k].0);
        } else {
            has_static = true;
        }
        k += 1;
        proof {
            assert(skinned@ =~= skinned_users(users@.take(k as int)));
        }
    }
    proof {
        assert(users@.take(k as int) =~= users@);
    }
    if skinned.len() == 0 {
        SkinPlan { in_place: None, duplicate: Vec::new() }
    } else if !has_static {
        let last = skinned.pop().unwrap();
        SkinPlan { in_place: Some(last), duplicate: skinned }
    } else {
        SkinPlan { in_place: None, duplicate: skinned }
    }
}

/// Vertex `k` lies in the range of one of the geometries `ids`.
pub open spec fn in_geometry_ranges<A>(b: &GeoBuilder<A>, ids: Seq<u32>, k: int) -> bool {
    exists|p: int|
        0 <= p < ids.len() && b.offsets@[#[trigger] ids[p] as int]@[0] <= k < b.offsets@[ids[p] as int]@[0]
            + b.len@[ids[p] as int]@[0]
}

/// The vertex ranges of geometries `g` and `h` do not overlap.
pub open spec fn ranges_disjoint<A>(b: &GeoBuilder<A>, g: u32, h: u32) -> bool {
    ||| b.offsets@[g as int]@[0] + b.len@[g as int]@[0] <= b.offsets@[h as int]@[0]
    ||| b.offsets@[h as int]@[0] + b.len@[h as int]@[0] <= b.offsets@[g as int]@[0]
}

/// Binds the vertices of the geometries `ids` (a mesh's primitives) to skin
/// `skin` in place. Their vertices must be unskinned and their ranges apart
/// (the loader asserts each vertex is unskinned when it binds it).
pub fn bind_geometries_to_skin<A: Copy>(geo: &mut GeoBuilder<A>, ids: &[u32], skin: usize)
    requires
        forall|p: int| 0 <= p < ids@.len() ==> geometry_in_range(old(geo), #[trigger] ids@[p] as int),
        forall|p: int| 0 <= p < ids@.len() ==> geometry_unskinned(old(geo), #[trigger] ids@[p] as int),
        forall|p: int, q: int| 0 <= p < q < ids@.len() ==> ranges_disjoint(old(geo), #[trigger] ids@[p], #[trigger] ids@[q]),
    ensures
        final(geo).vertices@.len() == old(geo).vertices@.len(),
        forall|k: int|
            0 <= k < old(geo).vertices@.len() ==> (#[trigger] final(geo).vertices@[k]).attributes == old(
                geo,
            ).vertices@[k].attributes && final(geo).vertices@[k].skin_index == if in_geometry_ranges(old(geo), ids@, k) {
                skin as i32
            } else {
                old(geo).vertices@[k].skin_index
            },
        final(geo).indices@ == old(geo).indices@,
        final(geo).offsets@ == old(geo).offsets@,
        final(geo).len@ == old(geo).len@,
        final(geo).geo_counter == old(geo).geo_counter,
        final(geo).material_id@ == old(geo).material_id@,
        final(geo).opaque@ == old(geo).opaque@,
        final(geo).normal_textures@ == old(geo).normal_textures@,
{
    let ghost g0 = *geo;
    let mut p: usize = 0;
    while p < ids.len()
        invariant
            p <= ids@.len(),
            forall|q: int| 0 <= q < ids@.len() ==> geometry_in_range(&g0, #[trigger] ids@[q] as int),
            forall|q: int| 0 <= q < ids@.len() ==> geometry_unskinned(&g0, #[trigger] ids@[q] as int),
            forall|q: int, r: int| 0 <= q < r < ids@.len() ==> ranges_disjoint(&g0, #[trigger] ids@[q], #[trigger] ids@[r]),
            geo.vertices@.len() == g0.vertices@.len(),
            forall|k: int|
                0 <= k < g0.vertices@.len() ==> (#[trigger] geo.vertices@[k]).attributes == g0.vertices@[k].attributes
                    && geo.vertices@[k].skin_index == if in_geometry_ranges(&g0, ids@.take(p as int), k) {
                    skin as i32
                } else {
                    g0.vertices@[k].skin_index
                },
            geo.indices@ == g0.indices@,
            geo.offsets@ == g0.offsets@,
            geo.len@ == g0.len@,
            geo.geo_counter == g0.geo_counter,
            geo.material_id@ == g0.material_id@,
            geo.opaque@ == g0.opaque@,
            geo.normal_textures@ == g0.normal_textures@,
        decreases ids@.len() - p,
    {
        let g = ids[p];
        let ghost before = geo.vertices@;
        proof {
            assert(geometry_in_range(&g0, ids@[p as int] as int));
            assert(geometry_unskinned(&g0, ids@[p as int] as int));
            assert forall|k: int|
                geo.offsets@[g as int]@[0] <= k < geo.offsets@[g as int]@[0] + geo.len@[g as int]@[0] implies (
                #[trigger] geo.vertices@[k]).skin_index == -1 by {
                assert(g0.vertices@[k].skin_index == -1);
                if in_geometry_ranges(&g0, ids@.take(p as int), k) {
                    let q = choose|q: int|
                        0 <= q < ids@.take(p as int).len() && g0.offsets@[#[trigger] ids@.take(p as int)[q] as int]@[0] <= k
                            < g0.offsets@[ids@.take(p as int)[q] as int]@[0] + g0.len@[ids@.take(p as int)[q] as int]@[0];
                    assert(ids@.take(p as int)[q] == ids@[q]);
                    assert(ranges_disjoint(&g0, ids@[q], ids@[p as int]));
                }
            }
        }
        geo.set_skin_index(g as usize, skin);
        proof {
            assert(ids@.take(p + 1) =~= ids@.take(p as int).push(g));
            assert forall|k: int| 0 <= k < g0.vertices@.len() implies (#[trigger] geo.vertices@[k]).attributes
                == g0.vertices@[k].attributes && geo.vertices@[k].skin_index == if in_geometry_ranges(
                &g0,
                ids@.take(p + 1),
                k,
            ) {
                skin as i32
            } else {
                g0.vertices@[k].skin_index
            } by {
                let in_g = g0.offsets@[g as int]@[0] <= k < g0.offsets@[g as int]@[0] + g0.len@[g as int]@[0];
                if in_g {
                    assert(ids@.take(p + 1)[p as int] == g);
                    assert(in_geometry_ranges(&g0, ids@.take(p + 1), k));
                } else if in_geometry_ranges(&g0, ids@.take(p as int), k) {
                    let q = choose|q: int|
                        0 <= q < ids@.take(p as int).len() && g0.offsets@[#[trigger] ids@.take(p as int)[q] as int]@[0] <= k
                            < g0.offsets@[ids@.take(p as int)[q] as int]@[0] + g0.len@[ids@.take(p as int)[q] as int]@[0];
                    assert(ids@.take(p + 1)[q] == ids@.take(p as int)[q]);
                    assert(in_geometry_ranges(&g0, ids@.take(p + 1), k));
                } else {
                    if in_geometry_ranges(&g0, ids@.take(p + 1), k) {
                        let q = choose|q: int|
                            0 <= q < ids@.take(p + 1).len() && g0.offsets@[#[trigger] ids@.take(p + 1)[q] as int]@[0] <= k
                                < g0.offsets@[ids@.take(p + 1)[q] as int]@[0] + g0.len@[ids@.take(p + 1)[q] as int]@[0];
                        if q < p {
                            assert(ids@.take(p as int)[q] == ids@.take(p + 1)[q]);
                            assert(in_geometry_ranges(&g0, ids@.take(p as int), k));
                        }
                    }
                }
            }
        }
        p += 1;
    }
    proof {
        assert(ids@.take(p as int) =~= ids@);
    }
}

/// `v` with every vertex bound to skin `skin`.
pub open spec fn reskinned<A>(v: Seq<Vertex<A>>, skin: i32) -> Seq<Vertex<A>> {
    v.map_values(|x: Vertex<A>| Vertex { attributes: x.attributes, skin_index: skin })
}

/// The vertices of geometry `g`.
pub open spec fn geometry_vertices<A>(b: &GeoBuilder<A>, g: u32) -> Seq<Vertex<A>> {
    b.vertices@.subrange(b.offsets@[g as int]@[0] as int, b.offsets@[g as int]@[0] + b.len@[g as int]@[0])
}

/// The indices of geometry `g`.
pub open spec fn geometry_indices<A>(b: &GeoBuilder<A>, g: u32) -> Seq<u32> {
    b.indices@.subrange(b.offsets@[g as int]@[1] as int, b.offsets@[g as int]@[1] + b.len@[g as int]@[1])
}

/// The vertices of the geometries `ids`, one after the other, bound to `skin`.
pub open spec fn copied_vertices<A>(b: &GeoBuilder<A>, ids: Seq<u32>, skin: i32) -> Seq<Vertex<A>>
    decreases ids.len(),
{
    if ids.len() == 0 {
        Seq::empty()
    } else {
        copied_vertices(b, ids.drop_last(), skin) + reskinned(geometry_vertices(b, ids.last()), skin)
    }
}

/// The indices of the geometries `ids`, one after the other.
pub open spec fn copied_indices<A>(b: &GeoBuilder<A>, ids: Seq<u32>) -> Seq<u32>
    decreases ids.len(),
{
    if ids.len() == 0 {
        Seq::empty()
    } else {
        copied_indices(b, ids.drop_last()) + geometry_indices(b, ids.last())
    }
}

/// The offset records of copies of the geometries `ids` appended after `v0`
/// vertices and `i0` indices: where each copy starts, and the source's
/// material.
pub open spec fn copy_records_from<A>(b: &GeoBuilder<A>, ids: Seq<u32>, skin: i32, v0: int, i0: int) -> Seq<[u32; 3]> {
    Seq::new(
        ids.len(),
        |p: int|
            [
                (v0 + copied_vertices(b, ids.take(p), skin).len()) as u32,
                (i0 + copied_indices(b, ids.take(p)).len()) as u32,
                b.offsets@[ids[p] as int]@[2],
            ],
    )
}

/// The offset records of copies of the geometries `ids` appended after the
/// current buffers.
pub open spec fn copy_records<A>(b: &GeoBuilder<A>, ids: Seq<u32>, skin: i32) -> Seq<[u32; 3]> {
    copy_records_from(b, ids, skin, b.vertices@.len() as int, b.indices@.len() as int)
}

/// The length records of copies of the geometries `ids`.
pub open spec fn copy_lens<A>(b: &GeoBuilder<A>, ids: Seq<u32>) -> Seq<[usize; 2]> {
    Seq::new(ids.len(), |p: int| b.len@[ids[p] as int])
}

/// The materials of copies of the geometries `ids`.
pub open spec fn copy_materials<A>(b: &GeoBuilder<A>, ids: Seq<u32>) -> Seq<usize> {
    Seq::new(ids.len(), |p: int| b.offsets@[ids[p] as int]@[2] as usize)
}

/// Gives node `node`, which draws mesh `mesh` and is skinned, a copy of the
/// mesh of its own: a new mesh (the next mesh id) whose geometries are
/// skinned copies of the mesh's geometries, with fresh geometry ids.
pub fn duplicate_mesh_for_node<A: Copy>(
    nodes: &mut Vec<SceneNode>,
    meshes: &mut Vec<Vec<u32>>,
    geo: &mut GeoBuilder<A>,
    mesh: usize,
    node: usize,
)
    requires
        node < old(nodes)@.len(),
        old(nodes)@[node as int].mesh == Some(mesh),
        old(nodes)@[node as int].skin is Some,
        mesh < old(meshes)@.len(),
        old(geo).geo_counter + old(meshes)@[mesh as int]@.len() < u32::MAX,
        forall|p: int|
            0 <= p < old(meshes)@[mesh as int]@.len() ==> geometry_in_range(
                old(geo),
                #[trigger] old(meshes)@[mesh as int]@[p] as int,
            ),
        forall|p: int|
            0 <= p < old(meshes)@[mesh as int]@.len() ==> geometry_unskinned(
                old(geo),
                #[trigger] old(meshes)@[mesh as int]@[p] as int,
            ),
    ensures
        ({
            let ids = old(meshes)@[mesh as int]@;
            let skin = old(nodes)@[node as int].skin.unwrap() as i32;
            &&& final(geo).vertices@ == old(geo).vertices@ + copied_vertices(old(geo), ids, skin)
            &&& final(geo).indices@ == old(geo).indices@ + copied_indices(old(geo), ids)
            &&& final(geo).offsets@ == old(geo).offsets@ + copy_records(old(geo), ids, skin)
            &&& final(geo).len@ == old(geo).len@ + copy_lens(old(geo), ids)
            &&& final(geo).material_id@ == old(geo).material_id@ + copy_materials(old(geo), ids)
            &&& final(geo).geo_counter == old(geo).geo_counter + ids.len()
            &&& final(meshes)@.len() == old(meshes)@.len() + 1
            &&& final(meshes)@.subrange(0, old(meshes)@.len() as int) == old(meshes)@
            &&& final(meshes)@[old(meshes)@.len() as int]@ == Seq::new(
                ids.len(),
                |p: int| (old(geo).geo_counter + p) as u32,
            )
        }),
        final(geo).opaque@ == old(geo).opaque@,
        final(geo).normal_textures@ == old(geo).normal_textures@,
        final(nodes)@.len() == old(nodes)@.len(),
        forall|j: int| 0 <= j < old(nodes)@.len() && j != node ==> #[trigger] final(nodes)@[j] == old(nodes)@[j],
        final(nodes)@[node as int].mesh == Some(old(meshes)@.len() as usize),
        final(nodes)@[node as int].children == old(nodes)@[node as int].children,
        final(nodes)@[node as int].skin == old(nodes)@[node as int].skin,
        final(nodes)@[node as int].light == old(nodes)@[node as int].light,
{
    let skin = match nodes[node].skin {
        Some(s) => s,
        None => 0,
    };
    let new_mesh_id = meshes.len();
    let mut tmp = SceneNode { children: Vec::new(), mesh: None, skin: None, light: None };
    nodes.set_and_swap(node, &mut tmp);
    tmp.mesh = Some(new_mesh_id);
    nodes.set_and_swap(node, &mut tmp);
    let ids = &meshes[mesh];
    let ghost g0 = *geo;
    let ghost sk = skin as i32;
    let mut new_ids: Vec<u32> = Vec::new();
    let mut p: usize = 0;
    while p < ids.len()
        invariant
            p <= ids@.len(),
            g0.geo_counter + ids@.len() < u32::MAX,
            sk == skin as i32,
            forall|q: int| 0 <= q < ids@.len() ==> geometry_in_range(&g0, #[trigger] ids@[q] as int),
            forall|q: int| 0 <= q < ids@.len() ==> geometry_unskinned(&g0, #[trigger] ids@[q] as int),
            geo.vertices@ == g0.vertices@ + copied_vertices(&g0, ids@.take(p as int), sk),
            geo.indices@ == g0.indices@ + copied_indices(&g0, ids@.take(p as int)),
            geo.offsets@ == g0.offsets@ + copy_records(&g0, ids@.take(p as int), sk),
            geo.len@ == g0.len@ + copy_lens(&g0, ids@.take(p as int)),
            geo.material_id@ == g0.material_id@ + copy_materials(&g0, ids@.take(p as int)),
            geo.geo_counter == g0.geo_counter + p,
            geo.opaque@ == g0.opaque@,
            geo.normal_textures@ == g0.normal_textures@,
            new_ids@ == Seq::new(p as nat, |q: int| (g0.geo_counter + q) as u32),
        decreases ids@.len() - p,
    {
        let g = ids[p];
        let ghost before = *geo;
        let ghost tp = ids@.take(p as int);
        proof {
            assert(geometry_in_range(&g0, g as int));
            assert(geometry_unskinned(&g0, g as int));
            assert(before.offsets@[g as int] == g0.offsets@[g as int]);
            assert(before.len@[g as int] == g0.len@[g as int]);
            assert forall|k: int|
                before.offsets@[g as int]@[0] <= k < before.offsets@[g as int]@[0] + before.len@[g as int]@[0] implies (
                #[trigger] before.vertices@[k]).skin_index == -1 by {
                assert(before.vertices@[k] == g0.vertices@[k]);
            }
        }
        let id = geo.duplicate_geometry(g as usize, skin);
        new_ids.push(id);
        p += 1;
        proof {
            let tq = ids@.take(p as int);
            assert(tq.drop_last() =~= tp);
            assert(tq.last() == g);
            let src = before.vertices@.subrange(before.offsets@[g as int]@[0] as int, before.offsets@[g as int]@[0] + before.len@[g as int]@[0]);
            assert(src =~= geometry_vertices(&g0, g));
            let added = geo.vertices@.subrange(before.vertices@.len() as int, geo.vertices@.len() as int);
            assert(added =~= reskinned(src, sk));
            assert(geo.vertices@ =~= before.vertices@ + added);
            assert(geo.vertices@ =~= g0.vertices@ + copied_vertices(&g0, tq, sk));
            let isrc = before.indices@.subrange(before.offsets@[g as int]@[1] as int, before.offsets@[g as int]@[1] + before.len@[g as int]@[1]);
            assert(isrc =~= geometry_indices(&g0, g));
            assert(geo.indices@ =~= g0.indices@ + copied_indices(&g0, tq));
            assert(copy_records(&g0, tq, sk) =~= copy_records(&g0, tp, sk).push(
                [before.vertices@.len() as u32, before.indices@.len() as u32, g0.offsets@[g as int]@[2]],
            )) by {
                assert forall|q: int| 0 <= q < tp.len() implies tq.take(q) == tp.take(q) by {
                    assert(tq.take(q) =~= tp.take(q));
                }
                assert(tq.take(tp.len() as int) =~= tp);
            }
            assert(geo.offsets@ =~= g0.offsets@ + copy_records(&g0, tq, sk));
            assert(geo.len@.last() =~= g0.len@[g as int]);
            assert(copy_lens(&g0, tq) =~= copy_lens(&g0, tp).push(g0.len@[g as int]));
            assert(geo.len@ =~= g0.len@ + copy_lens(&g0, tq));
            assert(copy_materials(&g0, tq) =~= copy_materials(&g0, tp).push(g0.offsets@[g as int]@[2] as usize));
            assert(geo.material_id@ =~= g0.material_id@ + copy_materials(&g0, tq));
            assert(new_ids@ =~= Seq::new(p as nat, |q: int| (g0.geo_counter + q) as u32));
        }
    }
    proof {
        assert(ids@.take(p as int) =~= ids@);
    }
    let ghost ids_view = ids@;
    meshes.push(new_ids);
    proof {
        assert(meshes@.subrange(0, new_mesh_id as int) =~= old(meshes)@);
        assert(ids_view == old(meshes)@[mesh as int]@);
    }
}

/// The geometry lists of the meshes as sequences.
pub open spec fn mesh_lists(meshes: Seq<Vec<u32>>) -> Seq<Seq<u32>> {
    meshes.map_values(|v: Vec<u32>| v@)
}

/// The plans as values.
pub open spec fn plan_views(plans: Seq<SkinPlan>) -> Seq<(Option<usize>, Seq<usize>)> {
    plans.map_values(|p: SkinPlan| (p.in_place, p.duplicate@))
}

/// The skin of node `n`, as stored in its vertices.
pub open spec fn skin_of(nodes: Seq<SceneNode>, n: usize) -> i32 {
    nodes[n as int].skin.unwrap() as i32
}

/// The copies the plans of the first `k` meshes ask for, as
/// `(mesh, node)` pairs, mesh by mesh.
pub open spec fn dup_jobs(pv: Seq<(Option<usize>, Seq<usize>)>, k: nat) -> Seq<(usize, usize)>
    decreases k,
{
    if k == 0 {
        Seq::empty()
    } else {
        dup_jobs(pv, (k - 1) as nat) + Seq::new(pv[k - 1].1.len(), |q: int| ((k - 1) as usize, pv[k - 1].1[q]))
    }
}

/// The vertices the copies `jobs` append.
pub open spec fn job_vertices<A>(b: &GeoBuilder<A>, meshes: Seq<Seq<u32>>, nodes: Seq<SceneNode>, jobs: Seq<(usize, usize)>) -> Seq<
    Vertex<A>,
>
    decreases jobs.len(),
{
    if jobs.len() == 0 {
        Seq::empty()
    } else {
        job_vertices(b, meshes, nodes, jobs.drop_last()) + copied_vertices(
            b,
            meshes[jobs.last().0 as int],
            skin_of(nodes, jobs.last().1),
        )
    }
}

/// The indices the copies `jobs` append.
pub open spec fn job_indices<A>(b: &GeoBuilder<A>, meshes: Seq<Seq<u32>>, jobs: Seq<(usize, usize)>) -> Seq<u32>
    decreases jobs.len(),
{
    if jobs.len() == 0 {
        Seq::empty()
    } else {
        job_indices(b, meshes, jobs.drop_last()) + copied_indices(b, meshes[jobs.last().0 as int])
    }
}

/// The offset records the copies `jobs` append.
pub open spec fn job_records<A>(b: &GeoBuilder<A>, meshes: Seq<Seq<u32>>, nodes: Seq<SceneNode>, jobs: Seq<(usize, usize)>) -> Seq<
    [u32; 3],
>
    decreases jobs.len(),
{
    if jobs.len() == 0 {
        Seq::empty()
    } else {
        let prev = jobs.drop_last();
        job_records(b, meshes, nodes, prev) + copy_records_from(
            b,
            meshes[jobs.last().0 as int],
            skin_of(nodes, jobs.last().1),
            (b.vertices@.len() + job_vertices(b, meshes, nodes, prev).len()) as int,
            (b.indices@.len() + job_indices(b, meshes, prev).len()) as int,
        )
    }
}

/// The length records the copies `jobs` append.
pub open spec fn job_lens<A>(b: &GeoBuilder<A>, meshes: Seq<Seq<u32>>, jobs: Seq<(usize, usize)>) -> Seq<[usize; 2]>
    decreases jobs.len(),
{
    if jobs.len() == 0 {
        Seq::empty()
    } else {
        job_lens(b, meshes, jobs.drop_last()) + copy_lens(b, meshes[jobs.last().0 as int])
    }
}

/// The materials of the geometries the copies `jobs` add.
pub open spec fn job_materials<A>(b: &GeoBuilder<A>, meshes: Seq<Seq<u32>>, jobs: Seq<(usize, usize)>) -> Seq<usize>
    decreases jobs.len(),
{
    if jobs.len() == 0 {
        Seq::empty()
    } else {
        job_materials(b, meshes, jobs.drop_last()) + copy_materials(b, meshes[jobs.last().0 as int])
    }
}

/// Number of geometries the copies `jobs` add.
pub open spec fn job_geometries(meshes: Seq<Seq<u32>>, jobs: Seq<(usize, usize)>) -> int
    decreases jobs.len(),
{
    if jobs.len() == 0 {
        0
    } else {
        job_geometries(meshes, jobs.drop_last()) + meshes[jobs.last().0 as int].len()
    }
}

/// The meshes the copies `jobs` add: each lists fresh geometry ids, counted
/// on from `counter`.
pub open spec fn job_meshes(counter: int, meshes: Seq<Seq<u32>>, jobs: Seq<(usize, usize)>) -> Seq<Seq<u32>>
    decreases jobs.len(),
{
    if jobs.len() == 0 {
        Seq::empty()
    } else {
        let prev = jobs.drop_last();
        let base = counter + job_geometries(meshes, prev);
        job_meshes(counter, meshes, prev).push(
            Seq::new(meshes[jobs.last().0 as int].len(), |p: int| (base + p) as u32),
        )
    }
}

/// Mesh `m`, among the first `upto`, is bound in place and vertex `k` lies
/// in one of its geometries.
pub open spec fn bound_at<A>(b: &GeoBuilder<A>, meshes: Seq<Seq<u32>>, pv: Seq<(Option<usize>, Seq<usize>)>, upto: int, m: int, k: int) -> bool {
    0 <= m < upto && pv[m].0 is Some && in_geometry_ranges(b, meshes[m], k)
}

/// The skin of vertex `k` once the meshes among the first `upto` that are
/// bound in place have been bound.
pub open spec fn skin_after_binding<A>(
    b: &GeoBuilder<A>,
    meshes: Seq<Seq<u32>>,
    nodes: Seq<SceneNode>,
    pv: Seq<(Option<usize>, Seq<usize>)>,
    upto: int,
    k: int,
) -> i32 {
    if exists|m: int| bound_at(b, meshes, pv, upto, m, k) {
        skin_of(nodes, pv[choose|m: int| bound_at(b, meshes, pv, upto, m, k)].0.unwrap())
    } else {
        b.vertices@[k].skin_index
    }
}

/// The plans fit the nodes: one plan per mesh; planned nodes draw that mesh
/// and are skinned, and no node is planned for a copy twice.
pub open spec fn plans_fit_nodes(meshes: Seq<Seq<u32>>, nodes: Seq<SceneNode>, pv: Seq<(Option<usize>, Seq<usize>)>) -> bool {
    let jobs = dup_jobs(pv, pv.len());
    &&& pv.len() == meshes.len()
    &&& forall|m: int|
        0 <= m < pv.len() ==> ((#[trigger] pv[m]).0 matches Some(n) ==> n < nodes.len() && nodes[n as int].mesh == Some(
            m as usize,
        ) && nodes[n as int].skin is Some)
    &&& forall|j: int|
        0 <= j < jobs.len() ==> (#[trigger] jobs[j]).1 < nodes.len() && nodes[jobs[j].1 as int].mesh == Some(jobs[j].0)
            && nodes[jobs[j].1 as int].skin is Some
    &&& forall|i: int, j: int| 0 <= i < j < jobs.len() ==> (#[trigger] jobs[i]).1 != (#[trigger] jobs[j]).1
}

/// Every geometry of the meshes is in range and unskinned, and the vertex
/// ranges of different primitives are apart.
pub open spec fn meshes_apart<A>(b: &GeoBuilder<A>, meshes: Seq<Seq<u32>>) -> bool {
    &&& forall|m: int, p: int|
        0 <= m < meshes.len() && 0 <= p < meshes[m].len() ==> geometry_in_range(b, #[trigger] meshes[m][p] as int)
            && geometry_unskinned(b, meshes[m][p] as int)
    &&& forall|m1: int, p1: int, m2: int, p2: int|
        0 <= m1 < meshes.len() && 0 <= p1 < meshes[m1].len() && 0 <= m2 < meshes.len() && 0 <= p2 < meshes[m2].len() && (m1
            != m2 || p1 != p2) ==> ranges_disjoint(b, #[trigger] meshes[m1][p1], #[trigger] meshes[m2][p2])
}

/// Whether geometry `g` is in range and unskinned.
fn geometry_ok<A>(b: &GeoBuilder<A>, g: u32) -> (r: bool)
    ensures
        r == (geometry_in_range(b, g as int) && geometry_unskinned(b, g as int)),
{
    let gi = g as usize;
    if gi >= b.offsets.len() || gi >= b.len.len() {
        return false;
    }
    let o0 = b.offsets[gi][0] as usize;
    let o1 = b.offsets[gi][1] as usize;
    let l0 = b.len[gi][0];
    let l1 = b.len[gi][1];
    if l0 > b.vertices.len() || o0 > b.vertices.len() - l0 || l1 > b.indices.len() || o1 > b.indices.len() - l1 {
        return false;
    }
    let end = o0 + l0;
    let mut k = o0;
    while k < end
        invariant
            o0 == b.offsets@[g as int]@[0],
            l0 == b.len@[g as int]@[0],
            end == o0 + l0,
            end <= b.vertices@.len(),
            o0 <= k <= end,
            forall|j: int| o0 <= j < k ==> (#[trigger] b.vertices@[j]).skin_index == -1,
        decreases end - k,
    {
        if b.vertices[k].skin_index != -1 {
            return false;
        }
        k += 1;
    }
    true
}

/// Whether the vertex ranges of two geometries in range are apart.
fn disjoint<A>(b: &GeoBuilder<A>, g: u32, h: u32) -> (r: bool)
    requires
        geometry_in_range(b, g as int),
        geometry_in_range(b, h as int),
    ensures
        r == ranges_disjoint(b, g, h),
{
    let og = b.offsets[g as usize][0] as usize;
    let lg = b.len[g as usize][0];
    let oh = b.offsets[h as usize][0] as usize;
    let lh = b.len[h as usize][0];
    let n = b.vertices.len();
    assert(og + lg <= n && oh + lh <= n);
    og + lg <= oh || oh + lh <= og
}

/// Whether geometry `p` of mesh `m` is apart from every other geometry of
/// the meshes.
fn apart_from_rest<A>(b: &GeoBuilder<A>, meshes: &Vec<Vec<u32>>, m: usize, p: usize) -> (r: bool)
    requires
        m < meshes@.len(),
        p < meshes@[m as int]@.len(),
        forall|mm: int, pp: int|
            0 <= mm < meshes@.len() && 0 <= pp < meshes@[mm]@.len() ==> geometry_in_range(b, #[trigger] meshes@[mm]@[pp] as int),
    ensures
        r == forall|m2: int, p2: int|
            0 <= m2 < meshes@.len() && 0 <= p2 < meshes@[m2]@.len() && (m2 != m || p2 != p) ==> ranges_disjoint(
                b,
                meshes@[m as int]@[p as int],
                #[trigger] meshes@[m2]@[p2],
            ),
{
    let g = meshes[m][p];
    let mut m2: usize = 0;
    while m2 < meshes.len()
        invariant
            m < meshes@.len(),
            p < meshes@[m as int]@.len(),
            g == meshes@[m as int]@[p as int],
            m2 <= meshes@.len(),
            forall|mm: int, pp: int|
                0 <= mm < meshes@.len() && 0 <= pp < meshes@[mm]@.len() ==> geometry_in_range(b, #[trigger] meshes@[mm]@[pp] as int),
            forall|mm: int, pp: int|
                0 <= mm < m2 && 0 <= pp < meshes@[mm]@.len() && (mm != m || pp != p) ==> ranges_disjoint(
                    b,
                    g,
                    #[trigger] meshes@[mm]@[pp],
                ),
        decreases meshes@.len() - m2,
    {
        let list = &meshes[m2];
        let mut p2: usize = 0;
        while p2 < list.len()
            invariant
                m < meshes@.len(),
                p < meshes@[m as int]@.len(),
                g == meshes@[m as int]@[p as int],
                m2 < meshes@.len(),
                list@ == meshes@[m2 as int]@,
                p2 <= list@.len(),
                forall|mm: int, pp: int|
                    0 <= mm < meshes@.len() && 0 <= pp < meshes@[mm]@.len() ==> geometry_in_range(b, #[trigger] meshes@[mm]@[pp] as int),
                forall|mm: int, pp: int|
                    0 <= mm < m2 && 0 <= pp < meshes@[mm]@.len() && (mm != m || pp != p) ==> ranges_disjoint(
                        b,
                        g,
                        #[trigger] meshes@[mm]@[pp],
                    ),
                forall|pp: int| 0 <= pp < p2 && (m2 != m || pp != p) ==> ranges_disjoint(b, g, #[trigger] list@[pp]),
            decreases list@.len() - p2,
        {
            if m2 != m || p2 != p {
                proof {
                    assert(geometry_in_range(b, meshes@[m as int]@[p as int] as int));
                    assert(geometry_in_range(b, meshes@[m2 as int]@[p2 as int] as int));
                }
                if !disjoint(b, g, list[p2]) {
                    proof {
                        assert(meshes@[m2 as int]@[p2 as int] == list@[p2 as int]);
                    }
                    return false;
                }
            }
            p2 += 1;
        }
        proof {
            assert forall|mm: int, pp: int|
                0 <= mm < m2 + 1 && 0 <= pp < meshes@[mm]@.len() && (mm != m || pp != p) implies ranges_disjoint(
                b,
                g,
                #[trigger] meshes@[mm]@[pp],
            ) by {
                if mm == m2 {
                    assert(meshes@[mm]@[pp] == list@[pp]);
                }
            }
        }
        m2 += 1;
    }
    true
}

/// Whether the geometries of the meshes are in range, unskinned and apart,
/// as giving skinned nodes their own meshes needs.
pub fn check_meshes_apart<A>(geo: &GeoBuilder<A>, meshes: &Vec<Vec<u32>>) -> (r: bool)
    ensures
        r == meshes_apart(geo, mesh_lists(meshes@)),
{
    let ghost ms = mesh_lists(meshes@);
    proof {
        assert forall|m: int| 0 <= m < meshes@.len() implies #[trigger] ms[m] == meshes@[m]@ by {
        }
    }
    let mut m: usize = 0;
    while m < meshes.len()
        invariant
            ms == mesh_lists(meshes@),
            forall|q: int| 0 <= q < meshes@.len() ==> #[trigger] ms[q] == meshes@[q]@,
            m <= meshes@.len(),
            forall|mm: int, pp: int|
                0 <= mm < m && 0 <= pp < meshes@[mm]@.len() ==> geometry_in_range(geo, #[trigger] meshes@[mm]@[pp] as int)
                    && geometry_unskinned(geo, meshes@[mm]@[pp] as int),
        decreases meshes@.len() - m,
    {
        let list = &meshes[m];
        let mut p: usize = 0;
        while p < list.len()
            invariant
                m < meshes@.len(),
                list@ == meshes@[m as int]@,
                p <= list@.len(),
                ms == mesh_lists(meshes@),
                forall|q: int| 0 <= q < meshes@.len() ==> #[trigger] ms[q] == meshes@[q]@,
                forall|mm: int, pp: int|
                    0 <= mm < m && 0 <= pp < meshes@[mm]@.len() ==> geometry_in_range(geo, #[trigger] meshes@[mm]@[pp] as int)
                        && geometry_unskinned(geo, meshes@[mm]@[pp] as int),
                forall|pp: int|
                    0 <= pp < p ==> geometry_in_range(geo, #[trigger] list@[pp] as int) && geometry_unskinned(
                        geo,
                        list@[pp] as int,
                    ),
            decreases list@.len() - p,
        {
            if !geometry_ok(geo, list[p]) {
                proof {
                    assert(ms[m as int] == meshes@[m as int]@);
                    assert(ms[m as int][p as int] == list@[p as int]);
                    assert(!meshes_apart(geo, mesh_lists(meshes@)));
                }
                return false;
            }
            p += 1;
        }
        proof {
            assert forall|mm: int, pp: int|
                0 <= mm < m + 1 && 0 <= pp < meshes@[mm]@.len() implies geometry_in_range(
                geo,
                #[trigger] meshes@[mm]@[pp] as int,
            ) && geometry_unskinned(geo, meshes@[mm]@[pp] as int) by {
                if mm == m {
                    assert(meshes@[mm]@[pp] == list@[pp]);
                }
            }
        }
        m += 1;
    }
    let mut m1: usize = 0;
    while m1 < meshes.len()
        invariant
            ms == mesh_lists(meshes@),
            forall|q: int| 0 <= q < meshes@.len() ==> #[trigger] ms[q] == meshes@[q]@,
            m1 <= meshes@.len(),
            forall|mm: int, pp: int|
                0 <= mm < meshes@.len() && 0 <= pp < meshes@[mm]@.len() ==> geometry_in_range(geo, #[trigger] meshes@[mm]@[pp] as int)
                    && geometry_unskinned(geo, meshes@[mm]@[pp] as int),
            forall|a: int, b: int, c: int, d: int|
                0 <= a < m1 && 0 <= b < meshes@[a]@.len() && 0 <= c < meshes@.len() && 0 <= d < meshes@[c]@.len() && (a != c
                    || b != d) ==> ranges_disjoint(geo, #[trigger] meshes@[a]@[b], #[trigger] meshes@[c]@[d]),
        decreases meshes@.len() - m1,
    {
        let n1 = meshes[m1].len();
        let mut p1: usize = 0;
        while p1 < n1
            invariant
                m1 < meshes@.len(),
                n1 == meshes@[m1 as int]@.len(),
                p1 <= n1,
                forall|mm: int, pp: int|
                    0 <= mm < meshes@.len() && 0 <= pp < meshes@[mm]@.len() ==> geometry_in_range(geo, #[trigger] meshes@[mm]@[pp] as int)
                        && geometry_unskinned(geo, meshes@[mm]@[pp] as int),
                forall|a: int, b: int, c: int, d: int|
                    0 <= a < m1 && 0 <= b < meshes@[a]@.len() && 0 <= c < meshes@.len() && 0 <= d < meshes@[c]@.len() && (a
                        != c || b != d) ==> ranges_disjoint(geo, #[trigger] meshes@[a]@[b], #[trigger] meshes@[c]@[d]),
                forall|b: int, c: int, d: int|
                    0 <= b < p1 && 0 <= c < meshes@.len() && 0 <= d < meshes@[c]@.len() && (m1 != c || b != d) ==> ranges_disjoint(
                        geo,
                        #[trigger] meshes@[m1 as int]@[b],
                        #[trigger] meshes@[c]@[d],
                    ),
            decreases n1 - p1,
        {
            if !apart_from_rest(geo, meshes, m1, p1) {
                proof {
                    let ms_ = mesh_lists(meshes@);
                    assert(!meshes_apart(geo, ms_)) by {
                        let (c, d) = choose|c: int, d: int|
                            0 <= c < meshes@.len() && 0 <= d < meshes@[c]@.len() && (c != m1 || d != p1) && !ranges_disjoint(
                                geo,
                                meshes@[m1 as int]@[p1 as int],
                                #[trigger] meshes@[c]@[d],
                            );
                        assert(ms_[m1 as int][p1 as int] == meshes@[m1 as int]@[p1 as int]);
                        assert(ms_[c][d] == meshes@[c]@[d]);
                    }
                }
                return false;
            }
            p1 += 1;
        }
        proof {
            assert forall|a: int, b: int, c: int, d: int|
                0 <= a < m1 + 1 && 0 <= b < meshes@[a]@.len() && 0 <= c < meshes@.len() && 0 <= d < meshes@[c]@.len() && (a
                    != c || b != d) implies ranges_disjoint(geo, #[trigger] meshes@[a]@[b], #[trigger] meshes@[c]@[d]) by {
            }
        }
        m1 += 1;
    }
    proof {
        assert forall|m: int, p: int| 0 <= m < ms.len() && 0 <= p < ms[m].len() implies geometry_in_range(
            geo,
            #[trigger] ms[m][p] as int,
        ) && geometry_unskinned(geo, ms[m][p] as int) by {
            assert(ms[m] == meshes@[m]@);
        }
        assert forall|a: int, b: int, c: int, d: int|
            0 <= a < ms.len() && 0 <= b < ms[a].len() && 0 <= c < ms.len() && 0 <= d < ms[c].len() && (a != c || b != d)
                implies ranges_disjoint(geo, #[trigger] ms[a][b], #[trigger] ms[c][d]) by {
            assert(ms[a] == meshes@[a]@);
            assert(ms[c] == meshes@[c]@);
        }
    }
    true
}

/// A mesh bound in place is copied only when its geometries have no
/// vertices (copying reads the vertices back as unskinned, which the
/// loader asserts), and the fresh geometry ids fit.
pub open spec fn copies_possible<A>(b: &GeoBuilder<A>, meshes: Seq<Seq<u32>>, pv: Seq<(Option<usize>, Seq<usize>)>) -> bool {
    &&& forall|m: int|
        0 <= m < pv.len() && (#[trigger] pv[m]).0 is Some && pv[m].1.len() > 0 ==> forall|p: int|
            0 <= p < meshes[m].len() ==> b.len@[#[trigger] meshes[m][p] as int]@[0] == 0
    &&& b.geo_counter + job_geometries(meshes, dup_jobs(pv, pv.len())) < u32::MAX
}

/// What applying the plans needs.
pub open spec fn plans_apply<A>(
    b: &GeoBuilder<A>,
    meshes: Seq<Seq<u32>>,
    nodes: Seq<SceneNode>,
    pv: Seq<(Option<usize>, Seq<usize>)>,
) -> bool {
    &&& plans_fit_nodes(meshes, nodes, pv)
    &&& meshes_apart(b, meshes)
    &&& copies_possible(b, meshes, pv)
}

/// The state reached from builder `g0`, meshes `ms` and nodes `nd` once the
/// meshes before `upto` are bound in place as planned and the copies `jobs`
/// are made: bound vertices carry their node's skin, copies are appended to
/// the buffers and tables, each copy is a new mesh, and the copied node
/// draws it.
pub open spec fn applied<A>(
    g0: &GeoBuilder<A>,
    ms: Seq<Seq<u32>>,
    nd: Seq<SceneNode>,
    pv: Seq<(Option<usize>, Seq<usize>)>,
    geo: &GeoBuilder<A>,
    meshes: Seq<Seq<u32>>,
    nodes: Seq<SceneNode>,
    upto: int,
    jobs: Seq<(usize, usize)>,
) -> bool {
    &&& geo.vertices@.len() == g0.vertices@.len() + job_vertices(g0, ms, nd, jobs).len()
    &&& forall|k: int|
        0 <= k < g0.vertices@.len() ==> (#[trigger] geo.vertices@[k]).attributes == g0.vertices@[k].attributes
            && geo.vertices@[k].skin_index == skin_after_binding(g0, ms, nd, pv, upto, k)
    &&& geo.vertices@.subrange(g0.vertices@.len() as int, geo.vertices@.len() as int) == job_vertices(g0, ms, nd, jobs)
    &&& geo.indices@ == g0.indices@ + job_indices(g0, ms, jobs)
    &&& geo.offsets@ == g0.offsets@ + job_records(g0, ms, nd, jobs)
    &&& geo.len@ == g0.len@ + job_lens(g0, ms, jobs)
    &&& geo.material_id@ == g0.material_id@ + job_materials(g0, ms, jobs)
    &&& geo.geo_counter == g0.geo_counter + job_geometries(ms, jobs)
    &&& geo.opaque@ == g0.opaque@
    &&& geo.normal_textures@ == g0.normal_textures@
    &&& meshes == ms + job_meshes(g0.geo_counter as int, ms, jobs)
    &&& nodes.len() == nd.len()
    &&& forall|j: int| 0 <= j < jobs.len() ==> nodes[(#[trigger] jobs[j]).1 as int].mesh == Some((ms.len() + j) as usize)
    &&& forall|n: int|
        0 <= n < nd.len() && (forall|j: int| 0 <= j < jobs.len() ==> (#[trigger] jobs[j]).1 != n) ==> (
        #[trigger] nodes[n]).mesh == nd[n].mesh
    &&& forall|n: int|
        0 <= n < nd.len() ==> (#[trigger] nodes[n]).children == nd[n].children && nodes[n].skin == nd[n].skin
            && nodes[n].light == nd[n].light
}

/// Builders `cur` and `old` hold the same data for the geometries `ids`.
pub open spec fn agree_on<A>(cur: &GeoBuilder<A>, old: &GeoBuilder<A>, ids: Seq<u32>) -> bool {
    forall|p: int|
        0 <= p < ids.len() ==> (#[trigger] ids[p]) < old.offsets@.len() && ids[p] < old.len@.len() && ids[p]
            < cur.offsets@.len() && ids[p] < cur.len@.len() && cur.offsets@[ids[p] as int] == old.offsets@[ids[p] as int]
            && cur.len@[ids[p] as int] == old.len@[ids[p] as int] && geometry_vertices(cur, ids[p]) == geometry_vertices(
            old,
            ids[p],
        ) && geometry_indices(cur, ids[p]) == geometry_indices(old, ids[p])
}

proof fn lemma_copies_agree<A>(cur: &GeoBuilder<A>, old: &GeoBuilder<A>, ids: Seq<u32>, skin: i32)
    requires
        agree_on(cur, old, ids),
    ensures
        copied_vertices(cur, ids, skin) == copied_vertices(old, ids, skin),
        copied_indices(cur, ids) == copied_indices(old, ids),
        copy_lens(cur, ids) == copy_lens(old, ids),
        copy_materials(cur, ids) == copy_materials(old, ids),
        copy_records(cur, ids, skin) == copy_records_from(
            old,
            ids,
            skin,
            cur.vertices@.len() as int,
            cur.indices@.len() as int,
        ),
    decreases ids.len(),
{
    if ids.len() > 0 {
        let d = ids.drop_last();
        assert(agree_on(cur, old, d)) by {
            assert forall|p: int| 0 <= p < d.len() implies #[trigger] d[p] == ids[p] by {
            }
        }
        lemma_copies_agree(cur, old, d, skin);
        assert(agree_on(cur, old, ids));
        assert(ids[ids.len() - 1] == ids.last());
    }
    assert(copy_lens(cur, ids) =~= copy_lens(old, ids));
    assert(copy_materials(cur, ids) =~= copy_materials(old, ids));
    assert forall|p: int| 0 <= p < ids.len() implies copied_vertices(cur, #[trigger] ids.take(p), skin) == copied_vertices(
        old,
        ids.take(p),
        skin,
    ) && copied_indices(cur, ids.take(p)) == copied_indices(old, ids.take(p)) by {
        let t = ids.take(p);
        assert(agree_on(cur, old, t)) by {
            assert forall|q: int| 0 <= q < t.len() implies #[trigger] t[q] == ids[q] by {
            }
        }
        lemma_copies_agree(cur, old, t, skin);
    }
    assert(copy_records(cur, ids, skin) =~= copy_records_from(
        old,
        ids,
        skin,
        cur.vertices@.len() as int,
        cur.indices@.len() as int,
    ));
}

proof fn lemma_dup_jobs_prefix(pv: Seq<(Option<usize>, Seq<usize>)>, k: nat, n: nat, j: int)
    requires
        k <= n,
        0 <= j < dup_jobs(pv, k).len(),
    ensures
        j < dup_jobs(pv, n).len(),
        dup_jobs(pv, n)[j] == dup_jobs(pv, k)[j],
    decreases n - k,
{
    if k < n {
        lemma_dup_jobs_prefix(pv, k, (n - 1) as nat, j);
    }
}

proof fn lemma_dup_jobs_mesh(pv: Seq<(Option<usize>, Seq<usize>)>, k: nat, j: int)
    requires
        k <= pv.len() <= usize::MAX,
        0 <= j < dup_jobs(pv, k).len(),
    ensures
        dup_jobs(pv, k)[j].0 < k,
        pv[dup_jobs(pv, k)[j].0 as int].1.contains(dup_jobs(pv, k)[j].1),
    decreases k,
{
    if k > 0 {
        let prev = dup_jobs(pv, (k - 1) as nat);
        if j < prev.len() {
            lemma_dup_jobs_mesh(pv, (k - 1) as nat, j);
        } else {
            let q = j - prev.len();
            assert(dup_jobs(pv, k)[j] == ((k - 1) as usize, pv[k - 1].1[q]));
            assert(((k - 1) as usize) as int == k - 1);
            assert(pv[k - 1].1[q] == dup_jobs(pv, k)[j].1);
        }
    }
}

proof fn lemma_dup_jobs_len_monotone(pv: Seq<(Option<usize>, Seq<usize>)>, k: nat, n: nat)
    requires
        k <= n,
    ensures
        dup_jobs(pv, k).len() <= dup_jobs(pv, n).len(),
    decreases n - k,
{
    if k < n {
        lemma_dup_jobs_len_monotone(pv, k, (n - 1) as nat);
    }
}

proof fn lemma_job_geometries_prefix(meshes: Seq<Seq<u32>>, jobs: Seq<(usize, usize)>, i: int)
    requires
        0 <= i <= jobs.len(),
    ensures
        0 <= job_geometries(meshes, jobs.take(i)) <= job_geometries(meshes, jobs),
    decreases jobs.len() - i,
{
    if i < jobs.len() {
        lemma_job_geometries_prefix(meshes, jobs, i + 1);
        assert(jobs.take(i + 1).drop_last() =~= jobs.take(i));
        lemma_job_geometries_nonneg(meshes, jobs.take(i));
    } else {
        assert(jobs.take(i) =~= jobs);
        lemma_job_geometries_nonneg(meshes, jobs);
    }
}

proof fn lemma_job_geometries_nonneg(meshes: Seq<Seq<u32>>, jobs: Seq<(usize, usize)>)
    ensures
        job_geometries(meshes, jobs) >= 0,
    decreases jobs.len(),
{
    if jobs.len() > 0 {
        lemma_job_geometries_nonneg(meshes, jobs.drop_last());
    }
}

proof fn lemma_bound_unique<A>(
    g0: &GeoBuilder<A>,
    ms: Seq<Seq<u32>>,
    nd: Seq<SceneNode>,
    pv: Seq<(Option<usize>, Seq<usize>)>,
    upto: int,
    m1: int,
    m2: int,
    k: int,
)
    requires
        plans_apply(g0, ms, nd, pv),
        upto <= pv.len(),
        bound_at(g0, ms, pv, upto, m1, k),
        bound_at(g0, ms, pv, upto, m2, k),
    ensures
        m1 == m2,
{
    if m1 != m2 {
        let p1 = choose|p: int|
            0 <= p < ms[m1].len() && g0.offsets@[#[trigger] ms[m1][p] as int]@[0] <= k < g0.offsets@[ms[m1][p] as int]@[0]
                + g0.len@[ms[m1][p] as int]@[0];
        let p2 = choose|p: int|
            0 <= p < ms[m2].len() && g0.offsets@[#[trigger] ms[m2][p] as int]@[0] <= k < g0.offsets@[ms[m2][p] as int]@[0]
                + g0.len@[ms[m2][p] as int]@[0];
        assert(ranges_disjoint(g0, ms[m1][p1], ms[m2][p2]));
    }
}

proof fn lemma_binding_step<A>(
    g0: &GeoBuilder<A>,
    ms: Seq<Seq<u32>>,
    nd: Seq<SceneNode>,
    pv: Seq<(Option<usize>, Seq<usize>)>,
    m: int,
    k: int,
)
    requires
        plans_apply(g0, ms, nd, pv),
        0 <= m < pv.len(),
    ensures
        skin_after_binding(g0, ms, nd, pv, m + 1, k) == if pv[m].0 is Some && in_geometry_ranges(g0, ms[m], k) {
            skin_of(nd, pv[m].0.unwrap())
        } else {
            skin_after_binding(g0, ms, nd, pv, m, k)
        },
{
    let u = m + 1;
    if pv[m].0 is Some && in_geometry_ranges(g0, ms[m], k) {
        assert(bound_at(g0, ms, pv, u, m, k));
        let c = choose|x: int| bound_at(g0, ms, pv, u, x, k);
        lemma_bound_unique(g0, ms, nd, pv, u, c, m, k);
    } else {
        if exists|x: int| bound_at(g0, ms, pv, u, x, k) {
            let c = choose|x: int| bound_at(g0, ms, pv, u, x, k);
            assert(c != m);
            assert(bound_at(g0, ms, pv, m, c, k));
            let c2 = choose|x: int| bound_at(g0, ms, pv, m, x, k);
            lemma_bound_unique(g0, ms, nd, pv, u, c, c2, k);
        } else {
            assert forall|x: int| !bound_at(g0, ms, pv, m, x, k) by {
                if bound_at(g0, ms, pv, m, x, k) {
                    assert(bound_at(g0, ms, pv, u, x, k));
                }
            }
        }
    }
}

proof fn lemma_job_meshes_len(counter: int, meshes: Seq<Seq<u32>>, jobs: Seq<(usize, usize)>)
    ensures
        job_meshes(counter, meshes, jobs).len() == jobs.len(),
    decreases jobs.len(),
{
    if jobs.len() > 0 {
        lemma_job_meshes_len(counter, meshes, jobs.drop_last());
    }
}

/// Applies the skinning plans, mesh by mesh: binds each mesh planned in
/// place to the skin of its node, then gives each node planned for a copy a
/// skinned copy of the mesh.
#[verifier::rlimit(60)]
pub fn apply_skin_plans<A: Copy>(
    nodes: &mut Vec<SceneNode>,
    meshes: &mut Vec<Vec<u32>>,
    geo: &mut GeoBuilder<A>,
    plans: &[SkinPlan],
)
    requires
        plans_apply(old(geo), mesh_lists(old(meshes)@), old(nodes)@, plan_views(plans@)),
    ensures
        applied(
            old(geo),
            mesh_lists(old(meshes)@),
            old(nodes)@,
            plan_views(plans@),
            final(geo),
            mesh_lists(final(meshes)@),
            final(nodes)@,
            plans@.len() as int,
            dup_jobs(plan_views(plans@), plans@.len()),
        ),
{
    let ghost g0 = *geo;
    let ghost ms = mesh_lists(meshes@);
    let ghost nd = nodes@;
    let ghost pv = plan_views(plans@);
    let ghost all_jobs = dup_jobs(pv, pv.len());
    let mesh_count = meshes.len();
    proof {
        assert(job_vertices(&g0, ms, nd, dup_jobs(pv, 0)) =~= Seq::empty());
        assert(geo.vertices@.subrange(g0.vertices@.len() as int, geo.vertices@.len() as int) =~= Seq::<Vertex<A>>::empty());
        assert(geo.indices@ =~= g0.indices@ + job_indices(&g0, ms, dup_jobs(pv, 0)));
        assert(geo.offsets@ =~= g0.offsets@ + job_records(&g0, ms, nd, dup_jobs(pv, 0)));
        assert(geo.len@ =~= g0.len@ + job_lens(&g0, ms, dup_jobs(pv, 0)));
        assert(geo.material_id@ =~= g0.material_id@ + job_materials(&g0, ms, dup_jobs(pv, 0)));
        assert(mesh_lists(meshes@) =~= ms + job_meshes(g0.geo_counter as int, ms, dup_jobs(pv, 0)));
        assert forall|k: int| 0 <= k < g0.vertices@.len() implies skin_after_binding(&g0, ms, nd, pv, 0, k)
            == g0.vertices@[k].skin_index by {
            assert(!exists|x: int| bound_at(&g0, ms, pv, 0, x, k));
        }
    }
    let mut m: usize = 0;
    while m < mesh_count
        invariant
            mesh_count == ms.len(),
            pv == plan_views(plans@),
            all_jobs == dup_jobs(pv, pv.len()),
            plans_apply(&g0, ms, nd, pv),
            m <= mesh_count,
            applied(&g0, ms, nd, pv, geo, mesh_lists(meshes@), nodes@, m as int, dup_jobs(pv, m as nat)),
        decreases mesh_count - m,
    {
        proof {
            assert(pv[m as int] == (plans@[m as int].in_place, plans@[m as int].duplicate@));
            assert(mesh_lists(meshes@)[m as int] == ms[m as int]);
        }
        let jobs_before = Ghost(dup_jobs(pv, m as nat));
        let ghost u: int = m + 1;
        match plans[m].in_place {
            Some(n) => {
                let skin: usize = match nodes[n].skin {
                    Some(s) => s,
                    None => 0,
                };
                let ghost before = *geo;
                proof {
                    assert(mesh_lists(meshes@).len() == meshes@.len());
                    assert(mesh_lists(meshes@)[m as int] == meshes@[m as int]@);
                }
                let ids = &meshes[m];
                proof {
                    assert(ids@ == ms[m as int]);
                    assert forall|p: int| 0 <= p < ids@.len() implies geometry_in_range(&before, #[trigger] ids@[p] as int)
                        && geometry_unskinned(&before, ids@[p] as int) by {
                        let g = ids@[p];
                        assert(geometry_in_range(&g0, ms[m as int][p] as int));
                        assert(geometry_unskinned(&g0, ms[m as int][p] as int));
                        assert(before.offsets@[g as int] == g0.offsets@[g as int]);
                        assert(before.len@[g as int] == g0.len@[g as int]);
                        assert forall|k: int|
                            before.offsets@[g as int]@[0] <= k < before.offsets@[g as int]@[0] + before.len@[g as int]@[0] implies (
                            #[trigger] before.vertices@[k]).skin_index == -1 by {
                            if exists|x: int| bound_at(&g0, ms, pv, m as int, x, k) {
                                let c = choose|x: int| bound_at(&g0, ms, pv, m as int, x, k);
                                assert(bound_at(&g0, ms, pv, u, m as int, k));
                                assert(bound_at(&g0, ms, pv, u, c, k));
                                lemma_bound_unique(&g0, ms, nd, pv, u, c, m as int, k);
                            }
                        }
                    }
                    assert forall|p: int, q: int| 0 <= p < q < ids@.len() implies ranges_disjoint(
                        &before,
                        #[trigger] ids@[p],
                        #[trigger] ids@[q],
                    ) by {
                        assert(ranges_disjoint(&g0, ms[m as int][p], ms[m as int][q]));
                        assert(geometry_in_range(&g0, ms[m as int][p] as int));
                        assert(geometry_in_range(&g0, ms[m as int][q] as int));
                    }
                }
                bind_geometries_to_skin(geo, ids, skin);
                proof {
                    assert(nd[n as int].skin is Some);
                    assert(nodes@[n as int].skin == nd[n as int].skin);
                    assert(skin as i32 == skin_of(nd, n));
                    assert forall|k: int| 0 <= k < g0.vertices@.len() implies (#[trigger] geo.vertices@[k]).attributes
                        == g0.vertices@[k].attributes && geo.vertices@[k].skin_index == skin_after_binding(
                        &g0,
                        ms,
                        nd,
                        pv,
                        m + 1,
                        k,
                    ) by {
                        lemma_binding_step(&g0, ms, nd, pv, m as int, k);
                        if in_geometry_ranges(&before, ids@, k) {
                            let p = choose|p: int|
                                0 <= p < ids@.len() && before.offsets@[#[trigger] ids@[p] as int]@[0] <= k
                                    < before.offsets@[ids@[p] as int]@[0] + before.len@[ids@[p] as int]@[0];
                            assert(geometry_in_range(&g0, ms[m as int][p] as int));
                            assert(in_geometry_ranges(&g0, ms[m as int], k));
                        } else {
                            if in_geometry_ranges(&g0, ms[m as int], k) {
                                let p = choose|p: int|
                                    0 <= p < ms[m as int].len() && g0.offsets@[#[trigger] ms[m as int][p] as int]@[0] <= k
                                        < g0.offsets@[ms[m as int][p] as int]@[0] + g0.len@[ms[m as int][p] as int]@[0];
                                assert(geometry_in_range(&g0, ms[m as int][p] as int));
                                assert(in_geometry_ranges(&before, ids@, k));
                            }
                        }
                    }
                    assert forall|k: int| g0.vertices@.len() <= k < geo.vertices@.len() implies #[trigger] geo.vertices@[k]
                        == before.vertices@[k] by {
                        if in_geometry_ranges(&before, ids@, k) {
                            let p = choose|p: int|
                                0 <= p < ids@.len() && before.offsets@[#[trigger] ids@[p] as int]@[0] <= k
                                    < before.offsets@[ids@[p] as int]@[0] + before.len@[ids@[p] as int]@[0];
                            assert(geometry_in_range(&g0, ms[m as int][p] as int));
                        }
                    }
                    assert(geo.vertices@.subrange(g0.vertices@.len() as int, geo.vertices@.len() as int)
                        =~= before.vertices@.subrange(g0.vertices@.len() as int, before.vertices@.len() as int));
                }
            },
            None => {
                proof {
                    assert forall|k: int| 0 <= k < g0.vertices@.len() implies skin_after_binding(&g0, ms, nd, pv, m + 1, k)
                        == skin_after_binding(&g0, ms, nd, pv, m as int, k) by {
                        lemma_binding_step(&g0, ms, nd, pv, m as int, k);
                    }
                }
            },
        }
        proof {
            assert(applied(&g0, ms, nd, pv, geo, mesh_lists(meshes@), nodes@, m + 1, jobs_before@));
        }
        let dups = &plans[m].duplicate;
        let ghost block = Seq::new(dups@.len(), |q: int| (m, dups@[q]));
        let mut q: usize = 0;
        while q < dups.len()
            invariant
                mesh_count == ms.len(),
                m < mesh_count,
                pv == plan_views(plans@),
                pv[m as int].1 == dups@,
                all_jobs == dup_jobs(pv, pv.len()),
                plans_apply(&g0, ms, nd, pv),
                jobs_before@ == dup_jobs(pv, m as nat),
                block == Seq::new(dups@.len(), |r: int| (m, dups@[r])),
                dup_jobs(pv, (m + 1) as nat) == jobs_before@ + block,
                q <= dups@.len(),
                u == m + 1,
                applied(&g0, ms, nd, pv, geo, mesh_lists(meshes@), nodes@, m + 1, jobs_before@ + block.take(q as int)),
            decreases dups@.len() - q,
        {
            let n = dups[q];
            let ghost jobs = jobs_before@ + block.take(q as int);
            let ghost j = jobs.len() as int;
            let ghost before = *geo;
            let ghost meshes_before = mesh_lists(meshes@);
            let ghost nodes_before = nodes@;
            proof {
                assert(jobs + seq![(m, n)] =~= jobs_before@ + block.take(q + 1));
                lemma_dup_jobs_len_monotone(pv, (m + 1) as nat, pv.len());
                lemma_dup_jobs_prefix(pv, (m + 1) as nat, pv.len(), j);
                assert(dup_jobs(pv, (m + 1) as nat)[j] == (m, n));
                assert(all_jobs[j] == (m, n));
                assert forall|i: int| 0 <= i < jobs.len() implies (#[trigger] jobs[i]).1 != n by {
                    lemma_dup_jobs_prefix(pv, (m + 1) as nat, pv.len(), i);
                    assert(jobs[i] == dup_jobs(pv, (m + 1) as nat)[i]);
                    assert(all_jobs[i] == jobs[i]);
                }
                assert(nodes@[n as int].mesh == nd[n as int].mesh);
                assert(meshes_before[m as int] == ms[m as int]);
                assert(meshes_before.len() == meshes@.len());
                lemma_job_meshes_len(g0.geo_counter as int, ms, jobs);
                assert(meshes_before.len() == ms.len() + jobs.len());
                lemma_job_geometries_prefix(ms, all_jobs, j + 1);
                assert forall|i: int| 0 <= i < j + 1 implies #[trigger] all_jobs.take(j + 1)[i] == jobs.push((m, n))[i] by {
                    lemma_dup_jobs_prefix(pv, (m + 1) as nat, pv.len(), i);
                    if i < j {
                        assert(jobs[i] == (jobs_before@ + block)[i]);
                    }
                }
                assert(all_jobs.take(j + 1) =~= jobs.push((m, n)));
                assert(jobs.push((m, n)).drop_last() =~= jobs);
                assert forall|p: int| 0 <= p < ms[m as int].len() implies geometry_in_range(&before, #[trigger] ms[m as int][p] as int)
                    && geometry_unskinned(&before, ms[m as int][p] as int) && before.offsets@[ms[m as int][p] as int]
                    == g0.offsets@[ms[m as int][p] as int] && before.len@[ms[m as int][p] as int] == g0.len@[ms[m as int][p] as int]
                    by {
                    let g = ms[m as int][p];
                    assert(geometry_in_range(&g0, g as int));
                    assert(geometry_unskinned(&g0, g as int));
                    assert forall|k: int|
                        before.offsets@[g as int]@[0] <= k < before.offsets@[g as int]@[0] + before.len@[g as int]@[0] implies (
                        #[trigger] before.vertices@[k]).skin_index == -1 by {
                        if exists|x: int| bound_at(&g0, ms, pv, u, x, k) {
                            let c = choose|x: int| bound_at(&g0, ms, pv, u, x, k);
                            if c == m {
                                assert(pv[m as int].1.len() > 0);
                                assert(g0.len@[g as int]@[0] == 0);
                            } else {
                                let pc = choose|pp: int|
                                    0 <= pp < ms[c].len() && g0.offsets@[#[trigger] ms[c][pp] as int]@[0] <= k
                                        < g0.offsets@[ms[c][pp] as int]@[0] + g0.len@[ms[c][pp] as int]@[0];
                                assert(0 <= c < ms.len());
                                assert(0 <= pc < ms[c].len());
                                assert(before.offsets@[g as int] == g0.offsets@[g as int]);
                                assert(before.len@[g as int] == g0.len@[g as int]);
                                assert(ranges_disjoint(&g0, ms[c][pc], ms[m as int][p]));
                            }
                        }
                    }
                }
            }
            duplicate_mesh_for_node(nodes, meshes, geo, m, n);
            q += 1;
            proof {
                let ids = ms[m as int];
                let sk = skin_of(nd, n);
                assert(nodes_before[n as int].skin == nd[n as int].skin);
                assert(agree_on(&before, &g0, ids)) by {
                    assert forall|p: int| 0 <= p < ids.len() implies geometry_vertices(&before, #[trigger] ids[p])
                        == geometry_vertices(&g0, ids[p]) && geometry_indices(&before, ids[p]) == geometry_indices(&g0, ids[p]) by {
                        let g = ids[p];
                        assert(geometry_in_range(&g0, g as int));
                        assert(geometry_unskinned(&g0, g as int));
                        assert(geometry_vertices(&before, g) =~= geometry_vertices(&g0, g)) by {
                            assert forall|k: int|
                                g0.offsets@[g as int]@[0] <= k < g0.offsets@[g as int]@[0] + g0.len@[g as int]@[0] implies #[trigger] before.vertices@[k]
                                == g0.vertices@[k] by {
                                assert(before.vertices@[k].skin_index == -1);
                            }
                        }
                        assert(geometry_indices(&before, g) =~= geometry_indices(&g0, g));
                    }
                }
                lemma_copies_agree(&before, &g0, ids, sk);
                let jobs2 = jobs.push((m, n));
                assert(jobs_before@ + block.take(q as int) =~= jobs2);
                assert(jobs2.drop_last() =~= jobs);
                assert(geo.vertices@.subrange(g0.vertices@.len() as int, geo.vertices@.len() as int) =~= job_vertices(
                    &g0,
                    ms,
                    nd,
                    jobs2,
                ));
                assert(geo.indices@ =~= g0.indices@ + job_indices(&g0, ms, jobs2));
                assert(geo.offsets@ =~= g0.offsets@ + job_records(&g0, ms, nd, jobs2));
                assert(geo.len@ =~= g0.len@ + job_lens(&g0, ms, jobs2));
                assert(geo.material_id@ =~= g0.material_id@ + job_materials(&g0, ms, jobs2));
                assert(mesh_lists(meshes@) =~= meshes_before.push(
                    Seq::new(ids.len(), |p: int| (before.geo_counter + p) as u32),
                ));
                assert(mesh_lists(meshes@) =~= ms + job_meshes(g0.geo_counter as int, ms, jobs2));
                assert forall|k: int| 0 <= k < g0.vertices@.len() implies (#[trigger] geo.vertices@[k]).attributes
                    == g0.vertices@[k].attributes && geo.vertices@[k].skin_index == skin_after_binding(
                    &g0,
                    ms,
                    nd,
                    pv,
                    m + 1,
                    k,
                ) by {
                    assert(geo.vertices@[k] == before.vertices@[k]);
                }
                assert forall|i: int| 0 <= i < jobs2.len() implies nodes@[(#[trigger] jobs2[i]).1 as int].mesh == Some(
                    (ms.len() + i) as usize,
                ) by {
                    if i < jobs.len() {
                        assert(jobs2[i] == jobs[i]);
                        assert(jobs[i].1 != n);
                    }
                }
                assert forall|nn: int|
                    0 <= nn < nd.len() && (forall|i: int| 0 <= i < jobs2.len() ==> (#[trigger] jobs2[i]).1 != nn) implies (
                    #[trigger] nodes@[nn]).mesh == nd[nn].mesh by {
                    assert(jobs2[jobs.len() as int].1 != nn);
                    assert forall|i: int| 0 <= i < jobs.len() implies (#[trigger] jobs[i]).1 != nn by {
                        assert(jobs2[i] == jobs[i]);
                    }
                }
            }
        }
        proof {
            assert(block.take(q as int) =~= block);
        }
        m += 1;
    }
}

/// The users of mesh `m` are distinct nodes that draw `m`, each listed with
/// whether it is skinned.
proof fn lemma_users_facts(nodes: Seq<SceneNode>, order: Seq<usize>, mesh_count: nat, n: nat)
    requires
        n <= order.len(),
        forall|k: int| 0 <= k < order.len() ==> (#[trigger] order[k]) < nodes.len(),
        forall|j: int| 0 <= j < nodes.len() ==> ((#[trigger] nodes[j]).mesh matches Some(m) ==> m < mesh_count),
    ensures
        spec_mesh_users(nodes, order, mesh_count, n).len() == mesh_count,
        forall|m: int, e: int|
            0 <= m < mesh_count && 0 <= e < spec_mesh_users(nodes, order, mesh_count, n)[m].len() ==> {
                let x = #[trigger] spec_mesh_users(nodes, order, mesh_count, n)[m][e];
                &&& x.0 < nodes.len()
                &&& x == user_entry(nodes, x.0)
                &&& nodes[x.0 as int].mesh == Some(m as usize)
            },
        forall|m: int, e1: int, e2: int|
            0 <= m < mesh_count && 0 <= e1 < e2 < spec_mesh_users(nodes, order, mesh_count, n)[m].len() ==> (
            #[trigger] spec_mesh_users(nodes, order, mesh_count, n)[m][e1]).0 != (
            #[trigger] spec_mesh_users(nodes, order, mesh_count, n)[m][e2]).0,
    decreases n,
{
    if n > 0 {
        lemma_users_facts(nodes, order, mesh_count, (n - 1) as nat);
        let prev = spec_mesh_users(nodes, order, mesh_count, (n - 1) as nat);
        let cur = spec_mesh_users(nodes, order, mesh_count, n);
        let i = order[n - 1];
        assert(i < nodes.len());
        match nodes[i as int].mesh {
            Some(mi) => {
                assert(mi < mesh_count);
                if !prev[mi as int].contains(user_entry(nodes, i)) {
                    assert forall|m: int, e1: int, e2: int|
                        0 <= m < mesh_count && 0 <= e1 < e2 < cur[m].len() implies (#[trigger] cur[m][e1]).0 != (
                        #[trigger] cur[m][e2]).0 by {
                        if m == mi as int && e2 == prev[m].len() {
                            assert(cur[m][e1] == prev[m][e1]);
                            if prev[m][e1].0 == i {
                                assert(prev[m][e1] == user_entry(nodes, i));
                            }
                        } else if m == mi as int {
                            assert(cur[m][e1] == prev[m][e1]);
                            assert(cur[m][e2] == prev[m][e2]);
                        }
                    }
                    assert forall|m: int, e: int| 0 <= m < mesh_count && 0 <= e < cur[m].len() implies {
                        let x = #[trigger] cur[m][e];
                        &&& x.0 < nodes.len()
                        &&& x == user_entry(nodes, x.0)
                        &&& nodes[x.0 as int].mesh == Some(m as usize)
                    } by {
                        if m == mi as int && e < prev[m].len() {
                            assert(cur[m][e] == prev[m][e]);
                        }
                    }
                }
            },
            None => {},
        }
    }
}

/// Node `v` is listed in `e` as skinned.
pub open spec fn skinned_entry(e: Seq<(usize, bool)>, v: usize) -> bool {
    exists|y: int| 0 <= y < e.len() && (#[trigger] e[y]).1 && e[y].0 == v
}

/// The skinned users of a list of users with distinct nodes are distinct
/// entries of the list.
proof fn lemma_skinned_users_facts(e: Seq<(usize, bool)>)
    requires
        forall|a: int, b: int| 0 <= a < b < e.len() ==> (#[trigger] e[a]).0 != (#[trigger] e[b]).0,
    ensures
        forall|x: int| 0 <= x < skinned_users(e).len() ==> skinned_entry(e, #[trigger] skinned_users(e)[x]),
        forall|a: int, b: int| 0 <= a < b < skinned_users(e).len() ==> (#[trigger] skinned_users(e)[a]) != (#[trigger] skinned_users(e)[b]),
    decreases e.len(),
{
    if e.len() > 0 {
        let d = e.drop_last();
        assert forall|a: int, b: int| 0 <= a < b < d.len() implies (#[trigger] d[a]).0 != (#[trigger] d[b]).0 by {
            assert(d[a] == e[a] && d[b] == e[b]);
        }
        lemma_skinned_users_facts(d);
        let s = skinned_users(e);
        let sd = skinned_users(d);
        assert forall|x: int| 0 <= x < s.len() implies skinned_entry(e, #[trigger] s[x]) by {
            if x < sd.len() {
                assert(s[x] == sd[x]);
                assert(skinned_entry(d, sd[x]));
                let y = choose|y: int| 0 <= y < d.len() && (#[trigger] d[y]).1 && d[y].0 == sd[x];
                assert(e[y] == d[y]);
            } else {
                assert(e[e.len() - 1].1 && e[e.len() - 1].0 == s[x]);
            }
        }
        assert forall|a: int, b: int| 0 <= a < b < s.len() implies (#[trigger] s[a]) != (#[trigger] s[b]) by {
            if b < sd.len() {
                assert(s[a] == sd[a] && s[b] == sd[b]);
            } else {
                assert(s[a] == sd[a]);
                assert(skinned_entry(d, sd[a]));
                let y = choose|y: int| 0 <= y < d.len() && (#[trigger] d[y]).1 && d[y].0 == sd[a];
                assert(e[y] == d[y]);
                assert(e[e.len() - 1].0 == s[b]);
            }
        }
    }
}

/// Copies never ask twice for the same node when each plan lists distinct
/// nodes and different plans list different nodes.
proof fn lemma_jobs_distinct(pv: Seq<(Option<usize>, Seq<usize>)>, k: nat)
    requires
        k <= pv.len() <= usize::MAX,
        forall|m: int, a: int, b: int| 0 <= m < pv.len() && 0 <= a < b < pv[m].1.len() ==> (#[trigger] pv[m].1[a]) != (
        #[trigger] pv[m].1[b]),
        forall|m1: int, m2: int, a: int, b: int|
            0 <= m1 < pv.len() && 0 <= m2 < pv.len() && m1 != m2 && 0 <= a < pv[m1].1.len() && 0 <= b < pv[m2].1.len()
                ==> (#[trigger] pv[m1].1[a]) != (#[trigger] pv[m2].1[b]),
    ensures
        forall|i: int, j: int| 0 <= i < j < dup_jobs(pv, k).len() ==> (#[trigger] dup_jobs(pv, k)[i]).1 != (
        #[trigger] dup_jobs(pv, k)[j]).1,
    decreases k,
{
    if k > 0 {
        lemma_jobs_distinct(pv, (k - 1) as nat);
        let prev = dup_jobs(pv, (k - 1) as nat);
        let cur = dup_jobs(pv, k);
        let mk = k - 1;
        assert forall|i: int, j: int| 0 <= i < j < cur.len() implies (#[trigger] cur[i]).1 != (#[trigger] cur[j]).1 by {
            if j < prev.len() {
                assert(cur[i] == prev[i] && cur[j] == prev[j]);
            } else if i < prev.len() {
                assert(cur[i] == prev[i]);
                lemma_dup_jobs_mesh(pv, (k - 1) as nat, i);
                let mi = prev[i].0 as int;
                let a = choose|a: int| 0 <= a < pv[mi].1.len() && pv[mi].1[a] == prev[i].1;
                assert(cur[j].1 == pv[mk].1[j - prev.len()]);
                assert(pv[mi].1[a] != pv[mk].1[j - prev.len()]);
            } else {
                assert(cur[i].1 == pv[mk].1[i - prev.len()]);
                assert(cur[j].1 == pv[mk].1[j - prev.len()]);
            }
        }
    }
}

/// Among the nodes of the walk `order`, node `n` is the only one that draws
/// its mesh.
pub open spec fn draws_alone(nodes: Seq<SceneNode>, order: Seq<usize>, n: usize) -> bool {
    forall|k: int| 0 <= k < order.len() && order[k] != n ==> (#[trigger] nodes[order[k] as int]).mesh != nodes[n as int].mesh
}

proof fn lemma_user_listed(nodes: Seq<SceneNode>, order: Seq<usize>, mesh_count: nat, n: nat, k: int, m: usize)
    requires
        0 <= k < n <= order.len(),
        forall|q: int| 0 <= q < order.len() ==> (#[trigger] order[q]) < nodes.len(),
        forall|j: int| 0 <= j < nodes.len() ==> ((#[trigger] nodes[j]).mesh matches Some(x) ==> x < mesh_count),
        nodes[order[k] as int].mesh == Some(m),
    ensures
        spec_mesh_users(nodes, order, mesh_count, n)[m as int].contains(user_entry(nodes, order[k])),
    decreases n,
{
    lemma_users_facts(nodes, order, mesh_count, n);
    lemma_users_facts(nodes, order, mesh_count, (n - 1) as nat);
    let prev = spec_mesh_users(nodes, order, mesh_count, (n - 1) as nat);
    let cur = spec_mesh_users(nodes, order, mesh_count, n);
    assert(order[k] < nodes.len());
    assert(m < mesh_count);
    if k < n - 1 {
        lemma_user_listed(nodes, order, mesh_count, (n - 1) as nat, k, m);
        let w = choose|w: int| 0 <= w < prev[m as int].len() && prev[m as int][w] == user_entry(nodes, order[k]);
        let i = order[n - 1];
        assert(i < nodes.len());
        match nodes[i as int].mesh {
            Some(mi) => {
                if !prev[mi as int].contains(user_entry(nodes, i)) {
                    assert(cur[m as int][w] == prev[m as int][w]);
                }
            },
            None => {},
        }
        assert(cur[m as int][w] == user_entry(nodes, order[k]));
    } else {
        let i = order[n - 1];
        if !prev[m as int].contains(user_entry(nodes, i)) {
            assert(cur[m as int][prev[m as int].len() as int] == user_entry(nodes, i));
        }
    }
}

proof fn lemma_skinned_user_listed(e: Seq<(usize, bool)>, y: int)
    requires
        0 <= y < e.len(),
        e[y].1,
    ensures
        skinned_users(e).contains(e[y].0),
    decreases e.len(),
{
    let d = e.drop_last();
    if y < e.len() - 1 {
        assert(d[y] == e[y]);
        lemma_skinned_user_listed(d, y);
        let w = choose|w: int| 0 <= w < skinned_users(d).len() && skinned_users(d)[w] == e[y].0;
        assert(skinned_users(e)[w] == skinned_users(d)[w]);
    } else {
        assert(skinned_users(e)[skinned_users(d).len() as int] == e[y].0);
    }
}

proof fn lemma_planned_copy_is_a_job(pv: Seq<(Option<usize>, Seq<usize>)>, k: nat, m: int, q: int)
    requires
        k <= pv.len() <= usize::MAX,
        0 <= m < k,
        0 <= q < pv[m].1.len(),
    ensures
        exists|j: int| 0 <= j < dup_jobs(pv, k).len() && #[trigger] dup_jobs(pv, k)[j] == (m as usize, pv[m].1[q]),
    decreases k,
{
    let prev = dup_jobs(pv, (k - 1) as nat);
    let cur = dup_jobs(pv, k);
    if m < k - 1 {
        lemma_planned_copy_is_a_job(pv, (k - 1) as nat, m, q);
        let j = choose|j: int| 0 <= j < prev.len() && #[trigger] prev[j] == (m as usize, pv[m].1[q]);
        assert(cur[j] == prev[j]);
    } else {
        assert(cur[prev.len() + q] == ((k - 1) as usize, pv[k - 1].1[q]));
    }
}

/// Once the plans are applied, every skinned node of the walk draws a mesh
/// that no other node of the walk draws.
proof fn lemma_skinned_alone(nd: Seq<SceneNode>, order: Seq<usize>, mc: nat, fin: Seq<SceneNode>)
    requires
        forall|k: int| 0 <= k < order.len() ==> (#[trigger] order[k]) < nd.len(),
        forall|j: int| 0 <= j < nd.len() ==> ((#[trigger] nd[j]).mesh matches Some(m) ==> m < mc),
        mc + dup_jobs(spec_plans(nd, order, mc), mc).len() <= usize::MAX,
        plans_fit_nodes(Seq::new(mc, |m: int| Seq::<u32>::empty()), nd, spec_plans(nd, order, mc)),
        fin.len() == nd.len(),
        forall|j: int|
            0 <= j < dup_jobs(spec_plans(nd, order, mc), mc).len() ==> fin[(#[trigger] dup_jobs(
                spec_plans(nd, order, mc),
                mc,
            )[j]).1 as int].mesh == Some((mc + j) as usize),
        forall|n: int|
            0 <= n < nd.len() && (forall|j: int|
                0 <= j < dup_jobs(spec_plans(nd, order, mc), mc).len() ==> (#[trigger] dup_jobs(
                    spec_plans(nd, order, mc),
                    mc,
                )[j]).1 != n) ==> (#[trigger] fin[n]).mesh == nd[n].mesh,
        forall|n: int| 0 <= n < nd.len() ==> (#[trigger] fin[n]).skin == nd[n].skin,
    ensures
        forall|k: int|
            0 <= k < order.len() && fin[(#[trigger] order[k]) as int].skin is Some && fin[order[k] as int].mesh is Some
                ==> draws_alone(fin, order, order[k]),
{
    let pv = spec_plans(nd, order, mc);
    let jobs = dup_jobs(pv, mc);
    let users = spec_mesh_users(nd, order, mc, order.len());
    lemma_users_facts(nd, order, mc, order.len());
    assert forall|k: int|
        0 <= k < order.len() && fin[(#[trigger] order[k]) as int].skin is Some && fin[order[k] as int].mesh is Some implies draws_alone(
        fin,
        order,
        order[k],
    ) by {
        let n = order[k];
        assert(n < nd.len());
        assert forall|k2: int| 0 <= k2 < order.len() && order[k2] != n implies (#[trigger] fin[order[k2] as int]).mesh
            != fin[n as int].mesh by {
            let n2 = order[k2];
            assert(n2 < nd.len());
            if exists|j: int| 0 <= j < jobs.len() && jobs[j].1 == n {
                let j = choose|j: int| 0 <= j < jobs.len() && jobs[j].1 == n;
                assert(fin[n as int].mesh == Some((mc + j) as usize));
                if exists|j2: int| 0 <= j2 < jobs.len() && jobs[j2].1 == n2 {
                    let j2 = choose|j2: int| 0 <= j2 < jobs.len() && jobs[j2].1 == n2;
                    assert(fin[n2 as int].mesh == Some((mc + j2) as usize));
                    if j < j2 {
                        assert(jobs[j].1 != jobs[j2].1);
                    } else if j2 < j {
                        assert(jobs[j2].1 != jobs[j].1);
                    }
                } else {
                    assert(fin[n2 as int].mesh == nd[n2 as int].mesh);
                }
            } else {
                assert(fin[n as int].mesh == nd[n as int].mesh);
                let m = nd[n as int].mesh.unwrap();
                assert(m < mc);
                lemma_user_listed(nd, order, mc, order.len(), k, m);
                let e = users[m as int];
                let y = choose|y: int| 0 <= y < e.len() && e[y] == user_entry(nd, n);
                lemma_skinned_user_listed(e, y);
                let su = skinned_users(e);
                assert(pv[m as int] == spec_skin_plan(e));
                let xs = choose|x: int| 0 <= x < su.len() && su[x] == n;
                if has_static_user(e) {
                    lemma_planned_copy_is_a_job(pv, mc, m as int, xs);
                    let j = choose|j: int| 0 <= j < jobs.len() && #[trigger] jobs[j] == (m, pv[m as int].1[xs]);
                    assert(jobs[j].1 == n);
                } else {
                    if xs < su.len() - 1 {
                        assert(pv[m as int].1[xs] == su[xs]);
                        lemma_planned_copy_is_a_job(pv, mc, m as int, xs);
                        let j = choose|j: int| 0 <= j < jobs.len() && #[trigger] jobs[j] == (m, pv[m as int].1[xs]);
                        assert(jobs[j].1 == n);
                    }
                    if fin[n2 as int].mesh == fin[n as int].mesh {
                        if exists|j2: int| 0 <= j2 < jobs.len() && jobs[j2].1 == n2 {
                            let j2 = choose|j2: int| 0 <= j2 < jobs.len() && jobs[j2].1 == n2;
                            assert(fin[n2 as int].mesh == Some((mc + j2) as usize));
                        } else {
                            assert(fin[n2 as int].mesh == nd[n2 as int].mesh);
                            lemma_user_listed(nd, order, mc, order.len(), k2, m);
                            let y2 = choose|y2: int| 0 <= y2 < e.len() && e[y2] == user_entry(nd, n2);
                            assert(e[y2].1);
                            lemma_skinned_user_listed(e, y2);
                            let x2 = choose|x: int| 0 <= x < su.len() && su[x] == n2;
                            if x2 < su.len() - 1 {
                                assert(pv[m as int].1[x2] == su[x2]);
                                lemma_planned_copy_is_a_job(pv, mc, m as int, x2);
                                let j = choose|j: int| 0 <= j < jobs.len() && #[trigger] jobs[j] == (m, pv[m as int].1[x2]);
                                assert(jobs[j].1 == n2);
                            }
                        }
                    }
                }
            }
        }
    }
}

/// The plans for the meshes, from their users along the visit `order`.
pub open spec fn spec_plans(nodes: Seq<SceneNode>, order: Seq<usize>, mesh_count: nat) -> Seq<(Option<usize>, Seq<usize>)> {
    Seq::new(mesh_count, |m: int| spec_skin_plan(spec_mesh_users(nodes, order, mesh_count, order.len())[m]))
}

/// Gives every skinned node vertices of its own: for each mesh, from the
/// nodes that draw it along the visit `order`, plans the skinning
/// (`skin_plan`) and applies it (`apply_skin_plans`).
pub fn duplicate_mesh_for_non_affine_transform<A: Copy>(
    nodes: &mut Vec<SceneNode>,
    meshes: &mut Vec<Vec<u32>>,
    geo: &mut GeoBuilder<A>,
    order: &[usize],
)
    requires
        forall|k: int| 0 <= k < order@.len() ==> (#[trigger] order@[k]) < old(nodes)@.len(),
        forall|j: int|
            0 <= j < old(nodes)@.len() ==> ((#[trigger] old(nodes)@[j]).mesh matches Some(m) ==> m < old(meshes)@.len()),
        meshes_apart(old(geo), mesh_lists(old(meshes)@)),
        copies_possible(
            old(geo),
            mesh_lists(old(meshes)@),
            spec_plans(old(nodes)@, order@, old(meshes)@.len() as nat),
        ),
    ensures
        ({
            let pv = spec_plans(old(nodes)@, order@, old(meshes)@.len() as nat);
            applied(
                old(geo),
                mesh_lists(old(meshes)@),
                old(nodes)@,
                pv,
                final(geo),
                mesh_lists(final(meshes)@),
                final(nodes)@,
                pv.len() as int,
                dup_jobs(pv, pv.len()),
            )
        }),
        forall|k: int|
            0 <= k < order@.len() && final(nodes)@[(#[trigger] order@[k]) as int].skin is Some
                && final(nodes)@[order@[k] as int].mesh is Some ==> draws_alone(final(nodes)@, order@, order@[k]),
{
    let ghost nd = nodes@;
    let ghost ms = mesh_lists(meshes@);
    let ghost mc = meshes@.len() as nat;
    let ghost pv = spec_plans(nd, order@, mc);
    let users = mesh_users(nodes, order, meshes.len());
    let mut plans: Vec<SkinPlan> = Vec::new();
    let mut m: usize = 0;
    while m < users.len()
        invariant
            m <= users@.len(),
            users@.len() == mc,
            pv == spec_plans(nd, order@, mc),
            forall|q: int| 0 <= q < mc ==> (#[trigger] users@[q])@ == spec_mesh_users(nd, order@, mc, order@.len())[q],
            plans@.len() == m,
            forall|q: int| 0 <= q < m ==> #[trigger] plan_views(plans@)[q] == pv[q],
        decreases users@.len() - m,
    {
        let plan = skin_plan(&users[m]);
        let ghost old_pv = plan_views(plans@);
        let ghost old_plans = plans@;
        plans.push(plan);
        proof {
            assert(plan_views(plans@)[m as int] == (plan.in_place, plan.duplicate@));
            assert(users@[m as int]@ == spec_mesh_users(nd, order@, mc, order@.len())[m as int]);
            assert(pv[m as int] == spec_skin_plan(users@[m as int]@));
            assert forall|q: int| 0 <= q < m implies #[trigger] plan_views(plans@)[q] == old_pv[q] by {
                assert(plans@[q] == old_plans[q]);
            }
        }
        m += 1;
    }
    proof {
        assert(plan_views(plans@) =~= pv);
        lemma_users_facts(nd, order@, mc, order@.len());
        let users_s = spec_mesh_users(nd, order@, mc, order@.len());
        // every node of a plan is a skinned user of that mesh
        assert forall|q: int, v: usize|
            0 <= q < mc && (pv[q].1.contains(v) || pv[q].0 == Some(v)) implies v < nd.len() && nd[v as int].mesh == Some(
            q as usize,
        ) && nd[v as int].skin is Some by {
            let e = users_s[q];
            assert forall|a: int, b: int| 0 <= a < b < e.len() implies (#[trigger] e[a]).0 != (#[trigger] e[b]).0 by {
            }
            lemma_skinned_users_facts(e);
            let su = skinned_users(e);
            let x = if pv[q].0 == Some(v) {
                su.len() - 1
            } else {
                let i = choose|i: int| 0 <= i < pv[q].1.len() && pv[q].1[i] == v;
                assert(pv[q].1[i] == su[i]);
                i
            };
            assert(su[x] == v);
            assert(skinned_entry(e, su[x]));
            let y = choose|y: int| 0 <= y < e.len() && (#[trigger] e[y]).1 && e[y].0 == v;
            assert(e[y] == user_entry(nd, e[y].0));
        }
        assert forall|q: int, a: int, b: int| 0 <= q < pv.len() && 0 <= a < b < pv[q].1.len() implies (#[trigger] pv[q].1[a])
            != (#[trigger] pv[q].1[b]) by {
            let e = users_s[q];
            assert forall|a2: int, b2: int| 0 <= a2 < b2 < e.len() implies (#[trigger] e[a2]).0 != (#[trigger] e[b2]).0 by {
            }
            lemma_skinned_users_facts(e);
            assert(pv[q].1[a] == skinned_users(e)[a]);
            assert(pv[q].1[b] == skinned_users(e)[b]);
        }
        assert forall|m1: int, m2: int, a: int, b: int|
            0 <= m1 < pv.len() && 0 <= m2 < pv.len() && m1 != m2 && 0 <= a < pv[m1].1.len() && 0 <= b < pv[m2].1.len()
                implies (#[trigger] pv[m1].1[a]) != (#[trigger] pv[m2].1[b]) by {
            assert(pv[m1].1.contains(pv[m1].1[a]));
            assert(pv[m2].1.contains(pv[m2].1[b]));
        }
        lemma_jobs_distinct(pv, pv.len());
        let jobs = dup_jobs(pv, pv.len());
        assert forall|j: int| 0 <= j < jobs.len() implies (#[trigger] jobs[j]).1 < nd.len() && nd[jobs[j].1 as int].mesh
            == Some(jobs[j].0) && nd[jobs[j].1 as int].skin is Some by {
            lemma_dup_jobs_mesh(pv, pv.len(), j);
        }
        assert forall|q: int| 0 <= q < pv.len() implies ((#[trigger] pv[q]).0 matches Some(n) ==> n < nd.len()
            && nd[n as int].mesh == Some(q as usize) && nd[n as int].skin is Some) by {
        }
        assert(plans_fit_nodes(ms, nd, pv));
    }
    apply_skin_plans(nodes, meshes, geo, &plans);
    let mesh_total = meshes.len();
    proof {
        let jobs = dup_jobs(pv, pv.len());
        lemma_job_meshes_len(old(geo).geo_counter as int, ms, jobs);
        assert(mesh_lists(meshes@).len() == meshes@.len());
        assert(mc + jobs.len() == mesh_total);
        assert(plans_fit_nodes(Seq::new(mc, |m: int| Seq::<u32>::empty()), nd, pv));
        lemma_skinned_alone(nd, order@, mc, nodes@);
    }
}

/// Whether the plans can be applied to meshes whose geometries are in
/// range, unskinned and apart: a mesh bound in place and also copied has
/// geometries without vertices, and the fresh geometry ids fit.
pub fn check_copies_possible<A>(geo: &GeoBuilder<A>, meshes: &Vec<Vec<u32>>, plans: &[SkinPlan]) -> (r: bool)
    requires
        plans@.len() == meshes@.len(),
        meshes_apart(geo, mesh_lists(meshes@)),
    ensures
        r == copies_possible(geo, mesh_lists(meshes@), plan_views(plans@)),
{
    let ghost ms = mesh_lists(meshes@);
    let ghost pv = plan_views(plans@);
    let n = meshes.len();
    let mut m: usize = 0;
    while m < n
        invariant
            n == meshes@.len(),
            n == plans@.len(),
            ms == mesh_lists(meshes@),
            pv == plan_views(plans@),
            meshes_apart(geo, ms),
            m <= n,
            forall|mm: int|
                0 <= mm < m && (#[trigger] pv[mm]).0 is Some && pv[mm].1.len() > 0 ==> forall|p: int|
                    0 <= p < ms[mm].len() ==> geo.len@[#[trigger] ms[mm][p] as int]@[0] == 0,
        decreases n - m,
    {
        proof {
            assert(pv[m as int] == (plans@[m as int].in_place, plans@[m as int].duplicate@));
            assert(ms[m as int] == meshes@[m as int]@);
        }
        if plans[m].in_place.is_some() && plans[m].duplicate.len() > 0 {
            let list = &meshes[m];
            let mut p: usize = 0;
            while p < list.len()
                invariant
                    m < n,
                    n == meshes@.len(),
                    ms == mesh_lists(meshes@),
                    meshes_apart(geo, ms),
                    list@ == ms[m as int],
                    pv == plan_views(plans@),
                    m < pv.len(),
                    pv[m as int].0 is Some,
                    pv[m as int].1.len() > 0,
                    p <= list@.len(),
                    forall|pp: int| 0 <= pp < p ==> geo.len@[#[trigger] list@[pp] as int]@[0] == 0,
                decreases list@.len() - p,
            {
                let g = list[p];
                proof {
                    assert(geometry_in_range(geo, ms[m as int][p as int] as int));
                }
                if geo.len[g as usize][0] != 0 {
                    proof {
                        assert(geo.len@[ms[m as int][p as int] as int]@[0] != 0);
                    }
                    return false;
                }
                p += 1;
            }
        }
        proof {
            assert forall|mm: int|
                0 <= mm < m + 1 && (#[trigger] pv[mm]).0 is Some && pv[mm].1.len() > 0 implies forall|p: int|
                0 <= p < ms[mm].len() ==> geo.len@[#[trigger] ms[mm][p] as int]@[0] == 0 by {
            }
        }
        m += 1;
    }
    let cap: u64 = u32::MAX as u64 - geo.geo_counter as u64;
    let ghost all_jobs = dup_jobs(pv, pv.len());
    let mut total: u64 = 0;
    let mut k: usize = 0;
    proof {
        lemma_job_geometries_nonneg(ms, all_jobs);
    }
    while k < n
        invariant
            n == meshes@.len(),
            n == plans@.len(),
            n == pv.len(),
            pv.len() <= usize::MAX,
            ms == mesh_lists(meshes@),
            pv == plan_views(plans@),
            all_jobs == dup_jobs(pv, pv.len()),
            cap == u32::MAX - geo.geo_counter,
            k <= n,
            total == job_geometries(ms, dup_jobs(pv, k as nat)),
            total <= cap,
        decreases n - k,
    {
        let dups = &plans[k].duplicate;
        let len = meshes[k].len() as u64;
        let ghost before = dup_jobs(pv, k as nat);
        let ghost block = Seq::new(dups@.len(), |r: int| (k, dups@[r]));
        proof {
            assert(pv[k as int] == (plans@[k as int].in_place, plans@[k as int].duplicate@));
            assert(ms[k as int] == meshes@[k as int]@);
            assert(dup_jobs(pv, (k + 1) as nat) == before + block);
            lemma_dup_jobs_len_monotone(pv, (k + 1) as nat, pv.len());
        }
        let mut q: usize = 0;
        while q < dups.len()
            invariant
                k < n,
                n == pv.len(),
                pv == plan_views(plans@),
                ms == mesh_lists(meshes@),
                ms[k as int] == meshes@[k as int]@,
                len == ms[k as int].len(),
                all_jobs == dup_jobs(pv, pv.len()),
                before == dup_jobs(pv, k as nat),
                block == Seq::new(dups@.len(), |r: int| (k, dups@[r])),
                dup_jobs(pv, (k + 1) as nat) == before + block,
                dup_jobs(pv, (k + 1) as nat).len() <= all_jobs.len(),
                pv[k as int].1 == dups@,
                q <= dups@.len(),
                cap == u32::MAX - geo.geo_counter,
                total == job_geometries(ms, before + block.take(q as int)),
                total <= cap,
            decreases dups@.len() - q,
        {
            let ghost jobs = before + block.take(q as int);
            let ghost j = jobs.len() as int;
            proof {
                assert(jobs.push((k, dups@[q as int])) =~= before + block.take(q + 1));
                assert(jobs.push((k, dups@[q as int])).drop_last() =~= jobs);
                assert forall|i: int| 0 <= i < j + 1 implies #[trigger] all_jobs.take(j + 1)[i] == (before + block.take(q + 1))[i] by {
                    lemma_dup_jobs_prefix(pv, (k + 1) as nat, pv.len(), i);
                }
                assert(all_jobs.take(j + 1) =~= before + block.take(q + 1));
                lemma_job_geometries_prefix(ms, all_jobs, j + 1);
            }
            if len > cap - total {
                proof {
                    assert(job_geometries(ms, jobs.push((k, dups@[q as int]))) == total + ms[k as int].len());
                }
                return false;
            }
            total = total + len;
            q += 1;
        }
        proof {
            assert(block.take(q as int) =~= block);
        }
        k += 1;
    }
    proof {
        assert(dup_jobs(pv, k as nat) == all_jobs);
    }
    total < cap
}

} // verus!
