use vstd::prelude::*;

verus! {

/// Where the data of one drawable primitive lies in a model's shared vertex
/// and index buffers.
#[derive(Debug, Clone, Copy, PartialEq, Eq, Structural)]
pub struct MeshRange {
    pub vertex_offset: u32,
    pub vertex_count: u32,
    pub index_offset: u32,
    pub index_count: u32,
}

/// The per-mesh lists of `(vertex count, index count)` of the supported
/// primitives, as sequences.
pub open spec fn count_lists(counts: Seq<Vec<(u32, u32)>>) -> Seq<Seq<(u32, u32)>> {
    counts.map_values(|v: Vec<(u32, u32)>| v@)
}

/// Total vertex count of a list of primitives.
pub open spec fn vertex_sum(c: Seq<(u32, u32)>) -> int
    decreases c.len(),
{
    if c.len() == 0 {
        0
    } else {
        vertex_sum(c.drop_last()) + c.last().0
    }
}

/// Total index count of a list of primitives.
pub open spec fn index_sum(c: Seq<(u32, u32)>) -> int
    decreases c.len(),
{
    if c.len() == 0 {
        0
    } else {
        index_sum(c.drop_last()) + c.last().1
    }
}

/// Whether the `k`-th mesh of the list appeared earlier in it.
pub open spec fn seen_before(meshes: Seq<usize>, k: int) -> bool {
    meshes.take(k).contains(meshes[k])
}

/// Vertices loaded after the first `n` meshes of the list: a mesh's
/// primitives are loaded at its first appearance only.
pub open spec fn loaded_vertices(meshes: Seq<usize>, counts: Seq<Seq<(u32, u32)>>, n: nat) -> int
    decreases n,
{
    if n == 0 {
        0
    } else {
        loaded_vertices(meshes, counts, (n - 1) as nat) + if seen_before(meshes, n - 1) {
            0
        } else {
            vertex_sum(counts[meshes[n - 1] as int])
        }
    }
}

/// Indices loaded after the first `n` meshes of the list.
pub open spec fn loaded_indices(meshes: Seq<usize>, counts: Seq<Seq<(u32, u32)>>, n: nat) -> int
    decreases n,
{
    if n == 0 {
        0
    } else {
        loaded_indices(meshes, counts, (n - 1) as nat) + if seen_before(meshes, n - 1) {
            0
        } else {
            index_sum(counts[meshes[n - 1] as int])
        }
    }
}

/// Number of ranges listed for the first `n` meshes of the list.
pub open spec fn ranges_len(meshes: Seq<usize>, counts: Seq<Seq<(u32, u32)>>, n: nat) -> int
    decreases n,
{
    if n == 0 {
        0
    } else {
        ranges_len(meshes, counts, (n - 1) as nat) + counts[meshes[n - 1] as int].len()
    }
}

/// Position of the first range of mesh `m` among the ranges of the first
/// `n` meshes of the list (meaningful when `m` is among them).
pub open spec fn first_start(meshes: Seq<usize>, counts: Seq<Seq<(u32, u32)>>, n: nat, m: usize) -> int
    decreases n,
{
    if n == 0 {
        0
    } else if meshes.take(n - 1).contains(m) {
        first_start(meshes, counts, (n - 1) as nat, m)
    } else {
        ranges_len(meshes, counts, (n - 1) as nat)
    }
}

/// The ranges of primitives appended after `v0` vertices and `i0` indices
/// (offsets stored as `u32`).
pub open spec fn fresh_ranges(c: Seq<(u32, u32)>, v0: int, i0: int) -> Seq<MeshRange> {
    Seq::new(
        c.len(),
        |p: int|
            MeshRange {
                vertex_offset: (v0 + vertex_sum(c.take(p))) as u32,
                vertex_count: c[p].0,
                index_offset: (i0 + index_sum(c.take(p))) as u32,
                index_count: c[p].1,
            },
    )
}

/// The ranges of the first `n` meshes of the list: a mesh seen for the first
/// time gets its primitives appended to the buffers; a mesh seen again reuses
/// the ranges of its first appearance.
pub open spec fn spec_mesh_ranges(meshes: Seq<usize>, counts: Seq<Seq<(u32, u32)>>, n: nat) -> Seq<MeshRange>
    decreases n,
{
    if n == 0 {
        Seq::empty()
    } else {
        let prev = spec_mesh_ranges(meshes, counts, (n - 1) as nat);
        let m = meshes[n - 1];
        let c = counts[m as int];
        if seen_before(meshes, n - 1) {
            let s = first_start(meshes, counts, (n - 1) as nat, m);
            prev + prev.subrange(s, s + c.len())
        } else {
            prev + fresh_ranges(
                c,
                loaded_vertices(meshes, counts, (n - 1) as nat),
                loaded_indices(meshes, counts, (n - 1) as nat),
            )
        }
    }
}

proof fn lemma_sums_step(c: Seq<(u32, u32)>, p: int)
    requires
        0 <= p < c.len(),
    ensures
        vertex_sum(c.take(p + 1)) == vertex_sum(c.take(p)) + c[p].0,
        index_sum(c.take(p + 1)) == index_sum(c.take(p)) + c[p].1,
{
    assert(c.take(p + 1).drop_last() =~= c.take(p));
}

proof fn lemma_sums_prefix(c: Seq<(u32, u32)>, p: int)
    requires
        0 <= p <= c.len(),
    ensures
        0 <= vertex_sum(c.take(p)) <= vertex_sum(c),
        0 <= index_sum(c.take(p)) <= index_sum(c),
    decreases c.len() - p,
{
    if p == c.len() {
        assert(c.take(p) =~= c);
        lemma_sums_nonneg(c);
    } else {
        lemma_sums_step(c, p);
        lemma_sums_prefix(c, p + 1);
        lemma_sums_nonneg(c.take(p));
    }
}

proof fn lemma_sums_nonneg(c: Seq<(u32, u32)>)
    ensures
        vertex_sum(c) >= 0,
        index_sum(c) >= 0,
    decreases c.len(),
{
    if c.len() > 0 {
        lemma_sums_nonneg(c.drop_last());
    }
}

proof fn lemma_loaded_monotone(meshes: Seq<usize>, counts: Seq<Seq<(u32, u32)>>, k: nat, n: nat)
    requires
        k <= n,
    ensures
        loaded_vertices(meshes, counts, k) <= loaded_vertices(meshes, counts, n),
        loaded_indices(meshes, counts, k) <= loaded_indices(meshes, counts, n),
    decreases n - k,
{
    if k < n {
        lemma_loaded_monotone(meshes, counts, k, (n - 1) as nat);
        lemma_sums_nonneg(counts[meshes[n - 1] as int]);
    }
}

/// Lists the buffer range of every supported primitive of the meshes in
/// `meshes` (glTF mesh indices, possibly repeated), given per glTF mesh the
/// `(vertex count, index count)` of its supported primitives. A mesh's
/// primitives are appended to the shared buffers at its first appearance;
/// a later appearance reuses the same ranges.
pub fn mesh_ranges(meshes: &[usize], counts: &Vec<Vec<(u32, u32)>>) -> (out: Vec<MeshRange>)
    requires
        forall|k: int| 0 <= k < meshes@.len() ==> (#[trigger] meshes@[k]) < counts@.len(),
        loaded_vertices(meshes@, count_lists(counts@), meshes@.len()) <= usize::MAX,
        loaded_indices(meshes@, count_lists(counts@), meshes@.len()) <= usize::MAX,
        ranges_len(meshes@, count_lists(counts@), meshes@.len()) <= usize::MAX,
    ensures
        out@ == spec_mesh_ranges(meshes@, count_lists(counts@), meshes@.len()),
{
    let ghost cs = count_lists(counts@);
    let ghost ms = meshes@;
    let mut start: Vec<Option<usize>> = Vec::new();
    let mut i: usize = 0;
    while i < counts.len()
        invariant
            i <= counts@.len(),
            start@.len() == i,
            forall|j: int| 0 <= j < i ==> (#[trigger] start@[j]) is None,
        decreases counts@.len() - i,
    {
        start.push(None);
        i += 1;
    }
    let mut out: Vec<MeshRange> = Vec::new();
    let mut vtotal: usize = 0;
    let mut itotal: usize = 0;
    let mut k: usize = 0;
    while k < meshes.len()
        invariant
            cs == count_lists(counts@),
            ms == meshes@,
            k <= ms.len(),
            forall|q: int| 0 <= q < ms.len() ==> (#[trigger] ms[q]) < counts@.len(),
            loaded_vertices(ms, cs, ms.len()) <= usize::MAX,
            loaded_indices(ms, cs, ms.len()) <= usize::MAX,
            ranges_len(ms, cs, ms.len()) <= usize::MAX,
            out@ == spec_mesh_ranges(ms, cs, k as nat),
            out@.len() == ranges_len(ms, cs, k as nat),
            vtotal == loaded_vertices(ms, cs, k as nat),
            itotal == loaded_indices(ms, cs, k as nat),
            start@.len() == counts@.len(),
            forall|m: usize|
                m < counts@.len() ==> (#[trigger] start@[m as int]) == if ms.take(k as int).contains(m) {
                    Some(first_start(ms, cs, k as nat, m) as usize)
                } else {
                    None::<usize>
                },
            forall|m: usize|
                m < counts@.len() && ms.take(k as int).contains(m) ==> 0 <= #[trigger] first_start(
                    ms,
                    cs,
                    k as nat,
                    m,
                ) && first_start(ms, cs, k as nat, m) + cs[m as int].len() <= ranges_len(ms, cs, k as nat),
        decreases ms.len() - k,
    {
        let m = meshes[k];
        let list = &counts[m];
        let ghost prev = out@;
        let ghost c = cs[m as int];
        proof {
            assert(ms[k as int] < counts@.len());
            assert(list@ == c);
            assert(ms.take(k + 1) =~= ms.take(k as int).push(m));
            lemma_loaded_monotone(ms, cs, (k + 1) as nat, ms.len());
            assert(ranges_len(ms, cs, (k + 1) as nat) <= ranges_len(ms, cs, ms.len())) by {
                lemma_ranges_len_monotone(ms, cs, (k + 1) as nat, ms.len());
            }
        }
        match start[m] {
            Some(s) => {
                proof {
                    assert(seen_before(ms, k as int));
                }
                let n = list.len();
                let mut p: usize = 0;
                while p < n
                    invariant
                        n == c.len(),
                        p <= n,
                        s + n <= prev.len(),
                        out@ == prev + prev.subrange(s as int, s + p),
                        prev.len() + n <= usize::MAX,
                    decreases n - p,
                {
                    let r = out[s + p];
                    out.push(r);
                    p += 1;
                    proof {
                        assert(out@ =~= prev + prev.subrange(s as int, s + p));
                    }
                }
                proof {
                    assert forall|mm: usize| mm < counts@.len() implies (#[trigger] start@[mm as int]) == if ms.take(
                        k + 1,
                    ).contains(mm) {
                        Some(first_start(ms, cs, (k + 1) as nat, mm) as usize)
                    } else {
                        None::<usize>
                    } by {
                        if ms.take(k as int).contains(mm) {
                        } else if mm == m {
                        } else {
                            assert(!ms.take(k + 1).contains(mm));
                        }
                    }
                }
            },
            None => {
                proof {
                    assert(!seen_before(ms, k as int));
                }
                let ghost v0 = vtotal as int;
                let ghost i0 = itotal as int;
                let pos = out.len();
                let n = list.len();
                let mut p: usize = 0;
                proof {
                    lemma_sums_prefix(c, 0);
                    assert(c.take(0) =~= Seq::<(u32, u32)>::empty());
                }
                while p < n
                    invariant
                        n == c.len(),
                        list@ == c,
                        p <= n,
                        v0 + vertex_sum(c) <= usize::MAX,
                        i0 + index_sum(c) <= usize::MAX,
                        vtotal == v0 + vertex_sum(c.take(p as int)),
                        itotal == i0 + index_sum(c.take(p as int)),
                        out@ == prev + fresh_ranges(c, v0, i0).take(p as int),
                        prev.len() + n <= usize::MAX,
                    decreases n - p,
                {
                    let (vc, ic) = list[p];
                    proof {
                        lemma_sums_step(c, p as int);
                        lemma_sums_prefix(c, p + 1);
                    }
                    let r = MeshRange {
                        vertex_offset: vtotal as u32,
                        vertex_count: vc,
                        index_offset: itotal as u32,
                        index_count: ic,
                    };
                    out.push(r);
                    vtotal = vtotal + vc as usize;
                    itotal = itotal + ic as usize;
                    p += 1;
                    proof {
                        assert(fresh_ranges(c, v0, i0).take(p as int) =~= fresh_ranges(c, v0, i0).take(p - 1).push(r));
                        assert(out@ =~= prev + fresh_ranges(c, v0, i0).take(p as int));
                    }
                }
                start.set(m, Some(pos));
                proof {
                    assert(c.take(p as int) =~= c);
                    assert(fresh_ranges(c, v0, i0).take(p as int) =~= fresh_ranges(c, v0, i0));
                    assert forall|mm: usize| mm < counts@.len() implies (#[trigger] start@[mm as int]) == if ms.take(
                        k + 1,
                    ).contains(mm) {
                        Some(first_start(ms, cs, (k + 1) as nat, mm) as usize)
                    } else {
                        None::<usize>
                    } by {
                        if mm == m {
                            assert(ms.take(k + 1)[k as int] == m);
                            assert(ms.take(k + 1).contains(m));
                            assert(!ms.take(k as int).contains(m));
                            assert(first_start(ms, cs, (k + 1) as nat, m) == ranges_len(ms, cs, k as nat));
                            assert(start@[mm as int] == Some(pos));
                        } else if ms.take(k as int).contains(mm) {
                            assert(ms.take(k + 1).contains(mm));
                            assert(first_start(ms, cs, (k + 1) as nat, mm) == first_start(ms, cs, k as nat, mm));
                        } else {
                            assert forall|w: int| 0 <= w < k + 1 implies #[trigger] ms.take(k + 1)[w] != mm by {
                                if w < k {
                                    assert(ms.take(k + 1)[w] == ms.take(k as int)[w]);
                                }
                            }
                            assert(!ms.take(k + 1).contains(mm));
                        }
                    }
                }
            },
        }
        proof {
            assert forall|mm: usize|
                mm < counts@.len() && ms.take(k + 1).contains(mm) implies 0 <= #[trigger] first_start(
                ms,
                cs,
                (k + 1) as nat,
                mm,
            ) && first_start(ms, cs, (k + 1) as nat, mm) + cs[mm as int].len() <= ranges_len(ms, cs, (k + 1) as nat) by {
                if ms.take(k as int).contains(mm) {
                    assert(first_start(ms, cs, k as nat, mm) + cs[mm as int].len() <= ranges_len(ms, cs, k as nat));
                    assert(first_start(ms, cs, (k + 1) as nat, mm) == first_start(ms, cs, k as nat, mm));
                    lemma_ranges_len_monotone(ms, cs, k as nat, (k + 1) as nat);
                } else {
                    if mm != m {
                        assert forall|w: int| 0 <= w < k + 1 implies #[trigger] ms.take(k + 1)[w] != mm by {
                            if w < k {
                                assert(ms.take(k + 1)[w] == ms.take(k as int)[w]);
                            }
                        }
                    }
                    lemma_ranges_len_nonneg(ms, cs, k as nat);
                }
            }
        }
        k += 1;
    }
    proof {
        assert(ms.take(k as int) =~= ms);
    }
    out
}

proof fn lemma_ranges_len_nonneg(meshes: Seq<usize>, counts: Seq<Seq<(u32, u32)>>, n: nat)
    ensures
        ranges_len(meshes, counts, n) >= 0,
    decreases n,
{
    if n > 0 {
        lemma_ranges_len_nonneg(meshes, counts, (n - 1) as nat);
    }
}

proof fn lemma_ranges_len_monotone(meshes: Seq<usize>, counts: Seq<Seq<(u32, u32)>>, k: nat, n: nat)
    requires
        k <= n,
    ensures
        ranges_len(meshes, counts, k) <= ranges_len(meshes, counts, n),
    decreases n - k,
{
    if k < n {
        lemma_ranges_len_monotone(meshes, counts, k, (n - 1) as nat);
    }
}

/// Position of the first range of glTF mesh `m` when every mesh is loaded
/// once, in index order.
pub open spec fn mesh_start(counts: Seq<Seq<(u32, u32)>>, m: nat) -> int
    decreases m,
{
    if m == 0 {
        0
    } else {
        mesh_start(counts, (m - 1) as nat) + counts[m - 1].len()
    }
}

/// The `(node, range)` pairs of the first `n` nodes: a node with a mesh
/// draws each supported primitive of it, found at the mesh's first range
/// plus the primitive's rank.
pub open spec fn spec_node_primitives(node_meshes: Seq<Option<usize>>, counts: Seq<Seq<(u32, u32)>>, n: nat) -> Seq<
    (usize, usize),
>
    decreases n,
{
    if n == 0 {
        Seq::empty()
    } else {
        let prev = spec_node_primitives(node_meshes, counts, (n - 1) as nat);
        match node_meshes[n - 1] {
            Some(m) => prev + Seq::new(
                counts[m as int].len(),
                |p: int| ((n - 1) as usize, (mesh_start(counts, m as nat) + p) as usize),
            ),
            None => prev,
        }
    }
}

proof fn lemma_mesh_start_monotone(counts: Seq<Seq<(u32, u32)>>, k: nat, n: nat)
    requires
        k <= n,
    ensures
        0 <= mesh_start(counts, k) <= mesh_start(counts, n),
    decreases n - k,
{
    if k < n {
        lemma_mesh_start_monotone(counts, k, (n - 1) as nat);
    } else {
        lemma_mesh_start_nonneg(counts, k);
    }
}

proof fn lemma_mesh_start_nonneg(counts: Seq<Seq<(u32, u32)>>, k: nat)
    ensures
        0 <= mesh_start(counts, k),
    decreases k,
{
    if k > 0 {
        lemma_mesh_start_nonneg(counts, (k - 1) as nat);
    }
}

/// Pairs each node that has a mesh with the ranges of that mesh's supported
/// primitives, given per glTF mesh its supported primitives, every mesh
/// being loaded once in index order.
pub fn node_primitives(node_meshes: &[Option<usize>], counts: &Vec<Vec<(u32, u32)>>) -> (out: Vec<(usize, usize)>)
    requires
        forall|j: int| 0 <= j < node_meshes@.len() ==> ((#[trigger] node_meshes@[j]) matches Some(m) ==> m < counts@.len()),
        mesh_start(count_lists(counts@), counts@.len() as nat) <= usize::MAX,
    ensures
        out@ == spec_node_primitives(node_meshes@, count_lists(counts@), node_meshes@.len() as nat),
{
    let ghost cs = count_lists(counts@);
    let mut starts: Vec<usize> = Vec::new();
    let mut total: usize = 0;
    let mut m: usize = 0;
    while m < counts.len()
        invariant
            cs == count_lists(counts@),
            m <= counts@.len(),
            starts@.len() == m,
            total == mesh_start(cs, m as nat),
            mesh_start(cs, counts@.len() as nat) <= usize::MAX,
            forall|q: int| 0 <= q < m ==> #[trigger] starts@[q] == mesh_start(cs, q as nat),
        decreases counts@.len() - m,
    {
        starts.push(total);
        proof {
            lemma_mesh_start_monotone(cs, (m + 1) as nat, counts@.len() as nat);
        }
        total = total + counts[m].len();
        m += 1;
    }
    let mut out: Vec<(usize, usize)> = Vec::new();
    let mut j: usize = 0;
    while j < node_meshes.len()
        invariant
            cs == count_lists(counts@),
            j <= node_meshes@.len(),
            starts@.len() == counts@.len(),
            forall|q: int| 0 <= q < counts@.len() ==> #[trigger] starts@[q] == mesh_start(cs, q as nat),
            mesh_start(cs, counts@.len() as nat) <= usize::MAX,
            forall|q: int| 0 <= q < node_meshes@.len() ==> ((#[trigger] node_meshes@[q]) matches Some(mm) ==> mm < counts@.len()),
            out@ == spec_node_primitives(node_meshes@, cs, j as nat),
        decreases node_meshes@.len() - j,
    {
        match node_meshes[j] {
            Some(mi) => {
                proof {
                    assert(node_meshes@[j as int] matches Some(x) ==> x < counts@.len());
                    lemma_mesh_start_monotone(cs, (mi + 1) as nat, counts@.len() as nat);
                }
                let s = starts[mi];
                let n = counts[mi].len();
                let ghost prev = out@;
                let ghost block = Seq::new(n as nat, |p: int| (j, (mesh_start(cs, mi as nat) + p) as usize));
                let mut p: usize = 0;
                while p < n
                    invariant
                        p <= n,
                        s == mesh_start(cs, mi as nat),
                        s + n <= usize::MAX,
                        block == Seq::new(n as nat, |q: int| (j, (mesh_start(cs, mi as nat) + q) as usize)),
                        out@ == prev + block.take(p as int),
                    decreases n - p,
                {
                    out.push((j, s + p));
                    p += 1;
                    proof {
                        assert(block.take(p as int) =~= block.take(p - 1).push((j, (s + p - 1) as usize)));
                        assert(out@ =~= prev + block.take(p as int));
                    }
                }
                proof {
                    assert(block.take(p as int) =~= block);
                    assert(cs[mi as int] == counts@[mi as int]@);
                }
            },
            None => {},
        }
        j += 1;
    }
    out
}

/// When every glTF mesh is loaded once in index order, the range found at
/// the first range of mesh `m` plus `p` is the range appended for primitive
/// `p` of mesh `m`: the pairs of `node_primitives` address the ranges of
/// `mesh_ranges`.
pub proof fn lemma_node_ranges_address_mesh(counts: Seq<Seq<(u32, u32)>>, m: int, p: int)
    requires
        counts.len() <= usize::MAX,
        0 <= m < counts.len(),
        0 <= p < counts[m].len(),
    ensures
        spec_mesh_ranges(Seq::new(counts.len(), |i: int| i as usize), counts, counts.len())[mesh_start(counts, m as nat) + p]
            == fresh_ranges(
            counts[m],
            loaded_vertices(Seq::new(counts.len(), |i: int| i as usize), counts, m as nat),
            loaded_indices(Seq::new(counts.len(), |i: int| i as usize), counts, m as nat),
        )[p],
{
    let ms = Seq::new(counts.len(), |i: int| i as usize);
    lemma_identity_ranges(ms, counts, counts.len());
    lemma_identity_ranges(ms, counts, (m + 1) as nat);
    lemma_ranges_prefix(ms, counts, (m + 1) as nat, counts.len(), mesh_start(counts, m as nat) + p);
    lemma_identity_ranges(ms, counts, m as nat);
    assert(!seen_before(ms, m)) by {
        if seen_before(ms, m) {
            let w = choose|w: int| 0 <= w < ms.take(m).len() && #[trigger] ms.take(m)[w] == ms[m];
            assert(ms.take(m)[w] == ms[w]);
        }
    }
}

/// With the meshes listed once each in index order, the ranges of the first
/// `n` meshes number `mesh_start(n)`, and no mesh repeats.
proof fn lemma_identity_ranges(ms: Seq<usize>, counts: Seq<Seq<(u32, u32)>>, n: nat)
    requires
        ms == Seq::new(counts.len(), |i: int| i as usize),
        counts.len() <= usize::MAX,
        n <= counts.len(),
    ensures
        ranges_len(ms, counts, n) == mesh_start(counts, n),
        spec_mesh_ranges(ms, counts, n).len() == mesh_start(counts, n),
    decreases n,
{
    if n > 0 {
        lemma_identity_ranges(ms, counts, (n - 1) as nat);
        let k = n - 1;
        assert(!seen_before(ms, k)) by {
            if seen_before(ms, k) {
                let w = choose|w: int| 0 <= w < ms.take(k).len() && #[trigger] ms.take(k)[w] == ms[k];
                assert(ms.take(k)[w] == ms[w]);
            }
        }
    }
}

/// The ranges of the first `k` meshes stay in place as more meshes follow.
proof fn lemma_ranges_prefix(ms: Seq<usize>, counts: Seq<Seq<(u32, u32)>>, k: nat, n: nat, i: int)
    requires
        k <= n,
        0 <= i < spec_mesh_ranges(ms, counts, k).len(),
    ensures
        i < spec_mesh_ranges(ms, counts, n).len(),
        spec_mesh_ranges(ms, counts, n)[i] == spec_mesh_ranges(ms, counts, k)[i],
    decreases n - k,
{
    if k < n {
        lemma_ranges_prefix(ms, counts, k, (n - 1) as nat, i);
    }
}

} // verus!
