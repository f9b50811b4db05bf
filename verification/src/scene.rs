use vstd::prelude::*;

verus! {

/// A scene: its root nodes.
#[derive(Debug, Clone)]
pub struct Scene {
    pub index: usize,
    pub name: Option<String>,
    pub root_nodes: Vec<usize>,
}

/// The links of a scene node: its children and what it carries.
#[derive(Debug, Clone)]
pub struct SceneNode {
    pub children: Vec<usize>,
    pub mesh: Option<usize>,
    pub skin: Option<usize>,
    pub light: Option<usize>,
}

/// The child lists of the nodes.
pub open spec fn child_lists(nodes: Seq<SceneNode>) -> Seq<Seq<usize>> {
    nodes.map_values(|n: SceneNode| n.children@)
}

/// Node `i` exists and its subtree is less than `fuel` levels deep, so the
/// walk from it ends (it does for every node of an acyclic graph when `fuel`
/// is the number of nodes).
pub open spec fn fits(children: Seq<Seq<usize>>, i: usize, fuel: nat) -> bool
    decreases fuel,
{
    &&& fuel > 0
    &&& i < children.len()
    &&& forall|k: int| 0 <= k < children[i as int].len() ==> fits(children, #[trigger] children[i as int][k], (fuel - 1) as nat)
}

/// Depth-first, parent-before-children order of the subtree under node `i`.
pub open spec fn preorder(children: Seq<Seq<usize>>, i: usize, fuel: nat) -> Seq<usize>
    decreases fuel, 0nat,
{
    if fuel == 0 || i >= children.len() {
        Seq::empty()
    } else {
        seq![i] + preorder_list(children, children[i as int], 0, (fuel - 1) as nat)
    }
}

/// The preorders of the subtrees under `list[k..]`, one after the other.
pub open spec fn preorder_list(children: Seq<Seq<usize>>, list: Seq<usize>, k: nat, fuel: nat) -> Seq<usize>
    decreases fuel, list.len() - k + 1,
{
    if k >= list.len() {
        Seq::empty()
    } else {
        preorder(children, list[k as int], fuel) + preorder_list(children, list, k + 1, fuel)
    }
}

fn visit(nodes: &[SceneNode], i: usize, Ghost(fuel): Ghost<nat>, out: &mut Vec<usize>)
    requires
        fits(child_lists(nodes@), i, fuel),
    ensures
        final(out)@ == old(out)@ + preorder(child_lists(nodes@), i, fuel),
    decreases fuel, 0nat,
{
    let ghost ch = child_lists(nodes@);
    out.push(i);
    let ghost after_self = out@;
    let children = &nodes[i].children;
    proof {
        assert(ch[i as int] == children@);
    }
    let mut k: usize = 0;
    while k < children.len()
        invariant
            ch == child_lists(nodes@),
            fits(ch, i, fuel),
            ch[i as int] == children@,
            k <= children@.len(),
            after_self + preorder_list(ch, children@, 0, (fuel - 1) as nat)
                == out@ + preorder_list(ch, children@, k as nat, (fuel - 1) as nat),
        decreases children@.len() - k,
    {
        let c = children[k];
        proof {
            assert(fits(ch, children@[k as int], (fuel - 1) as nat));
        }
        let ghost before = out@;
        visit(nodes, c, Ghost((fuel - 1) as nat), out);
        proof {
            let rest = preorder_list(ch, children@, (k + 1) as nat, (fuel - 1) as nat);
            assert(preorder_list(ch, children@, k as nat, (fuel - 1) as nat)
                == preorder(ch, c, (fuel - 1) as nat) + rest);
            assert(out@ + rest =~= before + (preorder(ch, c, (fuel - 1) as nat) + rest));
        }
        k += 1;
    }
    proof {
        assert(preorder_list(ch, children@, k as nat, (fuel - 1) as nat) =~= Seq::<usize>::empty());
        assert(out@ =~= old(out)@ + preorder(ch, i, fuel));
    }
}

/// All nodes of the scene, each root's subtree in turn, parents before
/// their children, children in order; every subtree must be acyclic.
pub fn traverse_root_nodes(nodes: &[SceneNode], roots: &[usize]) -> (order: Vec<usize>)
    requires
        forall|r: int| 0 <= r < roots@.len() ==> fits(child_lists(nodes@), #[trigger] roots@[r], nodes@.len()),
    ensures
        order@ == preorder_list(child_lists(nodes@), roots@, 0, nodes@.len()),
{
    let mut out: Vec<usize> = Vec::new();
    let ghost ch = child_lists(nodes@);
    let ghost fuel = nodes@.len();
    let mut k: usize = 0;
    while k < roots.len()
        invariant
            ch == child_lists(nodes@),
            fuel == nodes@.len(),
            forall|r: int| 0 <= r < roots@.len() ==> fits(ch, #[trigger] roots@[r], fuel),
            k <= roots@.len(),
            preorder_list(ch, roots@, 0, fuel) == out@ + preorder_list(ch, roots@, k as nat, fuel),
        decreases roots@.len() - k,
    {
        let ghost before = out@;
        proof {
            assert(fits(ch, roots@[k as int], fuel));
        }
        visit(nodes, roots[k], Ghost(fuel), &mut out);
        proof {
            let rest = preorder_list(ch, roots@, (k + 1) as nat, fuel);
            assert(out@ + rest =~= before + (preorder(ch, roots@[k as int], fuel) + rest));
        }
        k += 1;
    }
    proof {
        assert(out@ =~= out@ + preorder_list(ch, roots@, k as nat, fuel));
    }
    out
}

/// Whether every item of a document table stands at the position its own
/// index names (the loader asserts this of each table it reads).
pub fn check_indices(indices: &[usize]) -> (b: bool)
    ensures
        b == forall|i: int| 0 <= i < indices@.len() ==> #[trigger] indices@[i] == i,
{
    let mut i: usize = 0;
    while i < indices.len()
        invariant
            i <= indices@.len(),
            forall|k: int| 0 <= k < i ==> #[trigger] indices@[k] == k,
        decreases indices@.len() - i,
    {
        if indices[i] != i {
            return false;
        }
        i += 1;
    }
    true
}

/// Whether the subtree under node `i` is a finite tree of existing nodes
/// less than `fuel` levels deep.
pub fn subtree_fits(nodes: &[SceneNode], i: usize, fuel: usize) -> (b: bool)
    ensures
        b == fits(child_lists(nodes@), i, fuel as nat),
    decreases fuel,
{
    let ghost ch = child_lists(nodes@);
    if fuel == 0 || i >= nodes.len() {
        return false;
    }
    let children = &nodes[i].children;
    proof {
        assert(ch[i as int] == children@);
    }
    let mut k: usize = 0;
    while k < children.len()
        invariant
            ch == child_lists(nodes@),
            fuel > 0,
            i < nodes@.len(),
            ch[i as int] == children@,
            k <= children@.len(),
            forall|j: int| 0 <= j < k ==> fits(ch, #[trigger] children@[j], (fuel - 1) as nat),
        decreases children@.len() - k,
    {
        if !subtree_fits(nodes, children[k], fuel - 1) {
            return false;
        }
        k += 1;
    }
    true
}

/// Whether every root's subtree can be walked: its nodes exist and it has
/// no cycle (the walk of `traverse_root_nodes` ends).
pub fn walkable(nodes: &[SceneNode], roots: &[usize]) -> (b: bool)
    ensures
        b == forall|r: int| 0 <= r < roots@.len() ==> fits(child_lists(nodes@), #[trigger] roots@[r], nodes@.len()),
{
    let mut r: usize = 0;
    while r < roots.len()
        invariant
            r <= roots@.len(),
            forall|q: int| 0 <= q < r ==> fits(child_lists(nodes@), #[trigger] roots@[q], nodes@.len()),
        decreases roots@.len() - r,
    {
        if !subtree_fits(nodes, roots[r], nodes.len()) {
            return false;
        }
        r += 1;
    }
    true
}

} // verus!
