//! The mathematical model of the stream dependency tree: a map from stream
//! identifier to node, with the well-formedness predicate that makes it a
//! forest, the reparenting operation every structural change is built from,
//! and the lemmas that show the operation keeps the forest well formed.

use vstd::prelude::*;
use vstd::relations::injective_on;
use vstd::set_lib::*;

verus! {

/// One node of the dependency tree, as contracts see it.
pub struct NodeView {
    /// The stream this one depends on; 0 for an independent stream.
    pub parent: u32,
    /// 1 for an independent stream, one more than the parent's otherwise.
    pub depth: int,
    /// Whether the node has an exclusive child.
    pub is_exclusive: bool,
    /// The exclusive child, 0 when there is none.
    pub exclusive_child: u32,
    /// The streams that depend directly on this one.
    pub children: Set<u32>,
}

/// A selection of sibling nodes: the children of `from` (the independent
/// streams when `from` is 0), narrowed to the single node `only` unless
/// `only` is 0, and without `except`.
#[derive(Clone, Copy)]
pub struct Pick {
    pub from: u32,
    pub only: u32,
    pub except: u32,
}

/// What holds of a single node in a well-formed forest.
pub open spec fn node_wf(t: Map<u32, NodeView>, k: u32) -> bool {
    let n = t[k];
    &&& n.depth >= 1
    &&& (n.parent == 0 ==> n.depth == 1)
    &&& (n.parent != 0 ==> t.contains_key(n.parent) && n.depth == t[n.parent].depth + 1)
    &&& (forall|c: u32| #[trigger]
        n.children.contains(c) <==> (t.contains_key(c) && t[c].parent == k))
    &&& (n.is_exclusive ==> n.children =~= set![n.exclusive_child])
    &&& (!n.is_exclusive ==> n.exclusive_child == 0)
}

/// The forest invariant: identifier 0 is no node, every parent is a node, a
/// node's depth is one more than its parent's, the child sets mirror the
/// parent links, and an exclusive parent has exactly its exclusive child.
pub open spec fn forest_wf(t: Map<u32, NodeView>) -> bool {
    &&& !t.contains_key(0)
    &&& forall|k: u32| #[trigger] t.contains_key(k) ==> node_wf(t, k)
}

/// The node reached from `k` by following `steps` parent links; 0 once the
/// walk has left the forest.
pub open spec fn nth_ancestor(t: Map<u32, NodeView>, k: u32, steps: nat) -> u32
    decreases steps,
{
    if steps == 0 {
        k
    } else if t.contains_key(k) {
        nth_ancestor(t, t[k].parent, (steps - 1) as nat)
    } else {
        0
    }
}

/// Whether `k` is one of the nodes that `p` selects.
pub open spec fn picked(t: Map<u32, NodeView>, p: Pick, k: u32) -> bool {
    &&& t.contains_key(k)
    &&& t[k].parent == p.from
    &&& (p.only == 0 || k == p.only)
    &&& k != p.except
}

/// Whether `k` is a selected node or a descendant of one.
pub open spec fn under(t: Map<u32, NodeView>, p: Pick, k: u32) -> bool
    decreases t[k].depth,
{
    picked(t, p, k) || (t.contains_key(k) && t[k].parent != 0 && t.contains_key(t[k].parent) && 0
        <= t[t[k].parent].depth < t[k].depth && under(t, p, t[k].parent))
}

/// The selection that holds `a` alone.
pub open spec fn subtree_pick(t: Map<u32, NodeView>, a: u32) -> Pick {
    Pick { from: t[a].parent, only: a, except: 0 }
}

/// Whether `k` lies in the subtree rooted at `a` (`a` itself included).
pub open spec fn in_subtree(t: Map<u32, NodeView>, a: u32, k: u32) -> bool {
    under(t, subtree_pick(t, a), k)
}

/// The depth that a direct child of `q` has; 1 where `q` is 0.
pub open spec fn child_depth(t: Map<u32, NodeView>, q: u32) -> int {
    if q == 0 {
        1
    } else {
        t[q].depth + 1
    }
}

/// Node `k` once the nodes of `done`, all selected by `p`, hang below `q`,
/// and every node under the selection has its final depth.
pub open spec fn regraft_node(
    t: Map<u32, NodeView>,
    p: Pick,
    q: u32,
    done: Set<u32>,
    k: u32,
) -> NodeView {
    let n = t[k];
    let touched = (k == p.from || k == q) && exists|s: u32| done.contains(s);
    NodeView {
        parent: if done.contains(k) {
            q
        } else {
            n.parent
        },
        depth: if under(t, p, k) {
            n.depth - child_depth(t, p.from) + child_depth(t, q)
        } else {
            n.depth
        },
        is_exclusive: !touched && n.is_exclusive,
        exclusive_child: if touched {
            0
        } else {
            n.exclusive_child
        },
        children: if k == p.from {
            Set::new(|c: u32| n.children.contains(c) && !done.contains(c))
        } else if k == q {
            Set::new(|c: u32| n.children.contains(c) || done.contains(c))
        } else {
            n.children
        },
    }
}

/// The forest after every node that `p` selects has been moved, with its
/// subtree, to hang below `q` (to become independent where `q` is 0). The
/// old and the new parent stop being exclusive when anything moves.
pub open spec fn regraft(t: Map<u32, NodeView>, p: Pick, q: u32) -> Map<u32, NodeView> {
    if p.from == q {
        t
    } else {
        Map::new(
            |k: u32| t.contains_key(k),
            |k: u32| regraft_node(t, p, q, Set::new(|s: u32| picked(t, p, s)), k),
        )
    }
}

/// A node under a selection is a node of the forest, and it is either
/// selected or strictly deeper than the selected nodes.
pub proof fn lemma_under_depth(t: Map<u32, NodeView>, p: Pick, k: u32)
    requires
        forest_wf(t),
        under(t, p, k),
    ensures
        t.contains_key(k),
        picked(t, p, k) || (t[k].depth > child_depth(t, p.from) && t[k].parent != 0),
        p.from != 0 ==> t.contains_key(p.from),
    decreases t[k].depth,
{
    if !picked(t, p, k) {
        assert(node_wf(t, k));
        lemma_under_depth(t, p, t[k].parent);
        assert(node_wf(t, t[k].parent));
    } else {
        assert(node_wf(t, k));
    }
}

/// Moving a selection below a node that is not under it keeps the forest
/// well formed.
pub proof fn lemma_regraft_wf(t: Map<u32, NodeView>, p: Pick, q: u32)
    requires
        forest_wf(t),
        q == 0 || (t.contains_key(q) && !under(t, p, q)),
    ensures
        forest_wf(regraft(t, p, q)),
        regraft(t, p, q).dom() =~= t.dom(),
{
    let r = regraft(t, p, q);
    if p.from != q {
        let done = Set::new(|s: u32| picked(t, p, s));
        assert forall|k: u32| #[trigger] r.contains_key(k) implies node_wf(r, k) by {
            assert(node_wf(t, k));
            let n = t[k];
            if under(t, p, k) {
                lemma_under_depth(t, p, k);
            }
            if n.parent != 0 {
                assert(node_wf(t, n.parent));
                if under(t, p, n.parent) {
                    lemma_under_depth(t, p, n.parent);
                }
            }
            if q != 0 {
                assert(node_wf(t, q));
            }
            assert forall|c: u32| #[trigger]
                r[k].children.contains(c) <==> (r.contains_key(c) && r[c].parent == k) by {
                if t.contains_key(c) {
                    assert(node_wf(t, c));
                }
            }
            if r[k].is_exclusive {
                if k == p.from || k == q {
                    assert(forall|s: u32| !done.contains(s));
                    assert forall|s: u32| !picked(t, p, s) by {
                        assert(!done.contains(s));
                    }
                }
                assert(r[k].children =~= n.children);
            }
        }
    }
}

/// In a well-formed forest, following `depth - 1` parent links from a node
/// ends at an independent node, and one more link leaves the forest: the
/// depth is the number of edges to the root plus one.
pub proof fn lemma_depth_counts_edges(t: Map<u32, NodeView>, k: u32)
    requires
        forest_wf(t),
        t.contains_key(k),
    ensures
        t.contains_key(nth_ancestor(t, k, (t[k].depth - 1) as nat)),
        t[nth_ancestor(t, k, (t[k].depth - 1) as nat)].parent == 0,
        nth_ancestor(t, k, t[k].depth as nat) == 0,
        forall|j: nat| j < t[k].depth ==> t.contains_key(#[trigger] nth_ancestor(t, k, j)),
    decreases t[k].depth,
{
    assert(node_wf(t, k));
    reveal_with_fuel(nth_ancestor, 2);
    if t[k].parent != 0 {
        let m = t[k].parent;
        lemma_depth_counts_edges(t, m);
        assert forall|j: nat| j < t[k].depth implies t.contains_key(
            #[trigger] nth_ancestor(t, k, j),
        ) by {
            if j > 0 {
                assert(nth_ancestor(t, k, j) == nth_ancestor(t, m, (j - 1) as nat));
            }
        }
    } else {
        assert forall|j: nat| j < t[k].depth implies t.contains_key(
            #[trigger] nth_ancestor(t, k, j),
        ) by {
            assert(j == 0);
        }
    }
}

/// In a well-formed forest the node reached after `steps` parent links is
/// either outside the forest or exactly `steps` levels higher.
pub proof fn lemma_ancestor_depth(t: Map<u32, NodeView>, k: u32, steps: nat)
    requires
        forest_wf(t),
        t.contains_key(k),
    ensures
        t.contains_key(nth_ancestor(t, k, steps)) ==> t[nth_ancestor(t, k, steps)].depth
            == t[k].depth - steps,
    decreases steps,
{
    assert(node_wf(t, k));
    if steps > 0 && t[k].parent != 0 {
        lemma_ancestor_depth(t, t[k].parent, (steps - 1) as nat);
    } else if steps > 0 {
        reveal_with_fuel(nth_ancestor, 2);
        if steps > 1 {
            assert(nth_ancestor(t, 0, (steps - 1) as nat) == 0);
        }
    }
}

/// No cycles: in a well-formed forest no node is its own ancestor.
pub proof fn lemma_acyclic(t: Map<u32, NodeView>, k: u32, steps: nat)
    requires
        forest_wf(t),
        t.contains_key(k),
        steps >= 1,
    ensures
        nth_ancestor(t, k, steps) != k,
{
    lemma_ancestor_depth(t, k, steps);
}

/// The nodes on the path from `k` up to its root, `k` included.
pub open spec fn path_to_root(t: Map<u32, NodeView>, k: u32) -> Set<u32>
    decreases t[k].depth,
{
    if t.contains_key(k) && t[k].parent != 0 && t.contains_key(t[k].parent) && 0
        <= t[t[k].parent].depth < t[k].depth {
        path_to_root(t, t[k].parent).insert(k)
    } else {
        set![k]
    }
}

/// The path from a node to its root holds as many nodes as the node is deep.
pub proof fn lemma_path_to_root(t: Map<u32, NodeView>, k: u32)
    requires
        forest_wf(t),
        t.contains_key(k),
    ensures
        path_to_root(t, k).finite(),
        path_to_root(t, k).len() == t[k].depth,
        forall|x: u32| #[trigger]
            path_to_root(t, k).contains(x) ==> t.contains_key(x) && t[x].depth <= t[k].depth,
    decreases t[k].depth,
{
    assert(node_wf(t, k));
    if t[k].parent != 0 {
        let m = t[k].parent;
        assert(node_wf(t, m));
        lemma_path_to_root(t, m);
        assert(!path_to_root(t, m).contains(k));
    }
}

/// No node is deeper than the forest has nodes, and a forest holds fewer
/// nodes than there are identifiers: every depth fits in 32 bits.
pub proof fn lemma_depth_bounded(t: Map<u32, NodeView>, k: u32)
    requires
        forest_wf(t),
        t.dom().finite(),
        t.contains_key(k),
    ensures
        t[k].depth <= t.dom().len() <= u32::MAX,
{
    lemma_path_to_root(t, k);
    lemma_len_subset(path_to_root(t, k), t.dom());
    let widen = |x: u32| x as int;
    let image = t.dom().map(widen);
    assert(injective_on(widen, t.dom()));
    lemma_map_size(t.dom(), image, widen);
    lemma_int_range(1, 0x1_0000_0000);
    assert(image.subset_of(set_int_range(1, 0x1_0000_0000)));
    lemma_len_subset(image, set_int_range(1, 0x1_0000_0000));
}

/// A node without parent or children.
pub open spec fn fresh_node() -> NodeView {
    NodeView {
        parent: 0,
        depth: 1,
        is_exclusive: false,
        exclusive_child: 0,
        children: Set::empty(),
    }
}

/// The forest with `id` as an independent node, unless `id` is 0 or a node
/// already.
pub open spec fn with_root(t: Map<u32, NodeView>, id: u32) -> Map<u32, NodeView> {
    if id == 0 || t.contains_key(id) {
        t
    } else {
        t.insert(id, fresh_node())
    }
}

/// The forest after node `a` has been made a child of node `b`. Where `b`
/// lies in the subtree of `a`, `b` first moves up to take the place of `a`
/// below the parent of `a`, so that no cycle arises.
pub open spec fn reparented(t: Map<u32, NodeView>, a: u32, b: u32) -> Map<u32, NodeView> {
    if in_subtree(t, a, b) {
        let t1 = regraft(t, subtree_pick(t, b), t[a].parent);
        regraft(t1, subtree_pick(t1, a), b)
    } else {
        regraft(t, subtree_pick(t, a), b)
    }
}

/// The node below which a new child of `b` is placed: the exclusive child of
/// `b` where it has one, `b` itself otherwise.
pub open spec fn route(t: Map<u32, NodeView>, b: u32) -> u32 {
    if t[b].is_exclusive {
        t[b].exclusive_child
    } else {
        b
    }
}

/// The forest after `a` has been made dependent on `b`. Nothing changes
/// where either is no node, where they are the same node, or where `a` is
/// already the exclusive child of `b`.
pub open spec fn with_dependency(t: Map<u32, NodeView>, a: u32, b: u32) -> Map<u32, NodeView> {
    if !t.contains_key(a) || !t.contains_key(b) || a == b || route(t, b) == a {
        t
    } else {
        reparented(t, a, route(t, b))
    }
}

/// The forest with a new node `id` that depends on `b`. Nothing changes
/// where `id` is 0 or a node already, or where `b` is no node.
pub open spec fn with_dependent_root(t: Map<u32, NodeView>, id: u32, b: u32) -> Map<
    u32,
    NodeView,
> {
    if id == 0 || t.contains_key(id) || !t.contains_key(b) {
        t
    } else {
        with_dependency(t.insert(id, fresh_node()), id, b)
    }
}

/// The selection of all children of `id`.
pub open spec fn children_pick(id: u32) -> Pick {
    Pick { from: id, only: 0, except: 0 }
}

/// The forest without node `id`: its children take its parent (or become
/// independent), their subtrees move up one level, and the parent stops
/// being exclusive.
pub open spec fn retired(t: Map<u32, NodeView>, id: u32) -> Map<u32, NodeView> {
    if !t.contains_key(id) {
        t
    } else {
        let q = t[id].parent;
        let t1 = regraft(t, children_pick(id), q);
        if q == 0 {
            t1.remove(id)
        } else {
            t1.remove(id).insert(
                q,
                NodeView {
                    is_exclusive: false,
                    exclusive_child: 0,
                    children: t1[q].children.remove(id),
                    ..t1[q]
                },
            )
        }
    }
}

/// The selection of the children of `p` other than `c`.
pub open spec fn siblings_pick(c: u32, p: u32) -> Pick {
    Pick { from: p, only: 0, except: c }
}

/// The forest after `c` has become the exclusive child of `p`: `c` is made a
/// child of `p`, the other children of `p` move below `c`, and `p` is marked
/// exclusive. Nothing changes where either is no node or they are the same.
pub open spec fn made_exclusive(t: Map<u32, NodeView>, c: u32, p: u32) -> Map<u32, NodeView> {
    if !t.contains_key(c) || !t.contains_key(p) || c == p {
        t
    } else {
        let t1 = reparented(t, c, p);
        let t2 = regraft(t1, siblings_pick(c, p), c);
        t2.insert(p, NodeView { is_exclusive: true, exclusive_child: c, ..t2[p] })
    }
}

/// Whether `id` is an independent node of the forest.
pub open spec fn is_ready(t: Map<u32, NodeView>, id: u32) -> bool {
    t.contains_key(id) && t[id].parent == 0
}

/// The ready queue: the queued identifiers that are independent nodes, in
/// queue order.
pub open spec fn ready_seq(t: Map<u32, NodeView>, q: Seq<u32>) -> Seq<u32>
    decreases q.len(),
{
    if q.len() == 0 {
        Seq::empty()
    } else if is_ready(t, q[0]) {
        seq![q[0]] + ready_seq(t, q.skip(1))
    } else {
        ready_seq(t, q.skip(1))
    }
}

/// The number of queue entries in front of the first ready one; the length
/// of the queue where none is ready.
pub open spec fn stale_prefix(t: Map<u32, NodeView>, q: Seq<u32>) -> int
    decreases q.len(),
{
    if q.len() == 0 || is_ready(t, q[0]) {
        0
    } else {
        1 + stale_prefix(t, q.skip(1))
    }
}

/// Adding an independent node keeps the forest well formed.
pub proof fn lemma_with_root_wf(t: Map<u32, NodeView>, id: u32)
    requires
        forest_wf(t),
    ensures
        forest_wf(with_root(t, id)),
{
    let r = with_root(t, id);
    assert forall|k: u32| #[trigger] r.contains_key(k) implies node_wf(r, k) by {
        if k != id || t.contains_key(id) {
            assert(node_wf(t, k));
        }
    }
}

/// Making one node a child of another keeps the forest well formed, keeps
/// its nodes, and gives the child its new parent.
pub proof fn lemma_reparented_wf(t: Map<u32, NodeView>, a: u32, b: u32)
    requires
        forest_wf(t),
        t.contains_key(a),
        t.contains_key(b),
        a != b,
    ensures
        forest_wf(reparented(t, a, b)),
        reparented(t, a, b).dom() =~= t.dom(),
        reparented(t, a, b)[a].parent == b,
        forall|c: u32| t[b].children.contains(c) ==> reparented(t, a, b)[b].children.contains(c),
        reparented(t, a, b)[b].children.contains(a),
{
    assert(node_wf(t, a));
    assert(node_wf(t, b));
    if in_subtree(t, a, b) {
        let x = t[a].parent;
        lemma_under_depth(t, subtree_pick(t, a), b);
        if x != 0 {
            assert(node_wf(t, x));
            if under(t, subtree_pick(t, b), x) {
                lemma_under_depth(t, subtree_pick(t, b), x);
            }
        }
        if under(t, subtree_pick(t, b), a) {
            lemma_under_depth(t, subtree_pick(t, b), a);
        }
        lemma_regraft_wf(t, subtree_pick(t, b), x);
        let t1 = regraft(t, subtree_pick(t, b), x);
        assert(t1.contains_key(a) && t1.contains_key(b));
        assert(node_wf(t1, a));
        assert(node_wf(t1, b));
        if under(t1, subtree_pick(t1, a), b) {
            lemma_under_depth(t1, subtree_pick(t1, a), b);
        }
        lemma_regraft_wf(t1, subtree_pick(t1, a), b);
        let t2 = regraft(t1, subtree_pick(t1, a), b);
        assert(picked(t1, subtree_pick(t1, a), a));
        assert(node_wf(t2, b));
    } else {
        lemma_regraft_wf(t, subtree_pick(t, a), b);
        let t2 = regraft(t, subtree_pick(t, a), b);
        assert(picked(t, subtree_pick(t, a), a));
        assert(node_wf(t2, b));
    }
}

/// Setting a dependency keeps the forest well formed and keeps its nodes:
/// whatever dependencies are set, the parent links never form a cycle.
pub proof fn lemma_with_dependency_wf(t: Map<u32, NodeView>, a: u32, b: u32)
    requires
        forest_wf(t),
    ensures
        forest_wf(with_dependency(t, a, b)),
        with_dependency(t, a, b).dom() =~= t.dom(),
{
    if t.contains_key(a) && t.contains_key(b) && a != b && route(t, b) != a {
        assert(node_wf(t, b));
        if t[b].is_exclusive {
            assert(t[b].children.contains(t[b].exclusive_child));
        }
        lemma_reparented_wf(t, a, route(t, b));
    }
}

/// However a dependency is set in a well-formed forest, no node becomes its
/// own ancestor: following one or more parent links from a node never leads
/// back to it.
pub proof fn lemma_dependency_makes_no_cycle(
    t: Map<u32, NodeView>,
    a: u32,
    b: u32,
    k: u32,
    steps: nat,
)
    requires
        forest_wf(t),
        with_dependency(t, a, b).contains_key(k),
        steps >= 1,
    ensures
        nth_ancestor(with_dependency(t, a, b), k, steps) != k,
{
    lemma_with_dependency_wf(t, a, b);
    lemma_acyclic(with_dependency(t, a, b), k, steps);
}

/// Adding a dependent node keeps the forest well formed.
pub proof fn lemma_with_dependent_root_wf(t: Map<u32, NodeView>, id: u32, b: u32)
    requires
        forest_wf(t),
    ensures
        forest_wf(with_dependent_root(t, id, b)),
{
    if !(id == 0 || t.contains_key(id) || !t.contains_key(b)) {
        lemma_with_root_wf(t, id);
        lemma_with_dependency_wf(with_root(t, id), id, b);
    }
}

/// Retiring a node keeps the forest well formed; every other node stays.
pub proof fn lemma_retired_wf(t: Map<u32, NodeView>, id: u32)
    requires
        forest_wf(t),
    ensures
        forest_wf(retired(t, id)),
        retired(t, id).dom() =~= t.dom().remove(id),
{
    if t.contains_key(id) {
        let q = t[id].parent;
        let p = children_pick(id);
        assert(node_wf(t, id));
        if q != 0 && under(t, p, q) {
            lemma_under_depth(t, p, q);
        }
        lemma_regraft_wf(t, p, q);
        let t1 = regraft(t, p, q);
        let r = retired(t, id);
        assert forall|k: u32| #[trigger] r.contains_key(k) implies node_wf(r, k) by {
            assert(node_wf(t1, k));
            assert(node_wf(t1, id));
            assert(node_wf(t, k));
            if t1[k].parent == id {
                assert(t1[id].children.contains(k));
                assert(t[id].children.contains(k));
                assert(picked(t, p, k));
            }
            if r[k].parent != 0 {
                assert(node_wf(t1, r[k].parent));
            }
            assert forall|c: u32| #[trigger]
                r[k].children.contains(c) <==> (r.contains_key(c) && r[c].parent == k) by {
                if t1.contains_key(c) {
                    assert(node_wf(t1, c));
                }
            }
            if r[k].is_exclusive {
                assert(k != q);
                assert(r[k].children =~= t1[k].children);
            }
        }
    }
}

/// After a node has been made the exclusive child of another, the parent
/// has that child alone, and every former child of the parent lies in the
/// subtree of the exclusive child.
pub proof fn lemma_made_exclusive(t: Map<u32, NodeView>, c: u32, p: u32)
    requires
        forest_wf(t),
        t.contains_key(c),
        t.contains_key(p),
        c != p,
    ensures
        forest_wf(made_exclusive(t, c, p)),
        made_exclusive(t, c, p).dom() =~= t.dom(),
        made_exclusive(t, c, p)[p].is_exclusive,
        made_exclusive(t, c, p)[p].exclusive_child == c,
        made_exclusive(t, c, p)[p].children =~= set![c],
        made_exclusive(t, c, p)[p].children.len() == 1,
        forall|s: u32| t[p].children.contains(s) ==> in_subtree(made_exclusive(t, c, p), c, s),
{
    lemma_reparented_wf(t, c, p);
    let t1 = reparented(t, c, p);
    let sp = siblings_pick(c, p);
    assert(node_wf(t1, c));
    assert(node_wf(t1, p));
    if under(t1, sp, c) {
        lemma_under_depth(t1, sp, c);
        assert(under(t1, sp, p));
        lemma_under_depth(t1, sp, p);
    }
    lemma_regraft_wf(t1, sp, c);
    let t2 = regraft(t1, sp, c);
    let r = made_exclusive(t, c, p);
    assert(node_wf(t2, p));
    assert(node_wf(t2, c));
    if under(t1, sp, p) {
        lemma_under_depth(t1, sp, p);
    }
    assert(t2[p].children =~= set![c]) by {
        assert forall|x: u32| t2[p].children.contains(x) <==> x == c by {
            if t1.contains_key(x) {
                assert(node_wf(t1, x));
            }
        }
    }
    assert forall|k: u32| #[trigger] r.contains_key(k) implies node_wf(r, k) by {
        assert(node_wf(t2, k));
        if r[k].parent != 0 {
            assert(node_wf(t2, r[k].parent));
        }
    }
    assert forall|s: u32| t[p].children.contains(s) implies in_subtree(r, c, s) by {
        assert(t1[p].children.contains(s));
        assert(t1.contains_key(s) && t1[s].parent == p);
        assert(node_wf(r, c));
        assert(node_wf(r, p));
        assert(r[c].parent == p);
        assert(picked(r, subtree_pick(r, c), c));
        if s != c {
            assert(picked(t1, sp, s));
            assert(r[s].parent == c);
            assert(node_wf(r, s));
            assert(under(r, subtree_pick(r, c), c));
        }
    }
}

/// A queue entry that is not an independent node does not show in the ready
/// queue.
pub proof fn lemma_ready_seq_push_stale(t: Map<u32, NodeView>, q: Seq<u32>, id: u32)
    requires
        !is_ready(t, id),
    ensures
        ready_seq(t, q.push(id)) == ready_seq(t, q),
    decreases q.len(),
{
    if q.len() == 0 {
        assert(q.push(id).skip(1) =~= Seq::<u32>::empty());
        reveal_with_fuel(ready_seq, 2);
    } else {
        assert(q.push(id).skip(1) =~= q.skip(1).push(id));
        lemma_ready_seq_push_stale(t, q.skip(1), id);
    }
}

/// Adding a new independent stream and retiring it again gives back the
/// forest as it was, and the ready queue shows what it showed before.
pub proof fn lemma_add_then_retire(t: Map<u32, NodeView>, q: Seq<u32>, id: u32)
    requires
        forest_wf(t),
        !t.contains_key(id),
    ensures
        retired(with_root(t, id), id) =~= t,
        ready_seq(retired(with_root(t, id), id), q.push(id)) == ready_seq(t, q),
{
    let t0 = with_root(t, id);
    if id != 0 {
        let p = children_pick(id);
        let t1 = regraft(t0, p, 0);
        assert forall|k: u32| t0.contains_key(k) implies !under(t0, p, k) by {
            lemma_with_root_wf(t, id);
            if under(t0, p, k) {
                lemma_no_children_nothing_under(t0, p, k);
            }
        }
        assert forall|k: u32| t.contains_key(k) implies #[trigger] t1[k] == t[k] by {
            assert(node_wf(t, k));
            assert(!under(t0, p, k));
            assert(t1[k].children =~= t[k].children);
        }
        assert(t1.remove(id) =~= t);
    }
    lemma_ready_seq_push_stale(t, q, id);
}

/// Where nothing is selected, nothing lies under the selection.
pub proof fn lemma_no_children_nothing_under(t: Map<u32, NodeView>, p: Pick, k: u32)
    requires
        forall|s: u32| !picked(t, p, s),
    ensures
        !under(t, p, k),
    decreases t[k].depth,
{
    if under(t, p, k) {
        lemma_no_children_nothing_under(t, p, t[k].parent);
    }
}

/// Where `b` lies below `a`, `b` can be moved up to the parent of `a`, and
/// `a` can then be moved below `b`: neither move puts a node under itself.
pub proof fn lemma_swap_safe(t: Map<u32, NodeView>, a: u32, b: u32)
    requires
        forest_wf(t),
        t.contains_key(a),
        t.contains_key(b),
        a != b,
        in_subtree(t, a, b),
    ensures
        t[a].parent == 0 || (t.contains_key(t[a].parent) && !under(
            t,
            subtree_pick(t, b),
            t[a].parent,
        )),
        forest_wf(regraft(t, subtree_pick(t, b), t[a].parent)),
        regraft(t, subtree_pick(t, b), t[a].parent).dom() =~= t.dom(),
        !under(
            regraft(t, subtree_pick(t, b), t[a].parent),
            subtree_pick(regraft(t, subtree_pick(t, b), t[a].parent), a),
            b,
        ),
{
    assert(node_wf(t, a));
    assert(node_wf(t, b));
    let x = t[a].parent;
    lemma_under_depth(t, subtree_pick(t, a), b);
    if x != 0 {
        assert(node_wf(t, x));
        if under(t, subtree_pick(t, b), x) {
            lemma_under_depth(t, subtree_pick(t, b), x);
        }
    }
    if under(t, subtree_pick(t, b), a) {
        lemma_under_depth(t, subtree_pick(t, b), a);
    }
    lemma_regraft_wf(t, subtree_pick(t, b), x);
    let t1 = regraft(t, subtree_pick(t, b), x);
    assert(t1.contains_key(a) && t1.contains_key(b));
    assert(node_wf(t1, a));
    assert(node_wf(t1, b));
    if under(t1, subtree_pick(t1, a), b) {
        lemma_under_depth(t1, subtree_pick(t1, a), b);
    }
}

/// A node at most as deep as another holds that other in its subtree only
/// where the two are the same node.
pub proof fn lemma_subtree_needs_depth(t: Map<u32, NodeView>, a: u32, k: u32)
    requires
        forest_wf(t),
        t.contains_key(a),
        t.contains_key(k),
        t[k].depth <= t[a].depth,
    ensures
        in_subtree(t, a, k) == (k == a),
{
    assert(node_wf(t, a));
    if in_subtree(t, a, k) {
        lemma_under_depth(t, subtree_pick(t, a), k);
    }
}

/// The parent of a node does not lie under any of the node's children.
pub proof fn lemma_parent_not_under_children(t: Map<u32, NodeView>, id: u32)
    requires
        forest_wf(t),
        t.contains_key(id),
    ensures
        t[id].parent == 0 || (t.contains_key(t[id].parent) && !under(
            t,
            children_pick(id),
            t[id].parent,
        )),
{
    assert(node_wf(t, id));
    let q = t[id].parent;
    if q != 0 && under(t, children_pick(id), q) {
        lemma_under_depth(t, children_pick(id), q);
    }
}

/// A child does not lie under any of its siblings.
pub proof fn lemma_child_not_under_siblings(t: Map<u32, NodeView>, c: u32, p: u32)
    requires
        forest_wf(t),
        t.contains_key(c),
        t.contains_key(p),
        t[c].parent == p,
    ensures
        !under(t, siblings_pick(c, p), c),
{
    let sp = siblings_pick(c, p);
    assert(node_wf(t, c));
    assert(node_wf(t, p));
    if under(t, sp, c) {
        lemma_under_depth(t, sp, c);
        assert(under(t, sp, p));
        lemma_under_depth(t, sp, p);
    }
}

/// The head of the ready queue is the first queue entry that is an
/// independent node, and the rest of the ready queue is what the entries
/// behind it show.
pub proof fn lemma_ready_head(t: Map<u32, NodeView>, q: Seq<u32>)
    ensures
        0 <= stale_prefix(t, q) <= q.len(),
        stale_prefix(t, q) < q.len() ==> is_ready(t, q[stale_prefix(t, q)]) && ready_seq(
            t,
            q,
        ) =~= seq![q[stale_prefix(t, q)]] + ready_seq(
            t,
            q.skip(stale_prefix(t, q) + 1),
        ),
        stale_prefix(t, q) == q.len() ==> ready_seq(t, q) =~= Seq::<u32>::empty(),
        forall|j: int| 0 <= j < stale_prefix(t, q) ==> !is_ready(t, #[trigger] q[j]),
    decreases q.len(),
{
    if q.len() != 0 && !is_ready(t, q[0]) {
        lemma_ready_head(t, q.skip(1));
        let n = stale_prefix(t, q.skip(1));
        if n < q.skip(1).len() {
            assert(q.skip(1).skip(n + 1) =~= q.skip(n + 2));
        }
        assert forall|j: int| 0 <= j < stale_prefix(t, q) implies !is_ready(t, #[trigger] q[j]) by {
            if j > 0 {
                assert(q[j] == q.skip(1)[j - 1]);
            }
        }
    }
}

/// How retiring `id` shows in the queue: where `id` was an independent node
/// its children, independent from then on, are queued behind the old
/// entries, each once, in no stated order; otherwise the queue is as it
/// was.
pub open spec fn orphans_queued(
    t: Map<u32, NodeView>,
    id: u32,
    old_q: Seq<u32>,
    new_q: Seq<u32>,
) -> bool {
    if t.contains_key(id) && t[id].parent == 0 {
        &&& new_q.len() >= old_q.len()
        &&& new_q.take(old_q.len() as int) =~= old_q
        &&& new_q.skip(old_q.len() as int).no_duplicates()
        &&& new_q.skip(old_q.len() as int).to_set() =~= t[id].children
    } else {
        new_q == old_q
    }
}

/// The forest after stream `id` was given the dependency `dep`, exclusive or
/// not, as a PRIORITY frame asks. A stream that is no node yet is added
/// first: below `dep` where `dep` is a node, as an independent stream
/// otherwise. Then the dependency is set, exclusively where asked.
pub open spec fn reprioritized(t: Map<u32, NodeView>, id: u32, dep: u32, exclusive: bool) -> Map<
    u32,
    NodeView,
> {
    let t1 = if t.contains_key(id) {
        t
    } else if t.contains_key(dep) {
        with_dependent_root(t, id, dep)
    } else {
        with_root(t, id)
    };
    if exclusive {
        made_exclusive(t1, id, dep)
    } else {
        with_dependency(t1, id, dep)
    }
}

/// The queue after stream `id` was given the dependency `dep`: a stream
/// that was added as an independent one is queued.
pub open spec fn reprioritized_queue(
    t: Map<u32, NodeView>,
    q: Seq<u32>,
    id: u32,
    dep: u32,
) -> Seq<u32> {
    if id != 0 && !t.contains_key(id) && !t.contains_key(dep) {
        q.push(id)
    } else {
        q
    }
}

/// Giving a stream a dependency keeps the forest well formed and keeps
/// every node; afterwards the stream is a node unless it is stream 0.
pub proof fn lemma_reprioritized_wf(t: Map<u32, NodeView>, id: u32, dep: u32, exclusive: bool)
    requires
        forest_wf(t),
    ensures
        forest_wf(reprioritized(t, id, dep, exclusive)),
        forall|k: u32| t.contains_key(k) ==> reprioritized(t, id, dep, exclusive).contains_key(k),
        id != 0 ==> reprioritized(t, id, dep, exclusive).contains_key(id),
{
    let t1 = if t.contains_key(id) {
        t
    } else if t.contains_key(dep) {
        with_dependent_root(t, id, dep)
    } else {
        with_root(t, id)
    };
    lemma_with_root_wf(t, id);
    lemma_with_dependent_root_wf(t, id, dep);
    if !t.contains_key(id) && t.contains_key(dep) && id != 0 {
        lemma_with_dependency_wf(t.insert(id, fresh_node()), id, dep);
    }
    lemma_with_dependency_wf(t1, id, dep);
    if t1.contains_key(id) && t1.contains_key(dep) && id != dep {
        lemma_made_exclusive(t1, id, dep);
    }
}

} // verus!
