//! The dependency tree of the streams of one connection, and the queue that
//! hands out the next independent stream. Independent streams are served
//! round robin; weights are not taken into account.

use crate::flow::forest::{
    child_depth, children_pick, forest_wf, fresh_node, in_subtree, is_ready,
    lemma_child_not_under_siblings, lemma_depth_bounded, lemma_made_exclusive,
    lemma_parent_not_under_children, lemma_ready_head, lemma_regraft_wf, lemma_reparented_wf,
    lemma_retired_wf, lemma_subtree_needs_depth, lemma_swap_safe, lemma_under_depth,
    lemma_with_dependency_wf, lemma_with_root_wf, made_exclusive, node_wf, orphans_queued, picked,
    ready_seq, regraft, regraft_node, reparented, reprioritized, reprioritized_queue, retired,
    stale_prefix, subtree_pick, under, with_dependency, with_dependent_root, with_root, NodeView,
    Pick,
};
use std::collections::{HashMap, HashSet, VecDeque};
use vstd::prelude::*;
use vstd::std_specs::iter::IteratorSpec;

verus! {

broadcast use vstd::std_specs::hash::group_hash_axioms;

/// A node of the dependency tree.
#[derive(Debug)]
pub struct StreamPriority {
    /// The stream this one depends on; 0 for none.
    pub parent: u32,
    /// 1 for an independent stream, one more than the parent's otherwise.
    pub depth: u32,
    /// Set on a parent once it has an exclusive child.
    pub is_exclusive: bool,
    /// The exclusive child; 0 where there is none.
    pub exclusive_child: u32,
    /// The streams that depend directly on this one.
    pub children: HashSet<u32>,
}

impl View for StreamPriority {
    type V = NodeView;

    open spec fn view(&self) -> NodeView {
        NodeView {
            parent: self.parent,
            depth: self.depth as int,
            is_exclusive: self.is_exclusive,
            exclusive_child: self.exclusive_child,
            children: self.children@,
        }
    }
}

impl StreamPriority {
    /// An independent node without children.
    pub fn new() -> (node: StreamPriority)
        ensures
            node@ == fresh_node(),
    {
        StreamPriority {
            parent: 0,
            depth: 1,
            is_exclusive: false,
            exclusive_child: 0,
            children: HashSet::new(),
        }
    }

    /// Sets the parent link.
    pub fn set_parent(&mut self, parent_id: u32)
        ensures
            final(self)@ == (NodeView { parent: parent_id, ..old(self)@ }),
    {
        self.parent = parent_id;
    }

    /// Sets the depth.
    pub fn set_depth(&mut self, depth: u32)
        ensures
            final(self)@ == (NodeView { depth: depth as int, ..old(self)@ }),
    {
        self.depth = depth;
    }

    /// Adds a child to the child set.
    pub fn add_child(&mut self, child_id: u32)
        ensures
            final(self)@ == (NodeView {
                children: old(self)@.children.insert(child_id),
                ..old(self)@
            }),
    {
        self.children.insert(child_id);
    }

    /// Removes a child from the child set.
    pub fn remove_child(&mut self, child_id: u32)
        ensures
            final(self)@ == (NodeView {
                children: old(self)@.children.remove(child_id),
                ..old(self)@
            }),
    {
        self.children.remove(&child_id);
    }

    /// Marks `child_id` as the exclusive child, or clears the mark where
    /// `is_exclusive` is false.
    pub fn set_exclusive(&mut self, is_exclusive: bool, child_id: u32)
        ensures
            final(self)@ == (NodeView {
                is_exclusive: is_exclusive,
                exclusive_child: if is_exclusive {
                    child_id
                } else {
                    0
                },
                ..old(self)@
            }),
    {
        self.is_exclusive = is_exclusive;
        self.exclusive_child = if is_exclusive {
            child_id
        } else {
            0
        };
    }
}

/// One entry of a reparenting plan: a node under the selection, whether it
/// is itself selected, and the depth it will have.
struct Step {
    id: u32,
    head: bool,
    depth: u32,
}

/// The dependency tree and the queue of independent streams.
#[derive(Debug)]
pub struct PriorityManager {
    streams: HashMap<u32, StreamPriority>,
    queue: VecDeque<u32>,
}

impl PriorityManager {
    /// The dependency tree as a map from identifier to node.
    pub closed spec fn tree(&self) -> Map<u32, NodeView> {
        Map::new(|k: u32| self.streams@.contains_key(k), |k: u32| self.streams@[k]@)
    }

    /// The queued identifiers, oldest first. An entry may be stale: retired
    /// since, or dependent by now.
    pub closed spec fn queue(&self) -> Seq<u32> {
        self.queue@
    }

    /// The invariant of the manager: its tree is a well-formed forest.
    pub open spec fn wf(&self) -> bool {
        forest_wf(self.tree())
    }

    /// An empty manager.
    pub fn new() -> (pm: PriorityManager)
        ensures
            pm.wf(),
            pm.tree() =~= Map::<u32, NodeView>::empty(),
            pm.queue() =~= Seq::<u32>::empty(),
    {
        PriorityManager { streams: HashMap::new(), queue: VecDeque::new() }
    }

    /// Whether `stream_id` is a node of the tree.
    pub fn contains(&self, stream_id: u32) -> (r: bool)
        ensures
            r == self.tree().contains_key(stream_id),
    {
        self.streams.contains_key(&stream_id)
    }

    /// The parent of `stream_id`, 0 for an independent stream; `None` where
    /// it is no node.
    pub fn parent_of(&self, stream_id: u32) -> (r: Option<u32>)
        ensures
            r == (if self.tree().contains_key(stream_id) {
                Some(self.tree()[stream_id].parent)
            } else {
                None
            }),
    {
        match self.streams.get(&stream_id) {
            Some(node) => Some(node.parent),
            None => None,
        }
    }

    /// The depth of `stream_id`; `None` where it is no node.
    pub fn depth_of(&self, stream_id: u32) -> (r: Option<u32>)
        ensures
            r is Some == self.tree().contains_key(stream_id),
            r is Some ==> r->0 as int == self.tree()[stream_id].depth,
    {
        match self.streams.get(&stream_id) {
            Some(node) => Some(node.depth),
            None => None,
        }
    }

    /// The number of direct children of `stream_id`; `None` where it is no
    /// node.
    pub fn children_count(&self, stream_id: u32) -> (r: Option<usize>)
        ensures
            r is Some == self.tree().contains_key(stream_id),
            r is Some ==> r->0 as nat == self.tree()[stream_id].children.len(),
    {
        match self.streams.get(&stream_id) {
            Some(node) => Some(node.children.len()),
            None => None,
        }
    }

    /// Whether `child_id` is recorded as a direct child of `parent_id`.
    pub fn has_child(&self, parent_id: u32, child_id: u32) -> (r: bool)
        ensures
            r == (self.tree().contains_key(parent_id) && self.tree()[parent_id].children.contains(
                child_id,
            )),
    {
        match self.streams.get(&parent_id) {
            Some(node) => node.children.contains(&child_id),
            None => false,
        }
    }

    /// The exclusive child of `stream_id`; `None` where it has none or is no
    /// node.
    pub fn exclusive_child_of(&self, stream_id: u32) -> (r: Option<u32>)
        ensures
            r == (if self.tree().contains_key(stream_id) && self.tree()[stream_id].is_exclusive {
                Some(self.tree()[stream_id].exclusive_child)
            } else {
                None
            }),
    {
        match self.streams.get(&stream_id) {
            Some(node) => if node.is_exclusive {
                Some(node.exclusive_child)
            } else {
                None
            },
            None => None,
        }
    }

    /// The number of queue entries, stale ones included.
    pub fn queue_len(&self) -> (n: usize)
        ensures
            n == self.queue().len(),
    {
        self.queue.len()
    }

    /// The identifiers of all nodes, each at least once.
    fn key_list(&self) -> (v: Vec<u32>)
        ensures
            forall|k: u32| self.tree().contains_key(k) <==> v@.contains(k),
    {
        let mut v: Vec<u32> = Vec::new();
        let ghost all = self.streams.keys().remaining();
        for k in it: self.streams.keys()
            invariant
                v@.len() == it.index(),
                it.seq() == all,
                forall|j: int| 0 <= j < v@.len() ==> v@[j] == *it.seq()[j],
        {
            v.push(*k);
        }
        proof {
            assert(v@ =~= all.unref());
            assert(all.unref().to_set() == self.streams@.dom());
            assert forall|k: u32| self.tree().contains_key(k) <==> v@.contains(k) by {
                assert(self.streams@.dom().contains(k) == all.unref().to_set().contains(k));
            }
        }
        v
    }

    /// Whether node `k` is one of those that `p` selects.
    fn is_picked(&self, p: Pick, k: u32) -> (r: bool)
        requires
            self.tree().contains_key(k),
        ensures
            r == picked(self.tree(), p, k),
    {
        let node = self.streams.get(&k).unwrap();
        node.parent == p.from && (p.only == 0 || k == p.only) && k != p.except
    }

    /// Whether node `k` is selected by `p` or descends from a selected node:
    /// walks the parent links from `k` upwards.
    fn is_under(&self, p: Pick, k: u32) -> (r: bool)
        requires
            self.wf(),
            self.tree().contains_key(k),
        ensures
            r == under(self.tree(), p, k),
    {
        let mut cur: u32 = k;
        loop
            invariant
                self.wf(),
                self.tree().contains_key(cur),
                under(self.tree(), p, k) == under(self.tree(), p, cur),
            decreases self.tree()[cur].depth,
        {
            proof {
                assert(node_wf(self.tree(), cur));
            }
            if self.is_picked(p, cur) {
                return true;
            }
            let next: u32 = self.streams.get(&cur).unwrap().parent;
            if next == 0 {
                return false;
            }
            proof {
                assert(node_wf(self.tree(), next));
            }
            cur = next;
        }
    }

    /// The depth of node `id`, 0 where `id` is 0.
    fn depth_or_zero(&self, id: u32) -> (d: u32)
        requires
            id == 0 || self.tree().contains_key(id),
        ensures
            d as int == child_depth(self.tree(), id) - 1,
    {
        if id == 0 {
            0
        } else {
            self.streams.get(&id).unwrap().depth
        }
    }

    /// Lists the nodes under the selection `p`, each with the depth it gets
    /// once the selection hangs below `q`.
    fn plan(&self, p: Pick, q: u32) -> (steps: Vec<Step>)
        requires
            self.wf(),
            p.from != q,
            p.from == 0 || self.tree().contains_key(p.from),
            q == 0 || (self.tree().contains_key(q) && !under(self.tree(), p, q)),
        ensures
            forall|j: int|
                0 <= j < steps@.len() ==> {
                    &&& under(self.tree(), p, (#[trigger] steps@[j]).id)
                    &&& steps@[j].head == picked(self.tree(), p, steps@[j].id)
                    &&& steps@[j].depth as int == regraft(self.tree(), p, q)[steps@[j].id].depth
                },
            forall|k: u32|
                under(self.tree(), p, k) ==> exists|j: int|
                    0 <= j < steps@.len() && (#[trigger] steps@[j]).id == k,
    {
        let ghost t = self.tree();
        let ghost target = regraft(t, p, q);
        let keys = self.key_list();
        let old_base: u32 = self.depth_or_zero(p.from);
        let new_base: u32 = self.depth_or_zero(q);
        let mut steps: Vec<Step> = Vec::new();
        let mut i: usize = 0;
        proof {
            lemma_regraft_wf(t, p, q);
            assert forall|k: u32| under(t, p, k) implies t.contains_key(k) && t[k].depth > old_base
                && (#[trigger] target[k]).depth == t[k].depth - old_base + new_base
                && target[k].depth <= u32::MAX by {
                lemma_under_depth(t, p, k);
                assert(target.dom() =~= t.dom());
                assert(self.streams@.dom().finite());
                assert(target.dom() =~= self.streams@.dom());
                lemma_depth_bounded(target, k);
            }
        }
        while i < keys.len()
            invariant
                0 <= i <= keys.len(),
                self.wf(),
                t == self.tree(),
                forall|k: u32|
                    under(t, p, k) ==> t.contains_key(k) && t[k].depth > old_base && (
                    #[trigger] target[k]).depth == t[k].depth - old_base + new_base
                        && target[k].depth <= u32::MAX,
                forall|k: u32| t.contains_key(k) <==> keys@.contains(k),
                forall|j: int|
                    0 <= j < steps@.len() ==> {
                        &&& under(t, p, (#[trigger] steps@[j]).id)
                        &&& steps@[j].head == picked(t, p, steps@[j].id)
                        &&& steps@[j].depth as int == target[steps@[j].id].depth
                    },
                forall|a: int|
                    0 <= a < i && under(t, p, #[trigger] keys@[a]) ==> exists|j: int|
                        0 <= j < steps@.len() && (#[trigger] steps@[j]).id == keys@[a],
            decreases keys.len() - i,
        {
            let k: u32 = keys[i];
            let ghost before = steps@;
            proof {
                assert(keys@.contains(k));
            }
            if self.is_under(p, k) {
                let head = self.is_picked(p, k);
                let depth: u32 = self.streams.get(&k).unwrap().depth;
                proof {
                    assert(target[k].depth == depth - old_base + new_base);
                }
                let moved: u32 = depth - old_base + new_base;
                steps.push(Step { id: k, head: head, depth: moved });
                proof {
                    assert(steps@ == before.push(Step { id: k, head: head, depth: moved }));
                    assert(steps@[steps@.len() - 1].id == k);
                }
            }
            proof {
                assert forall|a: int|
                    0 <= a < i + 1 && under(t, p, #[trigger] keys@[a]) implies exists|j: int|
                    0 <= j < steps@.len() && (#[trigger] steps@[j]).id == keys@[a] by {
                    if a < i {
                        let j = choose|j: int|
                            0 <= j < before.len() && (#[trigger] before[j]).id == keys@[a];
                        assert(steps@[j] == before[j]);
                    } else {
                        assert(steps@[steps@.len() - 1].id == k);
                    }
                }
            }
            i = i + 1;
        }
        proof {
            assert forall|k: u32| under(t, p, k) implies exists|j: int|
                0 <= j < steps@.len() && (#[trigger] steps@[j]).id == k by {
                assert(keys@.contains(k));
                let a = choose|a: int| 0 <= a < keys@.len() && keys@[a] == k;
                assert(under(t, p, keys@[a]));
            }
        }
        steps
    }

    /// Moves every node that `p` selects, with its subtree, below `q` (makes
    /// it independent where `q` is 0): sets the parent links, the child
    /// sets and the depths of the moved subtrees.
    fn move_selection(&mut self, p: Pick, q: u32)
        requires
            old(self).wf(),
            p.from == 0 || old(self).tree().contains_key(p.from),
            q == 0 || (old(self).tree().contains_key(q) && !under(old(self).tree(), p, q)),
        ensures
            final(self).wf(),
            final(self).tree() == regraft(old(self).tree(), p, q),
            final(self).queue() == old(self).queue(),
    {
        if p.from == q {
            return ;
        }
        let ghost t = self.tree();
        let ghost target = regraft(t, p, q);
        let ghost full = Set::new(|s: u32| picked(t, p, s));
        let ghost mut done: Set<u32> = Set::empty();
        proof {
            lemma_regraft_wf(t, p, q);
        }
        let steps = self.plan(p, q);
        let mut j: usize = 0;
        while j < steps.len()
            invariant
                0 <= j <= steps.len(),
                self.queue@ == old(self).queue@,
                forest_wf(t),
                target == regraft(t, p, q),
                p.from != q,
                p.from == 0 || t.contains_key(p.from),
                q == 0 || (t.contains_key(q) && !under(t, p, q)),
                forall|a: int|
                    0 <= a < steps@.len() ==> {
                        &&& under(t, p, (#[trigger] steps@[a]).id)
                        &&& steps@[a].head == picked(t, p, steps@[a].id)
                        &&& steps@[a].depth as int == target[steps@[a].id].depth
                    },
                forall|k: u32| self.tree().contains_key(k) <==> t.contains_key(k),
                forall|s: u32| done.contains(s) ==> picked(t, p, s),
                forall|a: int|
                    0 <= a < j && (#[trigger] steps@[a]).head ==> done.contains(steps@[a].id),
                forall|a: int|
                    0 <= a < j ==> self.tree()[(#[trigger] steps@[a]).id].depth
                        == target[steps@[a].id].depth,
                forall|k: u32| #[trigger]
                    t.contains_key(k) ==> {
                        let n = self.tree()[k];
                        let g = regraft_node(t, p, q, done, k);
                        &&& n.parent == g.parent
                        &&& n.is_exclusive == g.is_exclusive
                        &&& n.exclusive_child == g.exclusive_child
                        &&& n.children =~= g.children
                        &&& (n.depth == t[k].depth || n.depth == target[k].depth)
                    },
            decreases steps.len() - j,
        {
            let k: u32 = steps[j].id;
            let head: bool = steps[j].head;
            let depth: u32 = steps[j].depth;
            let ghost before = self.tree();
            let ghost done_before = done;
            proof {
                lemma_under_depth(t, p, k);
                assert(node_wf(t, k));
            }
            let mut node = self.streams.remove(&k).unwrap();
            node.set_depth(depth);
            if head {
                node.set_parent(q);
            }
            self.streams.insert(k, node);
            if head {
                if p.from != 0 {
                    let mut from = self.streams.remove(&p.from).unwrap();
                    from.remove_child(k);
                    from.set_exclusive(false, 0);
                    self.streams.insert(p.from, from);
                }
                if q != 0 {
                    let mut to = self.streams.remove(&q).unwrap();
                    to.add_child(k);
                    to.set_exclusive(false, 0);
                    self.streams.insert(q, to);
                }
                proof {
                    done = done.insert(k);
                    assert(done.contains(k));
                }
            }
            proof {
                assert forall|x: u32| #[trigger] t.contains_key(x) implies {
                    let n = self.tree()[x];
                    let g = regraft_node(t, p, q, done, x);
                    &&& n.parent == g.parent
                    &&& n.is_exclusive == g.is_exclusive
                    &&& n.exclusive_child == g.exclusive_child
                    &&& n.children =~= g.children
                    &&& (n.depth == t[x].depth || n.depth == target[x].depth)
                } by {
                    let g0 = regraft_node(t, p, q, done_before, x);
                    assert(before[x].children =~= g0.children);
                    if !head {
                        assert(forall|s: u32| done.contains(s) == done_before.contains(s));
                    }
                }
                assert forall|a: int| 0 <= a < j + 1 implies self.tree()[(
                #[trigger] steps@[a]).id].depth == target[steps@[a].id].depth by {
                    if steps@[a].id != k {
                        assert(self.tree()[steps@[a].id].depth == before[steps@[a].id].depth);
                    }
                }
            }
            j = j + 1;
        }
        proof {
            assert forall|s: u32| full.contains(s) implies done.contains(s) by {
                assert(under(t, p, s));
                let a = choose|a: int| 0 <= a < steps@.len() && (#[trigger] steps@[a]).id == s;
                assert(steps@[a].head);
            }
            assert(done =~= full);
            assert forall|k: u32| t.contains_key(k) implies #[trigger] self.tree()[k]
                == target[k] by {
                if under(t, p, k) {
                    let a = choose|a: int|
                        0 <= a < steps@.len() && (#[trigger] steps@[a]).id == k;
                    assert(self.tree()[steps@[a].id].depth == target[steps@[a].id].depth);
                }
                assert(self.tree()[k].children =~= target[k].children);
            }
            assert(self.tree() =~= target);
        }
    }

    /// Makes `child_id`, which does not hold `parent_id` in its subtree, a
    /// child of `parent_id`, and updates the depths of the moved subtree.
    fn connect(&mut self, child_id: u32, parent_id: u32)
        requires
            old(self).wf(),
            old(self).tree().contains_key(child_id),
            parent_id == 0 || (old(self).tree().contains_key(parent_id) && !in_subtree(
                old(self).tree(),
                child_id,
                parent_id,
            )),
        ensures
            final(self).wf(),
            final(self).tree() == regraft(
                old(self).tree(),
                subtree_pick(old(self).tree(), child_id),
                parent_id,
            ),
            final(self).queue() == old(self).queue(),
    {
        proof {
            assert(node_wf(self.tree(), child_id));
        }
        let from: u32 = self.streams.get(&child_id).unwrap().parent;
        self.move_selection(Pick { from: from, only: child_id, except: 0 }, parent_id);
    }

    /// Exchanges an ancestor and a descendant: `node_b`, which lies below
    /// `node_a`, takes the place of `node_a`, and `node_a` becomes its child.
    fn swap(&mut self, node_a: u32, node_b: u32)
        requires
            old(self).wf(),
            old(self).tree().contains_key(node_a),
            old(self).tree().contains_key(node_b),
            node_a != node_b,
            in_subtree(old(self).tree(), node_a, node_b),
        ensures
            final(self).wf(),
            final(self).tree() == reparented(old(self).tree(), node_a, node_b),
            final(self).queue() == old(self).queue(),
    {
        proof {
            lemma_swap_safe(self.tree(), node_a, node_b);
            assert(node_wf(self.tree(), node_b));
        }
        let above: u32 = self.streams.get(&node_a).unwrap().parent;
        let from_b: u32 = self.streams.get(&node_b).unwrap().parent;
        self.move_selection(Pick { from: from_b, only: node_b, except: 0 }, above);
        self.connect(node_a, node_b);
    }

    /// Makes `node_a` a child of `node_b`. A cycle is avoided by the depths:
    /// where `node_a` is higher up than `node_b`, the ancestor of `node_b`
    /// at the depth of `node_a` is looked up, and where that is `node_a`
    /// itself the two nodes are swapped.
    fn set_dependant_stream(&mut self, node_a: u32, node_b: u32)
        requires
            old(self).wf(),
            old(self).tree().contains_key(node_a),
            old(self).tree().contains_key(node_b),
            node_a != node_b,
        ensures
            final(self).wf(),
            final(self).tree() == reparented(old(self).tree(), node_a, node_b),
            final(self).queue() == old(self).queue(),
    {
        let ghost t = self.tree();
        let child_depth: u32 = self.streams.get(&node_a).unwrap().depth;
        let parent_depth: u32 = self.streams.get(&node_b).unwrap().depth;
        let mut ancestor: u32 = node_b;
        let mut ancestor_depth: u32 = parent_depth;
        while ancestor_depth > child_depth
            invariant
                self.wf(),
                t == self.tree(),
                t.contains_key(node_a),
                t.contains_key(ancestor),
                child_depth as int == t[node_a].depth,
                ancestor_depth as int == t[ancestor].depth,
                in_subtree(t, node_a, node_b) == in_subtree(t, node_a, ancestor),
            decreases ancestor_depth,
        {
            proof {
                assert(node_wf(t, ancestor));
                assert(node_wf(t, node_a));
                assert(node_wf(t, t[ancestor].parent));
            }
            ancestor = self.streams.get(&ancestor).unwrap().parent;
            ancestor_depth = ancestor_depth - 1;
        }
        proof {
            lemma_subtree_needs_depth(t, node_a, ancestor);
        }
        if ancestor == node_a {
            self.swap(node_a, node_b);
        } else {
            self.connect(node_a, node_b);
        }
    }

    /// Makes `child_id` dependent on `parent_id`. Where the parent has an
    /// exclusive child, the stream is placed below that child instead.
    /// Nothing happens where either stream is unknown, where the two are the
    /// same, or where `child_id` is the exclusive child of `parent_id`.
    pub fn set_dependant(&mut self, child_id: u32, parent_id: u32)
        requires
            old(self).wf(),
        ensures
            final(self).wf(),
            final(self).tree() == with_dependency(old(self).tree(), child_id, parent_id),
            final(self).tree().dom() == old(self).tree().dom(),
            final(self).queue() == old(self).queue(),
    {
        proof {
            lemma_with_dependency_wf(self.tree(), child_id, parent_id);
        }
        if self.contains(child_id) && self.contains(parent_id) && child_id != parent_id {
            proof {
                assert(node_wf(self.tree(), parent_id));
            }
            let parent = self.streams.get(&parent_id).unwrap();
            let target: u32 = if parent.is_exclusive {
                parent.exclusive_child
            } else {
                parent_id
            };
            if target != child_id {
                proof {
                    assert(self.tree()[parent_id].is_exclusive
                        ==> self.tree()[parent_id].children.contains(target));
                }
                self.set_dependant_stream(child_id, target);
            }
        }
    }

    /// Adds `stream_id` as an independent stream unless it is known already
    /// (or is 0), and queues it if it is independent.
    pub fn add(&mut self, stream_id: u32)
        requires
            old(self).wf(),
        ensures
            final(self).wf(),
            final(self).tree() == with_root(old(self).tree(), stream_id),
            final(self).queue() == (if is_ready(final(self).tree(), stream_id) {
                old(self).queue().push(stream_id)
            } else {
                old(self).queue()
            }),
    {
        proof {
            lemma_with_root_wf(self.tree(), stream_id);
        }
        if stream_id == 0 {
            return ;
        }
        if !self.contains(stream_id) {
            self.streams.insert(stream_id, StreamPriority::new());
            assert(self.tree() =~= with_root(old(self).tree(), stream_id));
        }
        if self.streams.get(&stream_id).unwrap().parent == 0 {
            self.queue.push_back(stream_id);
        }
    }

    /// Adds `stream_id` as a new stream that depends on `parent_id`, and
    /// does not queue it. Nothing happens where `stream_id` is known already
    /// (or is 0) or `parent_id` is unknown.
    pub fn add_with_dependancy(&mut self, stream_id: u32, parent_id: u32)
        requires
            old(self).wf(),
        ensures
            final(self).wf(),
            final(self).tree() == with_dependent_root(old(self).tree(), stream_id, parent_id),
            final(self).queue() == old(self).queue(),
    {
        if stream_id != 0 && !self.contains(stream_id) && self.contains(parent_id) {
            proof {
                lemma_with_root_wf(self.tree(), stream_id);
            }
            self.streams.insert(stream_id, StreamPriority::new());
            assert(self.tree() =~= old(self).tree().insert(stream_id, fresh_node()));
            self.set_dependant(stream_id, parent_id);
        }
    }

    /// Makes `child_id` the exclusive child of `parent_id`: the other
    /// children of the parent become children of `child_id`. Nothing happens
    /// where either stream is unknown or the two are the same.
    pub fn set_as_exclusive(&mut self, child_id: u32, parent_id: u32)
        requires
            old(self).wf(),
        ensures
            final(self).wf(),
            final(self).tree() == made_exclusive(old(self).tree(), child_id, parent_id),
            final(self).tree().dom() == old(self).tree().dom(),
            final(self).queue() == old(self).queue(),
    {
        if self.contains(child_id) && self.contains(parent_id) && child_id != parent_id {
            let ghost t = self.tree();
            proof {
                lemma_made_exclusive(t, child_id, parent_id);
                lemma_reparented_wf(t, child_id, parent_id);
            }
            self.set_dependant_stream(child_id, parent_id);
            proof {
                lemma_child_not_under_siblings(self.tree(), child_id, parent_id);
            }
            self.move_selection(Pick { from: parent_id, only: 0, except: child_id }, child_id);
            let ghost t2 = self.tree();
            let mut parent = self.streams.remove(&parent_id).unwrap();
            parent.set_exclusive(true, child_id);
            self.streams.insert(parent_id, parent);
            assert(self.tree() =~= made_exclusive(t, child_id, parent_id));
        }
    }

    /// The next stream to serve: the first queued identifier that is an
    /// independent stream. It and every entry in front of it leave the
    /// queue.
    pub fn get(&mut self) -> (r: Option<u32>)
        ensures
            final(self).tree() == old(self).tree(),
            stale_prefix(old(self).tree(), old(self).queue()) < old(self).queue().len() ==> r
                == Some(
                old(self).queue()[stale_prefix(old(self).tree(), old(self).queue())],
            ) && final(self).queue() == old(self).queue().skip(
                stale_prefix(old(self).tree(), old(self).queue()) + 1,
            ),
            stale_prefix(old(self).tree(), old(self).queue()) >= old(self).queue().len() ==> r
                is None && final(self).queue() == Seq::<u32>::empty(),
            r == (if ready_seq(old(self).tree(), old(self).queue()).len() > 0 {
                Some(ready_seq(old(self).tree(), old(self).queue())[0])
            } else {
                None
            }),
            r is Some ==> ready_seq(final(self).tree(), final(self).queue()) == ready_seq(
                old(self).tree(),
                old(self).queue(),
            ).skip(1),
    {
        let ghost t = self.tree();
        let ghost q0 = self.queue@;
        let ghost mut n: int = 0;
        proof {
            lemma_ready_head(t, q0);
            assert(q0.skip(0) =~= q0);
        }
        loop
            invariant
                t == self.tree(),
                t == old(self).tree(),
                q0 == old(self).queue(),
                0 <= n <= q0.len(),
                self.queue@ == q0.skip(n),
                stale_prefix(t, q0) == n + stale_prefix(t, self.queue@),
            decreases self.queue@.len(),
        {
            let ghost cur = self.queue@;
            proof {
                lemma_ready_head(t, q0);
            }
            match self.queue.pop_front() {
                None => {
                    proof {
                        assert(self.queue@ =~= Seq::<u32>::empty());
                    }
                    return None;
                },
                Some(x) => {
                    proof {
                        assert(self.queue@ =~= cur.skip(1));
                        assert(cur.skip(1) =~= q0.skip(n + 1));
                        assert(x == q0[n]);
                    }
                    let ready = match self.streams.get(&x) {
                        Some(node) => node.parent == 0,
                        None => false,
                    };
                    if ready {
                        proof {
                            assert(ready_seq(t, q0).skip(1) =~= ready_seq(t, q0.skip(n + 1)));
                        }
                        return Some(x);
                    }
                    proof {
                        n = n + 1;
                    }
                },
            }
        }
    }

    /// The members of a child set, each once.
    fn child_list(children: &HashSet<u32>) -> (v: Vec<u32>)
        ensures
            v@.no_duplicates(),
            v@.to_set() =~= children@,
    {
        let mut v: Vec<u32> = Vec::new();
        let ghost all = children.iter().remaining();
        for k in it: children.iter()
            invariant
                v@.len() == it.index(),
                it.seq() == all,
                forall|j: int| 0 <= j < v@.len() ==> v@[j] == *it.seq()[j],
        {
            v.push(*k);
        }
        proof {
            assert(v@ =~= all.unref());
        }
        v
    }

    /// Removes `stream_id` from the tree. Its children take over its parent;
    /// where it had none they become independent and are queued. The
    /// subtrees below move up one level. Nothing happens where the stream
    /// is unknown; its own queue entries stay behind as stale entries.
    pub fn retire(&mut self, stream_id: u32)
        requires
            old(self).wf(),
        ensures
            final(self).wf(),
            final(self).tree() == retired(old(self).tree(), stream_id),
            orphans_queued(old(self).tree(), stream_id, old(self).queue(), final(self).queue()),
    {
        if self.contains(stream_id) {
            let ghost t = self.tree();
            let ghost q0 = self.queue@;
            proof {
                lemma_retired_wf(t, stream_id);
                lemma_parent_not_under_children(t, stream_id);
            }
            let node = self.streams.get(&stream_id).unwrap();
            let above: u32 = node.parent;
            let orphans = Self::child_list(&node.children);
            self.move_selection(Pick { from: stream_id, only: 0, except: 0 }, above);
            self.streams.remove(&stream_id);
            if above != 0 {
                let mut parent = self.streams.remove(&above).unwrap();
                parent.remove_child(stream_id);
                parent.set_exclusive(false, 0);
                self.streams.insert(above, parent);
            } else {
                let mut i: usize = 0;
                while i < orphans.len()
                    invariant
                        0 <= i <= orphans.len(),
                        self.tree() == regraft(t, children_pick(stream_id), above).remove(
                            stream_id,
                        ),
                        self.queue@ =~= q0 + orphans@.take(i as int),
                    decreases orphans.len() - i,
                {
                    self.queue.push_back(orphans[i]);
                    proof {
                        assert(orphans@.take(i + 1) =~= orphans@.take(i as int).push(
                            orphans@[i as int],
                        ));
                    }
                    i = i + 1;
                }
                proof {
                    assert(orphans@.take(orphans@.len() as int) =~= orphans@);
                    assert(self.queue@.take(q0.len() as int) =~= q0);
                    assert(self.queue@.skip(q0.len() as int) =~= orphans@);
                }
            }
            assert(self.tree() =~= retired(t, stream_id));
        }
    }

    /// Gives `stream_id` the dependency that a PRIORITY frame names. A
    /// stream that is unknown is added first: below `parent_id` where that
    /// is known, as an independent stream, which is queued, otherwise. Then
    /// the stream is made dependent on `parent_id`, exclusively where asked.
    pub fn reprioritize(&mut self, stream_id: u32, parent_id: u32, exclusive: bool)
        requires
            old(self).wf(),
        ensures
            final(self).wf(),
            final(self).tree() == reprioritized(
                old(self).tree(),
                stream_id,
                parent_id,
                exclusive,
            ),
            final(self).queue() == reprioritized_queue(
                old(self).tree(),
                old(self).queue(),
                stream_id,
                parent_id,
            ),
    {
        if !self.contains(stream_id) {
            if self.contains(parent_id) {
                self.add_with_dependancy(stream_id, parent_id);
            } else {
                self.add(stream_id);
            }
        }
        if exclusive {
            self.set_as_exclusive(stream_id, parent_id);
        } else {
            self.set_dependant(stream_id, parent_id);
        }
    }
}

} // verus!
