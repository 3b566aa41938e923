use vstd::prelude::*;

use crate::count_hash_set::spec_remove;
use crate::count_hash_set::RemoveIfEntryResult;
use crate::info::spec_add_change;
use crate::info::spec_apply_opt;
use crate::info::spec_remove_change;
use crate::info::add_wrapping;
use crate::info::info_at;
use crate::info::lemma_add_then_neg;
use crate::info::lemma_changes_as_weights;
use crate::info::lemma_weight_congruent;
use crate::info::lemma_weight_empty;
use crate::info::lemma_weight_insert;
use crate::info::lemma_weight_remove;
use crate::info::weight_of;
use crate::info::Info;
use crate::node::AggregationNode;
use crate::node::LEAF_NUMBER;

verus! {

/// A node as the graph stores it: its place in the aggregation tree, its
/// children in the underlying graph, and the info it contributes.
pub struct GraphNode {
    pub node: AggregationNode,
    pub children: Vec<usize>,
    pub info: Info,
}

/// The node storage: nodes are addressed by their index, which is the node
/// reference used in all counted sets.
pub struct AggregationGraph {
    nodes: Vec<GraphNode>,
    optimizations: usize,
}

impl AggregationGraph {
    pub closed spec fn spec_len(&self) -> nat {
        self.nodes@.len()
    }

    pub closed spec fn spec_node(&self, i: int) -> AggregationNode {
        self.nodes@[i].node
    }

    pub closed spec fn spec_children(&self, i: int) -> Seq<usize> {
        self.nodes@[i].children@
    }

    pub closed spec fn spec_info(&self, i: int) -> Info {
        self.nodes@[i].info
    }

    /// The infos of all nodes, by reference.
    pub closed spec fn spec_infos(&self) -> Seq<Info> {
        self.nodes@.map_values(|n: GraphNode| n.info)
    }

    /// Each aggregating node holds the summed info of its followers.
    pub open spec fn data_matches(&self) -> bool {
        forall|i: int|
            0 <= i < self.spec_len() && #[trigger] self.aggregating(i) ==> self.data_of(i).value
                == weight_of(self.spec_infos(), self.followers_of(i).dom())
    }

    proof fn lemma_info_at(&self, f: usize)
        requires
            f < self.spec_len(),
        ensures
            info_at(self.spec_infos(), f) == self.spec_info(f as int).value,
    {
    }

    proof fn lemma_followers_finite(&self, i: int)
        requires
            0 <= i < self.spec_len(),
            self.spec_node(i).wf(),
        ensures
            self.followers_of(i).dom().finite(),
    {
        match self.spec_node(i) {
            AggregationNode::Aggegating(a) => a.followers.lemma_counts_positive(),
            AggregationNode::Leaf { .. } => {
                assert(self.followers_of(i).dom() =~= Set::<usize>::empty());
            },
        }
    }

    /// A node that keeps its followers and data keeps matching them while
    /// no info changes.
    proof fn lemma_data_kept(pre: &AggregationGraph, post: &AggregationGraph, i: int)
        requires
            pre.wf(),
            0 <= i < pre.spec_len(),
            post.spec_len() >= pre.spec_len(),
            forall|j: int| 0 <= j < pre.spec_len() ==> #[trigger] post.spec_info(j) == pre.spec_info(j),
            post.aggregating(i) == pre.aggregating(i),
            post.followers_of(i) == pre.followers_of(i),
            post.data_of(i) == pre.data_of(i),
        ensures
            post.aggregating(i) ==> post.data_of(i).value == weight_of(
                post.spec_infos(),
                post.followers_of(i).dom(),
            ),
    {
        if post.aggregating(i) {
            assert(pre.spec_node(i).wf());
            pre.lemma_followers_finite(i);
            let d = pre.followers_of(i).dom();
            assert forall|f: usize| d.contains(f) implies info_at(post.spec_infos(), f) == info_at(
                pre.spec_infos(),
                f,
            ) by {
                assert(pre.followers_of(i).contains_key(f));
                pre.lemma_info_at(f);
                post.lemma_info_at(f);
            }
            lemma_weight_congruent(post.spec_infos(), pre.spec_infos(), d);
        }
    }

    /// How often the follower set of a node was restructured because it grew
    /// too expensive to notify.
    pub closed spec fn spec_optimizations(&self) -> nat {
        self.optimizations as nat
    }

    pub open spec fn number_of(&self, i: int) -> u32 {
        self.spec_node(i).spec_aggregation_number()
    }

    pub open spec fn aggregating(&self, i: int) -> bool {
        self.spec_node(i).is_aggregating()
    }

    pub open spec fn uppers_of(&self, i: int) -> Map<usize, nat> {
        self.spec_node(i).spec_uppers()@
    }

    pub open spec fn followers_of(&self, i: int) -> Map<usize, nat> {
        self.spec_node(i).spec_followers()
    }

    /// The aggregated info held by an aggregating node.
    pub open spec fn data_of(&self, i: int) -> Info {
        match self.spec_node(i) {
            AggregationNode::Aggegating(a) => a.data,
            AggregationNode::Leaf { .. } => Info { value: 0 },
        }
    }

    /// What a node is apart from its aggregation number and its kind: its
    /// counted sets, its aggregated data and its children.
    pub open spec fn spec_node_frame(&self, i: int) -> (Map<usize, nat>, Map<usize, nat>, Info, Seq<usize>) {
        (self.uppers_of(i), self.followers_of(i), self.data_of(i), self.spec_children(i))
    }

    /// `u` is recorded as an upper of `f`.
    pub open spec fn has_upper(&self, f: usize, u: usize) -> bool {
        self.uppers_of(f as int).contains_key(u)
    }

    /// `f` is recorded as a follower of `u`.
    pub open spec fn has_follower(&self, u: usize, f: usize) -> bool {
        self.followers_of(u as int).contains_key(f)
    }

    /// Uppers and followers are two views of one relation: `u` is an upper of
    /// `f` exactly when `f` is a follower of `u`.
    pub open spec fn consistent(&self) -> bool {
        forall|u: usize, f: usize|
            u < self.spec_len() && f < self.spec_len() ==> (#[trigger] self.has_upper(f, u)
                <==> #[trigger] self.has_follower(u, f))
    }

    /// Well-formedness of the whole graph.
    pub open spec fn wf(&self) -> bool {
        &&& forall|i: int| 0 <= i < self.spec_len() ==> #[trigger] self.spec_node(i).wf()
        &&& forall|i: int, j: int|
            0 <= i < self.spec_len() && 0 <= j < self.spec_children(i).len() ==> #[trigger] self.spec_children(i)[j]
                < self.spec_len()
        &&& forall|i: int, k: usize|
            0 <= i < self.spec_len() && #[trigger] self.uppers_of(i).contains_key(k) ==> k
                < self.spec_len() && self.uppers_of(i)[k] == 1
        &&& forall|i: int, k: usize|
            0 <= i < self.spec_len() && #[trigger] self.followers_of(i).contains_key(k) ==> k
                < self.spec_len()
        &&& self.consistent()
        &&& self.data_matches()
        &&& self.leaves_below_sentinel()
    }

    /// A leaf's aggregation number stays below [`LEAF_NUMBER`]: a node that
    /// reaches it aggregates.
    pub open spec fn leaves_below_sentinel(&self) -> bool {
        forall|i: int|
            0 <= i < self.spec_len() && #[trigger] self.number_of(i) >= LEAF_NUMBER ==> self.aggregating(i)
    }

    /// The state that a race between two removals can leave behind: the
    /// follower `f` still lists `u` among its uppers and `u` still holds the
    /// info of `f` in its data, but `u` no longer follows `f`. Apart from that
    /// record the graph is well formed.
    pub open spec fn wf_with_stray_upper(&self, u: usize, f: usize) -> bool {
        &&& u < self.spec_len()
        &&& f < self.spec_len()
        &&& forall|i: int| 0 <= i < self.spec_len() ==> #[trigger] self.spec_node(i).wf()
        &&& forall|i: int, j: int|
            0 <= i < self.spec_len() && 0 <= j < self.spec_children(i).len() ==> #[trigger] self.spec_children(i)[j]
                < self.spec_len()
        &&& forall|i: int, k: usize|
            0 <= i < self.spec_len() && #[trigger] self.uppers_of(i).contains_key(k) ==> k
                < self.spec_len() && self.uppers_of(i)[k] == 1
        &&& forall|i: int, k: usize|
            0 <= i < self.spec_len() && #[trigger] self.followers_of(i).contains_key(k) ==> k
                < self.spec_len()
        &&& self.leaves_below_sentinel()
        &&& self.aggregating(u as int)
        &&& self.has_upper(f, u)
        &&& !self.has_follower(u, f)
        &&& forall|u2: usize, f2: usize|
            u2 < self.spec_len() && f2 < self.spec_len() && !(u2 == u && f2 == f) ==> (
            #[trigger] self.has_upper(f2, u2) <==> #[trigger] self.has_follower(u2, f2))
        &&& forall|i: int|
            0 <= i < self.spec_len() && i != u && #[trigger] self.aggregating(i) ==> self.data_of(i).value
                == weight_of(self.spec_infos(), self.followers_of(i).dom())
        &&& self.data_of(u as int).value == add_wrapping(
            weight_of(self.spec_infos(), self.followers_of(u as int).dom()),
            self.spec_info(f as int).value,
        )
    }

    /// Aggregation numbers never go down, aggregating nodes stay aggregating,
    /// nodes are never dropped, and what a node contributes never changes.
    pub open spec fn grows_from(&self, old: &AggregationGraph) -> bool {
        &&& self.spec_len() >= old.spec_len()
        &&& forall|i: int|
            0 <= i < old.spec_len() ==> #[trigger] self.number_of(i) >= old.number_of(i) && (
            old.aggregating(i) ==> self.aggregating(i)) && self.spec_info(i) == old.spec_info(i)
    }

    /// Only the counted sets and the aggregated data of nodes may differ:
    /// the nodes, their numbers, kinds, children and infos are those of `old`.
    pub open spec fn same_shape(&self, old: &AggregationGraph) -> bool {
        &&& self.spec_len() == old.spec_len()
        &&& self.spec_optimizations() == old.spec_optimizations()
        &&& forall|i: int|
            0 <= i < old.spec_len() ==> #[trigger] self.number_of(i) == old.number_of(i)
                && self.aggregating(i) == old.aggregating(i) && self.spec_info(i)
                == old.spec_info(i) && self.spec_children(i) == old.spec_children(i)
    }

    /// The graph holds exactly the nodes of `old`, in the same states, and
    /// the same count of restructured follower sets.
    pub open spec fn unchanged_from(&self, old: &AggregationGraph) -> bool {
        &&& self.same_shape_but_count(old)
        &&& self.spec_optimizations() == old.spec_optimizations()
    }

    /// The nodes are those of `old`, in the same states, with the same
    /// children and infos; only the count of restructured follower sets may
    /// differ.
    pub open spec fn same_shape_but_count(&self, old: &AggregationGraph) -> bool {
        &&& self.spec_len() == old.spec_len()
        &&& forall|i: int|
            0 <= i < old.spec_len() ==> #[trigger] self.spec_node(i) == old.spec_node(i)
                && self.spec_children(i) == old.spec_children(i) && self.spec_info(i)
                == old.spec_info(i)
    }

    /// `self` came from `old` by adding references and raising numbers only:
    /// no follower is lost, no child changes, no node is added.
    pub open spec fn extends(&self, old: &AggregationGraph) -> bool {
        &&& self.grows_from(old)
        &&& self.spec_len() == old.spec_len()
        &&& self.spec_optimizations() >= old.spec_optimizations()
        &&& forall|u: usize, f: usize|
            u < old.spec_len() && #[trigger] old.has_follower(u, f) ==> self.has_follower(u, f)
        &&& forall|i: int| 0 <= i < old.spec_len() ==> #[trigger] self.spec_children(i) == old.spec_children(i)
    }

    /// `self` came from `old` by taking references away only: no follower is
    /// gained, and nodes, numbers, kinds, children and infos stay.
    pub open spec fn shrinks_from(&self, old: &AggregationGraph) -> bool {
        &&& self.same_shape(old)
        &&& forall|u: usize, f: usize|
            u < self.spec_len() && #[trigger] self.has_follower(u, f) ==> old.has_follower(u, f)
                && self.followers_of(u as int)[f] <= old.followers_of(u as int)[f]
    }

    /// A graph shrinks from itself.
    pub proof fn lemma_shrinks_refl(g: &AggregationGraph)
        ensures
            g.shrinks_from(g),
    {
    }

    /// Taking references away is transitive.
    pub proof fn lemma_shrinks_trans(a: &AggregationGraph, b: &AggregationGraph, c: &AggregationGraph)
        requires
            b.shrinks_from(a),
            c.shrinks_from(b),
        ensures
            c.shrinks_from(a),
    {
        assert forall|u: usize, f: usize| u < c.spec_len() && #[trigger] c.has_follower(u, f) implies a.has_follower(u, f)
            && c.followers_of(u as int)[f] <= a.followers_of(u as int)[f] by {
            assert(b.has_follower(u, f));
        }
        assert forall|i: int| 0 <= i < a.spec_len() implies #[trigger] c.number_of(i) == a.number_of(i)
            && c.aggregating(i) == a.aggregating(i) && c.spec_info(i) == a.spec_info(i)
            && c.spec_children(i) == a.spec_children(i) by {
            assert(b.number_of(i) == a.number_of(i));
        }
    }

    /// `upper_id` can take one more reference to `follower_id`.
    pub open spec fn can_follow(&self, upper_id: usize, follower_id: usize) -> bool {
        &&& self.aggregating(upper_id as int)
        &&& self.followers_of(upper_id as int).contains_key(follower_id) ==> self.followers_of(
            upper_id as int,
        )[follower_id] < usize::MAX
    }

    /// Every recorded follower is referenced at least once.
    pub proof fn lemma_follower_counts_positive(g: &AggregationGraph, u: usize)
        requires
            g.wf(),
            u < g.spec_len(),
        ensures
            forall|f: usize| #[trigger] g.has_follower(u, f) ==> g.followers_of(u as int)[f] >= 1,
    {
        assert(g.spec_node(u as int).wf());
        match g.spec_node(u as int) {
            AggregationNode::Aggegating(a) => a.followers.lemma_counts_positive(),
            AggregationNode::Leaf { .. } => {},
        }
    }

    /// A graph is unchanged from, and extends, itself.
    pub proof fn lemma_refl(g: &AggregationGraph)
        ensures
            g.same_shape_but_count(g),
            g.unchanged_from(g),
            g.extends(g),
    {
    }

    /// The only follower that any node of `self` has and did not have in
    /// `old` is `f`.
    pub open spec fn adds_only(&self, old: &AggregationGraph, f: usize) -> bool {
        forall|u: usize, g: usize|
            u < old.spec_len() && #[trigger] self.has_follower(u, g) ==> old.has_follower(u, g) || g == f
    }

    /// Adding only `f` is transitive.
    pub proof fn lemma_adds_only_trans(a: &AggregationGraph, b: &AggregationGraph, c: &AggregationGraph, f: usize)
        requires
            b.adds_only(a, f),
            c.adds_only(b, f),
            b.spec_len() == a.spec_len(),
        ensures
            c.adds_only(a, f),
    {
        assert forall|u: usize, g: usize| u < a.spec_len() && #[trigger] c.has_follower(u, g) implies a.has_follower(u, g) || g == f by {
            if g != f {
                assert(b.has_follower(u, g));
            }
        }
    }

    /// A graph with the same nodes adds no follower.
    pub proof fn lemma_same_nodes_add_nothing(a: &AggregationGraph, b: &AggregationGraph, f: usize)
        requires
            b.same_shape_but_count(a),
        ensures
            b.adds_only(a, f),
    {
        assert forall|u: usize, g: usize| u < a.spec_len() && #[trigger] b.has_follower(u, g) implies a.has_follower(u, g) || g == f by {
            assert(b.spec_node(u as int) == a.spec_node(u as int));
        }
    }

    /// Where only `f` was added, a node has at most one follower more.
    pub proof fn lemma_adds_only_len(a: &AggregationGraph, b: &AggregationGraph, f: usize, u: usize)
        requires
            a.wf(),
            b.adds_only(a, f),
            u < a.spec_len(),
            b.wf(),
            u < b.spec_len(),
        ensures
            b.followers_of(u as int).dom().len() <= a.followers_of(u as int).dom().len() + 1,
    {
        assert(a.spec_node(u as int).wf());
        assert(b.spec_node(u as int).wf());
        match a.spec_node(u as int) {
            AggregationNode::Aggegating(x) => x.followers.lemma_counts_positive(),
            AggregationNode::Leaf { .. } => {},
        }
        match b.spec_node(u as int) {
            AggregationNode::Aggegating(x) => x.followers.lemma_counts_positive(),
            AggregationNode::Leaf { .. } => {},
        }
        let da = a.followers_of(u as int).dom();
        let db = b.followers_of(u as int).dom();
        assert(db.subset_of(da.insert(f))) by {
            assert forall|g: usize| db.contains(g) implies da.insert(f).contains(g) by {
                assert(b.has_follower(u, g));
            }
        }
        vstd::set_lib::lemma_len_subset(db, da.insert(f));
    }

    /// Extending is transitive.
    pub proof fn lemma_extends_trans(a: &AggregationGraph, b: &AggregationGraph, c: &AggregationGraph)
        requires
            b.extends(a),
            c.extends(b),
        ensures
            c.extends(a),
    {
        assert forall|u: usize, f: usize| u < a.spec_len() && #[trigger] a.has_follower(u, f) implies c.has_follower(u, f) by {
            assert(b.has_follower(u, f));
        }
        assert forall|i: int| 0 <= i < a.spec_len() implies #[trigger] c.spec_children(i) == a.spec_children(i) by {
            assert(b.spec_children(i) == a.spec_children(i));
        }
        assert forall|i: int| 0 <= i < a.spec_len() implies #[trigger] c.number_of(i) >= a.number_of(i) && (
            a.aggregating(i) ==> c.aggregating(i)) && c.spec_info(i) == a.spec_info(i) by {
            assert(b.number_of(i) >= a.number_of(i));
        }
    }

    /// An empty graph.
    pub fn new() -> (r: Self)
        ensures
            r.wf(),
            r.spec_len() == 0,
            r.spec_optimizations() == 0,
    {
        AggregationGraph { nodes: Vec::new(), optimizations: 0 }
    }

    /// Adds a leaf that contributes `info`, with no children and no uppers, and
    /// returns its reference.
    pub fn add_node(&mut self, info: Info) -> (r: usize)
        requires
            old(self).wf(),
            old(self).spec_len() < usize::MAX,
        ensures
            final(self).wf(),
            final(self).grows_from(old(self)),
            r == old(self).spec_len(),
            final(self).spec_len() == old(self).spec_len() + 1,
            final(self).spec_node(r as int) is Leaf,
            final(self).number_of(r as int) == 0,
            final(self).uppers_of(r as int) == Map::<usize, nat>::empty(),
            final(self).spec_children(r as int) == Seq::<usize>::empty(),
            final(self).spec_info(r as int) == info,
            forall|i: int| 0 <= i < old(self).spec_len() ==> #[trigger] final(self).spec_node(i) == old(self).spec_node(i)
                && final(self).spec_children(i) == old(self).spec_children(i),
            final(self).spec_optimizations() == old(self).spec_optimizations(),
    {
        let r = self.nodes.len();
        let node = AggregationNode::new_leaf();
        self.nodes.push(GraphNode { node, children: Vec::new(), info });
        proof {
            let o = old(self);
            assert forall|i: int| 0 <= i < self.spec_len() implies #[trigger] self.spec_node(i).wf() by {
                if i < o.spec_len() {
                    assert(o.spec_node(i).wf());
                }
            }
            assert forall|u: usize, f: usize|
                u < self.spec_len() && f < self.spec_len() implies (#[trigger] self.has_upper(f, u)
                <==> #[trigger] self.has_follower(u, f)) by {
                if u < o.spec_len() && f < o.spec_len() {
                    assert(o.has_upper(f, u) <==> o.has_follower(u, f));
                } else if f == r && u < o.spec_len() {
                    if self.has_follower(u, f) {
                        assert(o.followers_of(u as int).contains_key(f));
                    }
                } else if u == r && f < o.spec_len() {
                    if self.has_upper(f, u) {
                        assert(o.uppers_of(f as int).contains_key(u));
                    }
                }
            }
            assert forall|i: int, j: int|
                0 <= i < self.spec_len() && 0 <= j < self.spec_children(i).len() implies #[trigger] self.spec_children(i)[j]
                < self.spec_len() by {
                if i < o.spec_len() {
                    assert(o.spec_children(i)[j] < o.spec_len());
                }
            }
            assert forall|i: int, k: usize|
                0 <= i < self.spec_len() && #[trigger] self.uppers_of(i).contains_key(k) implies k
                < self.spec_len() && self.uppers_of(i)[k] == 1 by {
                if i < o.spec_len() {
                    assert(o.uppers_of(i).contains_key(k));
                }
            }
            assert forall|i: int, k: usize|
                0 <= i < self.spec_len() && #[trigger] self.followers_of(i).contains_key(k) implies k
                < self.spec_len() by {
                if i < o.spec_len() {
                    assert(o.followers_of(i).contains_key(k));
                }
            }
        }
        proof {
            let o = old(self);
            assert forall|i: int| 0 <= i < self.spec_len() && #[trigger] self.number_of(i) >= LEAF_NUMBER
                implies self.aggregating(i) by {
                if i < o.spec_len() {
                    assert(o.number_of(i) >= LEAF_NUMBER ==> o.aggregating(i));
                }
            }
            assert forall|i: int| 0 <= i < self.spec_len() && #[trigger] self.aggregating(i) implies self.data_of(i).value
                == weight_of(self.spec_infos(), self.followers_of(i).dom()) by {
                if i < o.spec_len() {
                    AggregationGraph::lemma_data_kept(o, self, i);
                }
            }
        }
        r
    }

    /// Records one more reference from the aggregating node `upper_id` to
    /// `follower_id`. Where the follower is new, `upper_id` becomes one of its
    /// uppers and the follower's info enters the upper's data. Returns the
    /// number of distinct followers the upper has now: the nodes that a change
    /// of the upper touches. Where `upper_id` is a leaf, or its count for the
    /// follower is saturated, nothing changes and 0 is returned.
    pub fn add_follower_edge(&mut self, upper_id: usize, follower_id: usize) -> (r: usize)
        requires
            old(self).wf(),
            upper_id < old(self).spec_len(),
            follower_id < old(self).spec_len(),
        ensures
            final(self).wf(),
            final(self).same_shape(old(self)),
            final(self).extends(old(self)),
            final(self).adds_only(old(self), follower_id),
            !old(self).can_follow(upper_id, follower_id) ==> *final(self) == *old(self) && r == 0,
            old(self).can_follow(upper_id, follower_id) ==> {
                &&& final(self).followers_of(upper_id as int) == old(self).followers_of(
                    upper_id as int,
                ).insert(
                    follower_id,
                    if old(self).has_follower(upper_id, follower_id) {
                        old(self).followers_of(upper_id as int)[follower_id] + 1
                    } else {
                        1
                    },
                )
                &&& final(self).uppers_of(follower_id as int) == old(self).uppers_of(
                    follower_id as int,
                ).insert(upper_id, 1)
                &&& final(self).data_of(upper_id as int) == if old(self).has_follower(
                    upper_id,
                    follower_id,
                ) {
                    old(self).data_of(upper_id as int)
                } else {
                    spec_apply_opt(
                        old(self).data_of(upper_id as int),
                        spec_add_change(old(self).spec_info(follower_id as int)),
                    )
                }
                &&& r == final(self).followers_of(upper_id as int).dom().len()
            },
            forall|i: int|
                0 <= i < old(self).spec_len() && i != upper_id ==> #[trigger] final(self).followers_of(i)
                    == old(self).followers_of(i) && final(self).data_of(i) == old(self).data_of(i),
            forall|i: int|
                0 <= i < old(self).spec_len() && i != follower_id ==> #[trigger] final(self).uppers_of(i)
                    == old(self).uppers_of(i),
    {
        if self.nodes[upper_id].node.is_leaf() {
            return 0;
        }
        proof {
            assert(self.spec_node(upper_id as int).wf());
            assert(self.spec_node(follower_id as int).wf());
            assert(self.has_upper(follower_id, upper_id) <==> self.has_follower(upper_id, follower_id));
        }
        let count = match self.nodes[upper_id].node.followers() {
            Some(fs) => fs.get_count(follower_id),
            None => 0,
        };
        if count == usize::MAX {
            return 0;
        }
        let ghost pre = *self;
        let info_f = self.nodes[follower_id].info;
        let added = self.nodes[upper_id].node.add_follower(follower_id, &info_f);
        let ghost mid = *self;
        proof {
            assert(pre.has_upper(follower_id, upper_id) == !added);
            if !added {
                assert(pre.uppers_of(follower_id as int)[upper_id] == 1);
                assert(pre.uppers_of(follower_id as int).insert(upper_id, 1) =~= pre.uppers_of(follower_id as int));
            }
        }
        if added {
            self.nodes[follower_id].node.add_upper(upper_id);
        }
        proof {
            assert forall|i: int| 0 <= i < self.spec_len() implies #[trigger] self.spec_node(i).wf() by {
                assert(pre.spec_node(i).wf());
            }
            assert forall|i: int, j: int|
                0 <= i < self.spec_len() && 0 <= j < self.spec_children(i).len() implies #[trigger] self.spec_children(i)[j]
                < self.spec_len() by {
                assert(pre.spec_children(i)[j] < pre.spec_len());
            }
            assert forall|i: int, k: usize|
                0 <= i < self.spec_len() && #[trigger] self.uppers_of(i).contains_key(k) implies k
                < self.spec_len() && self.uppers_of(i)[k] == 1 by {
                if !(i == follower_id && k == upper_id) {
                    assert(pre.uppers_of(i).contains_key(k));
                }
            }
            assert forall|i: int, k: usize|
                0 <= i < self.spec_len() && #[trigger] self.followers_of(i).contains_key(k) implies k
                < self.spec_len() by {
                if !(i == upper_id && k == follower_id) {
                    assert(pre.followers_of(i).contains_key(k));
                }
            }
            assert forall|u: usize, f: usize|
                u < self.spec_len() && f < self.spec_len() implies (#[trigger] self.has_upper(f, u)
                <==> #[trigger] self.has_follower(u, f)) by {
                assert(pre.has_upper(f, u) <==> pre.has_follower(u, f));
            }
        }
        proof {
            assert forall|u: usize, f: usize|
                u < pre.spec_len() && #[trigger] pre.has_follower(u, f) implies self.has_follower(u, f) by {}
            assert forall|i: int| 0 <= i < pre.spec_len() implies #[trigger] self.spec_children(i) == pre.spec_children(i) by {}
            assert forall|u: usize, g: usize|
                u < pre.spec_len() && #[trigger] self.has_follower(u, g) implies pre.has_follower(u, g) || g == follower_id by {}
        }
        let n = match self.nodes[upper_id].node.followers() {
            Some(fs) => fs.len(),
            None => 0,
        };
        proof {
            assert forall|j: int| 0 <= j < pre.spec_len() implies #[trigger] self.spec_info(j) == pre.spec_info(j) by {}
            assert forall|i: int| 0 <= i < self.spec_len() && #[trigger] self.number_of(i) >= LEAF_NUMBER
                implies self.aggregating(i) by {
                if i < pre.spec_len() {
                    assert(pre.number_of(i) >= LEAF_NUMBER ==> pre.aggregating(i));
                }
            }
            assert forall|i: int| 0 <= i < self.spec_len() && #[trigger] self.aggregating(i) implies self.data_of(i).value
                == weight_of(self.spec_infos(), self.followers_of(i).dom()) by {
                assert(self.spec_infos() =~= pre.spec_infos());
                if i != upper_id {
                    assert(self.followers_of(i) == pre.followers_of(i));
                    assert(self.data_of(i) == pre.data_of(i));
                    assert(self.number_of(i) == pre.number_of(i));
                    assert(self.aggregating(i) == pre.aggregating(i));
                    AggregationGraph::lemma_data_kept(&pre, self, i);
                } else {
                    assert(pre.spec_node(i).wf());
                    pre.lemma_followers_finite(i);
                    let d = pre.followers_of(i).dom();
                    assert(pre.aggregating(i));
                    assert(pre.data_of(i).value == weight_of(pre.spec_infos(), d));
                    if added {
                        assert(self.followers_of(i).dom() =~= d.insert(follower_id));
                        lemma_weight_insert(pre.spec_infos(), d, follower_id);
                        pre.lemma_info_at(follower_id);
                        lemma_changes_as_weights(pre.data_of(i), pre.spec_info(follower_id as int));
                    } else {
                        assert(self.followers_of(i).dom() =~= d);
                    }
                }
            }
        }
        n
    }

    /// Raises the aggregation number of `id` to `number` where it is lower.
    /// A leaf whose number reaches [`LEAF_NUMBER`] becomes an aggregating
    /// node, still without followers; nothing else changes.
    pub fn raise_aggregation_number(&mut self, id: usize, number: u32)
        requires
            old(self).wf(),
            id < old(self).spec_len(),
        ensures
            final(self).wf(),
            final(self).grows_from(old(self)),
            final(self).extends(old(self)),
            final(self).spec_len() == old(self).spec_len(),
            final(self).spec_optimizations() == old(self).spec_optimizations(),
            final(self).number_of(id as int) == if old(self).number_of(id as int) < number {
                number
            } else {
                old(self).number_of(id as int)
            },
            final(self).aggregating(id as int) == (old(self).aggregating(id as int)
                || final(self).number_of(id as int) >= LEAF_NUMBER),
            forall|i: int|
                0 <= i < old(self).spec_len() && i != id ==> #[trigger] final(self).number_of(i)
                    == old(self).number_of(i) && final(self).aggregating(i) == old(self).aggregating(i),
            forall|i: int|
                0 <= i < old(self).spec_len() ==> #[trigger] final(self).uppers_of(i) == old(self).uppers_of(i)
                    && final(self).followers_of(i) == old(self).followers_of(i) && final(self).data_of(i)
                    == old(self).data_of(i) && final(self).spec_children(i) == old(self).spec_children(i),
    {
        let ghost pre = *self;
        proof {
            assert(self.spec_node(id as int).wf());
        }
        self.nodes[id].node.raise_aggregation_number(number);
        if self.nodes[id].node.is_leaf() && self.nodes[id].node.aggregation_number() >= LEAF_NUMBER {
            // a leaf that reaches the sentinel aggregates from now on
            self.nodes[id].node.upgrade();
        }
        proof {
            assert forall|i: int| 0 <= i < self.spec_len() && #[trigger] self.number_of(i) >= LEAF_NUMBER
                implies self.aggregating(i) by {
                if i != id {
                    assert(pre.number_of(i) >= LEAF_NUMBER);
                }
            }
            assert forall|u: usize, f: usize|
                u < pre.spec_len() && #[trigger] pre.has_follower(u, f) implies self.has_follower(u, f) by {}
            assert forall|i: int| 0 <= i < pre.spec_len() implies #[trigger] self.spec_children(i) == pre.spec_children(i) by {}
            assert forall|i: int| 0 <= i < self.spec_len() implies #[trigger] self.spec_node(i).wf() by {
                assert(pre.spec_node(i).wf());
            }
            assert forall|i: int, j: int|
                0 <= i < self.spec_len() && 0 <= j < self.spec_children(i).len() implies #[trigger] self.spec_children(i)[j]
                < self.spec_len() by {
                assert(pre.spec_children(i)[j] < pre.spec_len());
            }
            assert forall|i: int, k: usize|
                0 <= i < self.spec_len() && #[trigger] self.uppers_of(i).contains_key(k) implies k
                < self.spec_len() && self.uppers_of(i)[k] == 1 by {
                assert(pre.uppers_of(i).contains_key(k));
            }
            assert forall|i: int, k: usize|
                0 <= i < self.spec_len() && #[trigger] self.followers_of(i).contains_key(k) implies k
                < self.spec_len() by {
                assert(pre.followers_of(i).contains_key(k));
            }
            assert forall|u: usize, f: usize|
                u < self.spec_len() && f < self.spec_len() implies (#[trigger] self.has_upper(f, u)
                <==> #[trigger] self.has_follower(u, f)) by {
                assert(pre.has_upper(f, u) <==> pre.has_follower(u, f));
            }
        }
        proof {
            assert forall|i: int| 0 <= i < self.spec_len() && #[trigger] self.number_of(i) >= LEAF_NUMBER
                implies self.aggregating(i) by {
                if i < pre.spec_len() {
                    assert(pre.number_of(i) >= LEAF_NUMBER ==> pre.aggregating(i));
                }
            }
            assert forall|i: int| 0 <= i < self.spec_len() && #[trigger] self.aggregating(i) implies self.data_of(i).value
                == weight_of(self.spec_infos(), self.followers_of(i).dom()) by {
                if i == id && !pre.aggregating(i) {
                    assert(self.followers_of(i).dom() =~= Set::<usize>::empty());
                    lemma_weight_empty(self.spec_infos());
                } else {
                    AggregationGraph::lemma_data_kept(&pre, self, i);
                }
            }
        }
    }

    /// Takes one reference from `upper_id` to `follower_id` away. When the
    /// last one goes, `upper_id` stops being an upper of the follower and the
    /// follower's info leaves the upper's data. A leaf has no followers, so
    /// for it the result is `NotPresent`.
    pub fn remove_follower_edge(&mut self, upper_id: usize, follower_id: usize) -> (r:
        RemoveIfEntryResult)
        requires
            old(self).wf(),
            upper_id < old(self).spec_len(),
            follower_id < old(self).spec_len(),
        ensures
            final(self).wf(),
            final(self).same_shape(old(self)),
            final(self).shrinks_from(old(self)),
            (final(self).followers_of(upper_id as int), r) == spec_remove(
                old(self).followers_of(upper_id as int),
                follower_id,
            ),
            r == RemoveIfEntryResult::NotPresent ==> final(self).unchanged_from(old(self)),
            final(self).uppers_of(follower_id as int) == if r == RemoveIfEntryResult::Removed {
                old(self).uppers_of(follower_id as int).remove(upper_id)
            } else {
                old(self).uppers_of(follower_id as int)
            },
            final(self).data_of(upper_id as int) == if r == RemoveIfEntryResult::Removed {
                spec_apply_opt(
                    old(self).data_of(upper_id as int),
                    spec_remove_change(old(self).spec_info(follower_id as int)),
                )
            } else {
                old(self).data_of(upper_id as int)
            },
            forall|i: int|
                0 <= i < old(self).spec_len() && i != upper_id ==> #[trigger] final(self).followers_of(i)
                    == old(self).followers_of(i) && final(self).data_of(i) == old(self).data_of(i),
            forall|i: int|
                0 <= i < old(self).spec_len() && i != follower_id ==> #[trigger] final(self).uppers_of(i)
                    == old(self).uppers_of(i),
    {
        if self.nodes[upper_id].node.is_leaf() {
            return RemoveIfEntryResult::NotPresent;
        }
        proof {
            assert(self.spec_node(upper_id as int).wf());
            assert(self.spec_node(follower_id as int).wf());
            assert(self.has_upper(follower_id, upper_id) <==> self.has_follower(upper_id, follower_id));
        }
        let ghost pre = *self;
        let info_f = self.nodes[follower_id].info;
        let r = self.nodes[upper_id].node.remove_follower(follower_id, &info_f);
        if r == RemoveIfEntryResult::Removed {
            proof {
                assert(pre.uppers_of(follower_id as int)[upper_id] == 1);
            }
            self.nodes[follower_id].node.remove_upper(upper_id);
        }
        proof {
            let fo = pre.followers_of(upper_id as int);
            match pre.spec_node(upper_id as int) {
                AggregationNode::Aggegating(a) => a.followers.lemma_counts_positive(),
                AggregationNode::Leaf { .. } => {},
            }
            if fo.contains_key(follower_id) {
                if fo[follower_id] <= 1 {
                    assert(self.followers_of(upper_id as int) == fo.remove(follower_id));
                } else {
                    assert(self.followers_of(upper_id as int) == fo.insert(follower_id, (fo[follower_id] - 1) as nat));
                }
            }
            assert forall|k: usize| #[trigger] self.followers_of(upper_id as int).contains_key(k)
                implies fo.contains_key(k) by {}
            assert forall|u: usize, f: usize|
                u < self.spec_len() && #[trigger] self.has_follower(u, f) implies pre.has_follower(u, f)
                && self.followers_of(u as int)[f] <= pre.followers_of(u as int)[f] by {
                if u == upper_id {
                    assert(fo.contains_key(f));
                }
            }
        }
        proof {
            if r == RemoveIfEntryResult::NotPresent {
                assert(self.nodes@ =~= pre.nodes@);
            }
            assert forall|i: int| 0 <= i < self.spec_len() implies #[trigger] self.spec_node(i).wf() by {
                assert(pre.spec_node(i).wf());
            }
            assert forall|i: int, j: int|
                0 <= i < self.spec_len() && 0 <= j < self.spec_children(i).len() implies #[trigger] self.spec_children(i)[j]
                < self.spec_len() by {
                assert(pre.spec_children(i)[j] < pre.spec_len());
            }
            assert forall|i: int, k: usize|
                0 <= i < self.spec_len() && #[trigger] self.uppers_of(i).contains_key(k) implies k
                < self.spec_len() && self.uppers_of(i)[k] == 1 by {
                assert(pre.uppers_of(i).contains_key(k));
            }
            assert forall|i: int, k: usize|
                0 <= i < self.spec_len() && #[trigger] self.followers_of(i).contains_key(k) implies k
                < self.spec_len() by {
                assert(pre.followers_of(i).contains_key(k));
            }
            assert forall|u: usize, f: usize|
                u < self.spec_len() && f < self.spec_len() implies (#[trigger] self.has_upper(f, u)
                <==> #[trigger] self.has_follower(u, f)) by {
                assert(pre.has_upper(f, u) <==> pre.has_follower(u, f));
            }
        }
        proof {
            assert forall|j: int| 0 <= j < pre.spec_len() implies #[trigger] self.spec_info(j) == pre.spec_info(j) by {}
            assert forall|i: int| 0 <= i < self.spec_len() && #[trigger] self.number_of(i) >= LEAF_NUMBER
                implies self.aggregating(i) by {
                if i < pre.spec_len() {
                    assert(pre.number_of(i) >= LEAF_NUMBER ==> pre.aggregating(i));
                }
            }
            assert forall|i: int| 0 <= i < self.spec_len() && #[trigger] self.aggregating(i) implies self.data_of(i).value
                == weight_of(self.spec_infos(), self.followers_of(i).dom()) by {
                assert(self.number_of(i) == pre.number_of(i));
                assert(self.aggregating(i) == pre.aggregating(i));
                if i != upper_id || r != RemoveIfEntryResult::Removed {
                    if i == upper_id {
                        assert(self.followers_of(i).dom() =~= pre.followers_of(i).dom());
                        assert(pre.spec_node(i).wf());
                        pre.lemma_followers_finite(i);
                        let d = pre.followers_of(i).dom();
                        assert forall|f: usize| d.contains(f) implies info_at(self.spec_infos(), f) == info_at(pre.spec_infos(), f) by {
                            assert(pre.followers_of(i).contains_key(f));
                            pre.lemma_info_at(f);
                            self.lemma_info_at(f);
                        }
                        lemma_weight_congruent(self.spec_infos(), pre.spec_infos(), d);
                    } else {
                        assert(self.followers_of(i) == pre.followers_of(i));
                        assert(self.data_of(i) == pre.data_of(i));
                        AggregationGraph::lemma_data_kept(&pre, self, i);
                    }
                } else {
                    assert(pre.spec_node(i).wf());
                    pre.lemma_followers_finite(i);
                    let d = pre.followers_of(i).dom();
                    assert(self.followers_of(i).dom() =~= d.remove(follower_id));
                    assert(self.spec_infos() =~= pre.spec_infos());
                    lemma_weight_remove(pre.spec_infos(), d, follower_id);
                    pre.lemma_info_at(follower_id);
                    lemma_changes_as_weights(pre.data_of(i), pre.spec_info(follower_id as int));
                }
            }
        }
        r
    }

    /// Turns the leaf `id` into an aggregating node (see
    /// [`AggregationNode::upgrade`]); nothing else changes.
    pub fn upgrade_node(&mut self, id: usize)
        requires
            old(self).wf(),
            id < old(self).spec_len(),
        ensures
            final(self).wf(),
            final(self).grows_from(old(self)),
            final(self).extends(old(self)),
            final(self).spec_len() == old(self).spec_len(),
            final(self).spec_optimizations() == old(self).spec_optimizations(),
            final(self).aggregating(id as int),
            final(self).number_of(id as int) == if old(self).aggregating(id as int) {
                old(self).number_of(id as int)
            } else if old(self).number_of(id as int) < LEAF_NUMBER {
                LEAF_NUMBER
            } else {
                old(self).number_of(id as int)
            },
            forall|i: int|
                0 <= i < old(self).spec_len() && i != id ==> #[trigger] final(self).number_of(i)
                    == old(self).number_of(i) && final(self).aggregating(i) == old(self).aggregating(i),
            forall|i: int|
                0 <= i < old(self).spec_len() ==> #[trigger] final(self).uppers_of(i) == old(self).uppers_of(i)
                    && final(self).followers_of(i) == old(self).followers_of(i) && final(self).data_of(i)
                    == old(self).data_of(i) && final(self).spec_children(i) == old(self).spec_children(i),
    {
        let ghost pre = *self;
        proof {
            assert(self.spec_node(id as int).wf());
        }
        self.nodes[id].node.upgrade();
        proof {
            assert forall|u: usize, f: usize|
                u < pre.spec_len() && #[trigger] pre.has_follower(u, f) implies self.has_follower(u, f) by {}
            assert forall|i: int| 0 <= i < pre.spec_len() implies #[trigger] self.spec_children(i) == pre.spec_children(i) by {}
            assert forall|i: int| 0 <= i < self.spec_len() implies #[trigger] self.spec_node(i).wf() by {
                assert(pre.spec_node(i).wf());
            }
            assert forall|i: int, j: int|
                0 <= i < self.spec_len() && 0 <= j < self.spec_children(i).len() implies #[trigger] self.spec_children(i)[j]
                < self.spec_len() by {
                assert(pre.spec_children(i)[j] < pre.spec_len());
            }
            assert forall|i: int, k: usize|
                0 <= i < self.spec_len() && #[trigger] self.uppers_of(i).contains_key(k) implies k
                < self.spec_len() && self.uppers_of(i)[k] == 1 by {
                assert(pre.uppers_of(i).contains_key(k));
            }
            assert forall|i: int, k: usize|
                0 <= i < self.spec_len() && #[trigger] self.followers_of(i).contains_key(k) implies k
                < self.spec_len() by {
                assert(pre.followers_of(i).contains_key(k));
            }
            assert forall|u: usize, f: usize|
                u < self.spec_len() && f < self.spec_len() implies (#[trigger] self.has_upper(f, u)
                <==> #[trigger] self.has_follower(u, f)) by {
                assert(pre.has_upper(f, u) <==> pre.has_follower(u, f));
            }
        }
        proof {
            assert forall|i: int| 0 <= i < self.spec_len() && #[trigger] self.number_of(i) >= LEAF_NUMBER
                implies self.aggregating(i) by {
                if i < pre.spec_len() {
                    assert(pre.number_of(i) >= LEAF_NUMBER ==> pre.aggregating(i));
                }
            }
            assert forall|i: int| 0 <= i < self.spec_len() && #[trigger] self.aggregating(i) implies self.data_of(i).value
                == weight_of(self.spec_infos(), self.followers_of(i).dom()) by {
                if i == id && !pre.aggregating(i) {
                    assert(self.followers_of(i).dom() =~= Set::<usize>::empty());
                    lemma_weight_empty(self.spec_infos());
                } else {
                    AggregationGraph::lemma_data_kept(&pre, self, i);
                }
            }
        }
    }

    /// Records `target_id` as one more child of `origin_id` and returns how many
    /// children the origin has now.
    pub fn push_child(&mut self, origin_id: usize, target_id: usize) -> (r: usize)
        requires
            old(self).wf(),
            origin_id < old(self).spec_len(),
            target_id < old(self).spec_len(),
            old(self).spec_children(origin_id as int).len() < usize::MAX,
        ensures
            final(self).wf(),
            final(self).grows_from(old(self)),
            final(self).spec_len() == old(self).spec_len(),
            final(self).spec_optimizations() == old(self).spec_optimizations(),
            final(self).spec_children(origin_id as int) == old(self).spec_children(
                origin_id as int,
            ).push(target_id),
            r == final(self).spec_children(origin_id as int).len(),
            forall|i: int|
                0 <= i < old(self).spec_len() ==> #[trigger] final(self).spec_node(i)
                    == old(self).spec_node(i),
            forall|i: int|
                0 <= i < old(self).spec_len() && i != origin_id ==> #[trigger] final(self).spec_children(i)
                    == old(self).spec_children(i),
    {
        let ghost pre = *self;
        self.nodes[origin_id].children.push(target_id);
        proof {
            assert forall|j: int| 0 <= j < pre.spec_len() implies #[trigger] self.spec_info(j) == pre.spec_info(j) by {}
            assert forall|i: int| 0 <= i < self.spec_len() && #[trigger] self.number_of(i) >= LEAF_NUMBER
                implies self.aggregating(i) by {
                if i < pre.spec_len() {
                    assert(pre.number_of(i) >= LEAF_NUMBER ==> pre.aggregating(i));
                }
            }
            assert forall|i: int| 0 <= i < self.spec_len() && #[trigger] self.aggregating(i) implies self.data_of(i).value
                == weight_of(self.spec_infos(), self.followers_of(i).dom()) by {
                assert(pre.spec_node(i) == self.spec_node(i));
                AggregationGraph::lemma_data_kept(&pre, self, i);
            }

            assert forall|i: int| 0 <= i < self.spec_len() implies #[trigger] self.spec_node(i).wf() by {
                assert(pre.spec_node(i).wf());
            }
            assert forall|i: int, j: int|
                0 <= i < self.spec_len() && 0 <= j < self.spec_children(i).len() implies #[trigger] self.spec_children(i)[j]
                < self.spec_len() by {
                if !(i == origin_id && j == pre.spec_children(i).len()) {
                    assert(pre.spec_children(i)[j] < pre.spec_len());
                }
            }
            assert forall|i: int, k: usize|
                0 <= i < self.spec_len() && #[trigger] self.uppers_of(i).contains_key(k) implies k
                < self.spec_len() && self.uppers_of(i)[k] == 1 by {
                assert(pre.uppers_of(i).contains_key(k));
            }
            assert forall|i: int, k: usize|
                0 <= i < self.spec_len() && #[trigger] self.followers_of(i).contains_key(k) implies k
                < self.spec_len() by {
                assert(pre.followers_of(i).contains_key(k));
            }
            assert forall|u: usize, f: usize|
                u < self.spec_len() && f < self.spec_len() implies (#[trigger] self.has_upper(f, u)
                <==> #[trigger] self.has_follower(u, f)) by {
                assert(pre.has_upper(f, u) <==> pre.has_follower(u, f));
            }
        }
        self.nodes[origin_id].children.len()
    }

    /// Counts one restructuring of a follower set.
    pub(crate) fn record_optimization(&mut self)
        requires
            old(self).wf(),
        ensures
            final(self).wf(),
            final(self).same_shape_but_count(old(self)),
            final(self).extends(old(self)),
            final(self).spec_optimizations() == if old(self).spec_optimizations() < usize::MAX {
                old(self).spec_optimizations() + 1
            } else {
                old(self).spec_optimizations()
            },
    {
        let ghost pre = *self;
        if self.optimizations < usize::MAX {
            self.optimizations = self.optimizations + 1;
        }
        proof {
            assert forall|j: int| 0 <= j < pre.spec_len() implies #[trigger] self.spec_info(j) == pre.spec_info(j) by {}
            assert forall|i: int| 0 <= i < self.spec_len() && #[trigger] self.number_of(i) >= LEAF_NUMBER
                implies self.aggregating(i) by {
                if i < pre.spec_len() {
                    assert(pre.number_of(i) >= LEAF_NUMBER ==> pre.aggregating(i));
                }
            }
            assert forall|i: int| 0 <= i < self.spec_len() && #[trigger] self.aggregating(i) implies self.data_of(i).value
                == weight_of(self.spec_infos(), self.followers_of(i).dom()) by {
                assert(pre.spec_node(i) == self.spec_node(i));
                AggregationGraph::lemma_data_kept(&pre, self, i);
            }

            assert forall|u: usize, f: usize|
                u < pre.spec_len() && #[trigger] pre.has_follower(u, f) implies self.has_follower(u, f) by {}
            assert forall|i: int| 0 <= i < pre.spec_len() implies #[trigger] self.spec_children(i) == pre.spec_children(i) by {}
            assert forall|i: int| 0 <= i < pre.spec_len() implies #[trigger] self.number_of(i) >= pre.number_of(i) && (
                pre.aggregating(i) ==> self.aggregating(i)) && self.spec_info(i) == pre.spec_info(i) by {}
            assert forall|i: int| 0 <= i < self.spec_len() implies #[trigger] self.spec_node(i).wf() by {
                assert(pre.spec_node(i).wf());
            }
            assert forall|i: int, j: int|
                0 <= i < self.spec_len() && 0 <= j < self.spec_children(i).len() implies #[trigger] self.spec_children(i)[j]
                < self.spec_len() by {
                assert(pre.spec_children(i)[j] < pre.spec_len());
            }
            assert forall|i: int, k: usize|
                0 <= i < self.spec_len() && #[trigger] self.uppers_of(i).contains_key(k) implies k
                < self.spec_len() && self.uppers_of(i)[k] == 1 by {
                assert(pre.uppers_of(i).contains_key(k));
            }
            assert forall|i: int, k: usize|
                0 <= i < self.spec_len() && #[trigger] self.followers_of(i).contains_key(k) implies k
                < self.spec_len() by {
                assert(pre.followers_of(i).contains_key(k));
            }
            assert forall|u: usize, f: usize|
                u < self.spec_len() && f < self.spec_len() implies (#[trigger] self.has_upper(f, u)
                <==> #[trigger] self.has_follower(u, f)) by {
                assert(pre.has_upper(f, u) <==> pre.has_follower(u, f));
            }
        }
    }

    /// Drops the stray record left by a race (see [`Self::wf_with_stray_upper`]):
    /// `upper_id` leaves the uppers of `follower_id`, and the info of the
    /// follower leaves the data of the upper. Nothing else changes.
    pub fn remove_stray_upper(&mut self, upper_id: usize, follower_id: usize)
        requires
            old(self).wf_with_stray_upper(upper_id, follower_id),
        ensures
            final(self).wf(),
            final(self).spec_len() == old(self).spec_len(),
            final(self).spec_optimizations() == old(self).spec_optimizations(),
            final(self).uppers_of(follower_id as int) == old(self).uppers_of(follower_id as int).remove(
                upper_id,
            ),
            final(self).data_of(upper_id as int) == spec_apply_opt(
                old(self).data_of(upper_id as int),
                spec_remove_change(old(self).spec_info(follower_id as int)),
            ),
            forall|i: int|
                0 <= i < old(self).spec_len() ==> #[trigger] final(self).number_of(i) == old(self).number_of(i)
                    && final(self).aggregating(i) == old(self).aggregating(i) && final(self).spec_info(i)
                    == old(self).spec_info(i) && final(self).spec_children(i) == old(self).spec_children(i)
                    && final(self).followers_of(i) == old(self).followers_of(i),
            forall|i: int|
                0 <= i < old(self).spec_len() && i != follower_id ==> #[trigger] final(self).uppers_of(i)
                    == old(self).uppers_of(i),
            forall|i: int|
                0 <= i < old(self).spec_len() && i != upper_id ==> #[trigger] final(self).data_of(i)
                    == old(self).data_of(i),
    {
        let ghost pre = *self;
        proof {
            assert(self.spec_node(follower_id as int).wf());
            assert(self.spec_node(upper_id as int).wf());
            assert(self.uppers_of(follower_id as int)[upper_id] == 1);
        }
        let info_f = self.nodes[follower_id].info;
        self.nodes[follower_id].node.remove_upper(upper_id);
        self.nodes[upper_id].node.take_out_info(&info_f);
        proof {
            assert forall|j: int| 0 <= j < pre.spec_len() implies #[trigger] self.spec_info(j) == pre.spec_info(j) by {}
            assert(self.spec_infos() =~= pre.spec_infos());
            assert forall|i: int| 0 <= i < self.spec_len() implies #[trigger] self.spec_node(i).wf() by {
                assert(pre.spec_node(i).wf());
            }
            assert forall|i: int, j: int|
                0 <= i < self.spec_len() && 0 <= j < self.spec_children(i).len() implies #[trigger] self.spec_children(i)[j]
                < self.spec_len() by {
                assert(pre.spec_children(i)[j] < pre.spec_len());
            }
            assert forall|i: int, k: usize|
                0 <= i < self.spec_len() && #[trigger] self.uppers_of(i).contains_key(k) implies k
                < self.spec_len() && self.uppers_of(i)[k] == 1 by {
                assert(pre.uppers_of(i).contains_key(k));
            }
            assert forall|i: int, k: usize|
                0 <= i < self.spec_len() && #[trigger] self.followers_of(i).contains_key(k) implies k
                < self.spec_len() by {
                assert(pre.followers_of(i).contains_key(k));
            }
            assert forall|u: usize, f: usize|
                u < self.spec_len() && f < self.spec_len() implies (#[trigger] self.has_upper(f, u)
                <==> #[trigger] self.has_follower(u, f)) by {
                if !(u == upper_id && f == follower_id) {
                    assert(pre.has_upper(f, u) <==> pre.has_follower(u, f));
                }
            }
            assert forall|i: int| 0 <= i < self.spec_len() && #[trigger] self.number_of(i) >= LEAF_NUMBER
                implies self.aggregating(i) by {
                if i < pre.spec_len() {
                    assert(pre.number_of(i) >= LEAF_NUMBER ==> pre.aggregating(i));
                }
            }
            assert forall|i: int| 0 <= i < self.spec_len() && #[trigger] self.aggregating(i) implies self.data_of(i).value
                == weight_of(self.spec_infos(), self.followers_of(i).dom()) by {
                assert(pre.aggregating(i));
                if i == upper_id {
                    lemma_changes_as_weights(pre.data_of(i), pre.spec_info(follower_id as int));
                    lemma_add_then_neg(
                        weight_of(pre.spec_infos(), pre.followers_of(i).dom()),
                        pre.spec_info(follower_id as int).value,
                    );
                }
            }
        }
    }

    pub fn len(&self) -> (r: usize)
        ensures
            r == self.spec_len(),
    {
        self.nodes.len()
    }

    /// The node stored under `id`.
    pub fn node(&self, id: usize) -> (r: &AggregationNode)
        requires
            id < self.spec_len(),
        ensures
            *r == self.spec_node(id as int),
    {
        &self.nodes[id].node
    }

    pub fn children(&self, id: usize) -> (r: &Vec<usize>)
        requires
            id < self.spec_len(),
        ensures
            r@ == self.spec_children(id as int),
    {
        &self.nodes[id].children
    }

    pub fn info(&self, id: usize) -> (r: Info)
        requires
            id < self.spec_len(),
        ensures
            r == self.spec_info(id as int),
    {
        self.nodes[id].info
    }

    /// How often a follower set was restructured because it grew too large.
    pub fn optimizations(&self) -> (r: usize)
        ensures
            r == self.spec_optimizations(),
    {
        self.optimizations
    }
}

} // verus!
