use vstd::prelude::*;

use crate::balance_queue::BalanceQueue;
use crate::balance_queue::PendingIncrease;
use crate::graph::AggregationGraph;
use crate::notify_new_follower::advertise_new_follower;
use crate::notify_new_follower::notify_new_follower;
use crate::node::should_upgrade;
use crate::node::spec_should_upgrade;
use crate::node::LEAF_NUMBER;

verus! {

/// Slack added on top of the minimum when a node's aggregation number has to
/// grow, so that the next few increases are already covered.
pub const BUFFER_SPACE: u32 = 2;

/// Above this many touched nodes, one edge insertion restructures the
/// follower set it went through instead of paying that cost again.
pub const MAX_AFFECTED_NODES: usize = 4096;

/// `a + b`, capped at the largest `u32`.
pub open spec fn saturating_add_spec(a: u32, b: u32) -> u32 {
    if a as int + b as int > u32::MAX as int {
        u32::MAX
    } else {
        (a + b) as u32
    }
}

/// `a + b`, capped at the largest `u32`.
pub fn add_saturating(a: u32, b: u32) -> (r: u32)
    ensures
        r == saturating_add_spec(a, b),
{
    if a > u32::MAX - b {
        u32::MAX
    } else {
        a + b
    }
}

/// The follow-up of a leaf that was just turned into an aggregating node:
/// it takes its children as followers.
pub struct PreparedInternalIncreaseAggregationNumber {
    pub node_id: usize,
    pub children: Vec<usize>,
}

impl PreparedInternalIncreaseAggregationNumber {
    /// Attaches each child as a follower of the upgraded node.
    pub fn apply(self, ctx: &mut AggregationGraph, balance_queue: &mut BalanceQueue)
        requires
            old(ctx).wf(),
        ensures
            final(ctx).wf(),
            final(ctx).extends(old(ctx)),
            final(ctx).spec_optimizations() == old(ctx).spec_optimizations(),
            final(balance_queue).spec_items() == old(balance_queue).spec_items(),
            self.node_id < old(ctx).spec_len() && old(ctx).aggregating(self.node_id as int) ==> forall|j: int|
                0 <= j < self.children@.len() && #[trigger] self.children@[j] < old(ctx).spec_len()
                    ==> final(ctx).has_follower(self.node_id, self.children@[j]),
    {
        let ghost start = *ctx;
        let n = ctx.len();
        if self.node_id >= n {
            return;
        }
        let mut j: usize = 0;
        while j < self.children.len()
            invariant
                ctx.wf(),
                ctx.extends(&start),
                ctx.spec_optimizations() == start.spec_optimizations(),
                n == start.spec_len(),
                self.node_id < n,
                j <= self.children@.len(),
                start.aggregating(self.node_id as int) ==> forall|k: int|
                    0 <= k < j && #[trigger] self.children@[k] < start.spec_len() ==> ctx.has_follower(
                        self.node_id,
                        self.children@[k],
                    ),
            decreases self.children@.len() - j,
        {
            let child = self.children[j];
            let ghost before = *ctx;
            if child < n {
                notify_new_follower(ctx, self.node_id, child);
                proof {
                    AggregationGraph::lemma_extends_trans(&start, &before, ctx);
                    if start.aggregating(self.node_id as int) {
                        assert(before.number_of(self.node_id as int) >= start.number_of(self.node_id as int));
                        assert(before.aggregating(self.node_id as int));
                        if before.has_follower(self.node_id, child) {
                            assert(ctx.has_follower(self.node_id, child));
                        } else {
                            assert(before.can_follow(self.node_id, child));
                            assert(ctx.has_follower(self.node_id, child));
                        }
                    }
                }
            }
            proof {
                if start.aggregating(self.node_id as int) {
                    assert forall|k: int|
                        0 <= k < j + 1 && #[trigger] self.children@[k] < start.spec_len() implies ctx.has_follower(
                            self.node_id,
                            self.children@[k],
                        ) by {
                        if k < j {
                            assert(before.has_follower(self.node_id, self.children@[k]));
                        }
                    }
                }
            }
            j = j + 1;
        }
    }
}

/// The highest aggregation number among the nodes `ids` names; 0 for none.
pub open spec fn max_number_of(ctx: &AggregationGraph, ids: Seq<usize>) -> u32
    decreases ids.len(),
{
    if ids.len() == 0 {
        0
    } else {
        let rest = max_number_of(ctx, ids.drop_last());
        let last = ids.last();
        let v = if last < ctx.spec_len() {
            ctx.number_of(last as int)
        } else {
            0
        };
        if v > rest {
            v
        } else {
            rest
        }
    }
}

/// Restructures the follower set of `node_id`, which grew too expensive to
/// notify: the node is queued to rise above the highest aggregation number
/// among `followers`, with [`BUFFER_SPACE`] to spare, and the restructuring is
/// counted.
pub fn optimize_aggregation_number_for_followers(
    ctx: &mut AggregationGraph,
    balance_queue: &mut BalanceQueue,
    node_id: usize,
    followers: Vec<usize>,
)
    requires
        old(ctx).wf(),
    ensures
        final(ctx).wf(),
        final(ctx).extends(old(ctx)),
        final(ctx).same_shape_but_count(old(ctx)),
        final(ctx).spec_optimizations() == if old(ctx).spec_optimizations() < usize::MAX {
            old(ctx).spec_optimizations() + 1
        } else {
            old(ctx).spec_optimizations()
        },
        final(balance_queue).spec_items() == old(balance_queue).spec_items().push(
            PendingIncrease {
                node_id,
                min_aggregation_number: saturating_add_spec(max_number_of(old(ctx), followers@), 1),
                target_aggregation_number: saturating_add_spec(
                    saturating_add_spec(max_number_of(old(ctx), followers@), 1),
                    BUFFER_SPACE,
                ),
            },
        ),
{
    let n = ctx.len();
    let mut highest: u32 = 0;
    let mut j: usize = 0;
    while j < followers.len()
        invariant
            j <= followers@.len(),
            n == ctx.spec_len(),
            highest == max_number_of(ctx, followers@.subrange(0, j as int)),
        decreases followers@.len() - j,
    {
        let f = followers[j];
        proof {
            assert(followers@.subrange(0, j + 1).drop_last() =~= followers@.subrange(0, j as int));
        }
        if f < n {
            let v = ctx.node(f).aggregation_number();
            if v > highest {
                highest = v;
            }
        }
        j = j + 1;
    }
    proof {
        assert(followers@.subrange(0, followers@.len() as int) =~= followers@);
    }
    ctx.record_optimization();
    let min = add_saturating(highest, 1);
    let target = add_saturating(min, BUFFER_SPACE);
    balance_queue.push_increase(node_id, min, target);
}

/// A node whose follower set grew past [`MAX_AFFECTED_NODES`] gets that set
/// restructured; a leaf, or a reference to no node, is left alone.
pub fn handle_expensive_node(
    ctx: &mut AggregationGraph,
    balance_queue: &mut BalanceQueue,
    node_id: usize,
)
    requires
        old(ctx).wf(),
    ensures
        final(ctx).wf(),
        final(ctx).extends(old(ctx)),
        final(ctx).same_shape_but_count(old(ctx)),
        node_id < old(ctx).spec_len() && old(ctx).aggregating(node_id as int) ==> {
            &&& final(ctx).spec_optimizations() == if old(ctx).spec_optimizations() < usize::MAX {
                old(ctx).spec_optimizations() + 1
            } else {
                old(ctx).spec_optimizations()
            }
            &&& final(balance_queue).spec_items().len() == old(balance_queue).spec_items().len() + 1
            &&& final(balance_queue).spec_items().last().node_id == node_id
        },
        final(balance_queue).spec_items().len() >= old(balance_queue).spec_items().len(),
        final(balance_queue).spec_items().subrange(0, old(balance_queue).spec_items().len() as int)
            == old(balance_queue).spec_items(),
        !(node_id < old(ctx).spec_len() && old(ctx).aggregating(node_id as int)) ==> *final(ctx)
            == *old(ctx) && final(balance_queue).spec_items() == old(balance_queue).spec_items(),
{
    proof {
        AggregationGraph::lemma_refl(ctx);
    }
    if node_id >= ctx.len() {
        return;
    }
    let followers = match ctx.node(node_id).followers() {
        Some(fs) => {
            proof {
                assert(ctx.spec_node(node_id as int).wf());
            }
            fs.to_vec()
        },
        None => {
            return;
        },
    };
    let ghost q = balance_queue.spec_items();
    optimize_aggregation_number_for_followers(ctx, balance_queue, node_id, followers);
    proof {
        assert(balance_queue.spec_items().subrange(0, q.len() as int) =~= q);
    }
}

/// What remains to be done for a new edge once the origin node was looked at.
pub enum PreparedNewEdge {
    /// The origin stays a leaf: the target must rise above it, and the
    /// origin's uppers follow the target.
    Leaf {
        min_aggregation_number: u32,
        target_aggregation_number: u32,
        uppers: Vec<usize>,
        target_id: usize,
    },
    /// The origin was just turned into an aggregating node: its former uppers
    /// follow the target, then the origin takes its children as followers.
    Upgraded {
        uppers: Vec<usize>,
        target_id: usize,
        increase: PreparedInternalIncreaseAggregationNumber,
    },
    /// The origin aggregates and has just taken the target as a new follower;
    /// `affected_nodes` followers depend on it now.
    Aggegating { origin_id: usize, target_id: usize, affected_nodes: usize },
}

/// Every upper in `uppers` that is an aggregating node of `old` follows
/// `target_id` in `new`.
pub open spec fn followed_by_all(
    old: &AggregationGraph,
    new: &AggregationGraph,
    uppers: Seq<usize>,
    target_id: usize,
) -> bool {
    target_id < old.spec_len() ==> forall|j: int|
        0 <= j < uppers.len() && #[trigger] uppers[j] < old.spec_len() && old.aggregating(
            uppers[j] as int,
        ) ==> new.has_follower(uppers[j], target_id)
}

/// What notifying each node of `uppers` of one new follower can report in
/// total at most: each upper ends with at most one follower more than it has
/// in `ctx`.
pub open spec fn affected_bound(ctx: &AggregationGraph, uppers: Seq<usize>) -> nat
    decreases uppers.len(),
{
    if uppers.len() == 0 {
        0
    } else {
        affected_bound(ctx, uppers.drop_last()) + if uppers.last() < ctx.spec_len() {
            ctx.followers_of(uppers.last() as int).dom().len() + 1
        } else {
            0
        }
    }
}

proof fn lemma_affected_bound_prefix(ctx: &AggregationGraph, uppers: Seq<usize>, j: int)
    requires
        0 <= j <= uppers.len(),
    ensures
        affected_bound(ctx, uppers.subrange(0, j)) <= affected_bound(ctx, uppers),
    decreases uppers.len() - j,
{
    if j < uppers.len() {
        lemma_affected_bound_prefix(ctx, uppers, j + 1);
        assert(uppers.subrange(0, j + 1).drop_last() =~= uppers.subrange(0, j));
    } else {
        assert(uppers.subrange(0, j) =~= uppers);
    }
}

/// Makes each aggregating node among `uppers` follow `target_id`, adding up
/// the followers they report; the first upper that pushes that sum past
/// [`MAX_AFFECTED_NODES`] has its follower set restructured, and so does each
/// one after it.
fn notify_uppers(
    ctx: &mut AggregationGraph,
    balance_queue: &mut BalanceQueue,
    uppers: &Vec<usize>,
    target_id: usize,
    check_expensive: bool,
)
    requires
        old(ctx).wf(),
    ensures
        final(ctx).wf(),
        final(ctx).extends(old(ctx)),
        followed_by_all(old(ctx), final(ctx), uppers@, target_id),
        !check_expensive ==> final(ctx).spec_optimizations() == old(ctx).spec_optimizations(),
        affected_bound(old(ctx), uppers@) <= MAX_AFFECTED_NODES ==> final(ctx).spec_optimizations()
            == old(ctx).spec_optimizations(),
        final(balance_queue).spec_items().len() >= old(balance_queue).spec_items().len(),
        final(balance_queue).spec_items().subrange(0, old(balance_queue).spec_items().len() as int)
            == old(balance_queue).spec_items(),
{
    let ghost start = *ctx;
    let ghost q0 = balance_queue.spec_items();
    proof {
        AggregationGraph::lemma_refl(ctx);
        assert(balance_queue.spec_items().subrange(0, q0.len() as int) =~= q0);
    }
    let n = ctx.len();
    if target_id >= n {
        return;
    }
    let mut affected_nodes: usize = 0;
    let mut j: usize = 0;
    while j < uppers.len()
        invariant
            ctx.wf(),
            ctx.extends(&start),
            n == start.spec_len(),
            target_id < n,
            j <= uppers@.len(),
            forall|k: int|
                0 <= k < j && #[trigger] uppers@[k] < start.spec_len() && start.aggregating(
                    uppers@[k] as int,
                ) ==> ctx.has_follower(uppers@[k], target_id),
            balance_queue.spec_items().len() >= q0.len(),
            balance_queue.spec_items().subrange(0, q0.len() as int) == q0,
            !check_expensive ==> ctx.spec_optimizations() == start.spec_optimizations(),
            start.wf(),
            ctx.adds_only(&start, target_id),
            affected_nodes <= affected_bound(&start, uppers@.subrange(0, j as int)),
            affected_bound(&start, uppers@) <= MAX_AFFECTED_NODES ==> ctx.spec_optimizations()
                == start.spec_optimizations(),
        decreases uppers@.len() - j,
    {
        let upper_id = uppers[j];
        let ghost before = *ctx;
        let ghost qb = balance_queue.spec_items();
        let ghost prev_affected = affected_nodes;
        proof {
            assert(uppers@.subrange(0, j + 1).drop_last() =~= uppers@.subrange(0, j as int));
            lemma_affected_bound_prefix(&start, uppers@, j + 1);
        }
        if upper_id < n {
            let added = notify_new_follower(ctx, upper_id, target_id);
            proof {
                AggregationGraph::lemma_extends_trans(&start, &before, ctx);
                AggregationGraph::lemma_adds_only_trans(&start, &before, ctx, target_id);
                AggregationGraph::lemma_adds_only_len(&start, ctx, target_id, upper_id);
                assert(added <= start.followers_of(upper_id as int).dom().len() + 1);
                if start.aggregating(upper_id as int) {
                    assert(before.number_of(upper_id as int) >= start.number_of(upper_id as int));
                    assert(ctx.has_follower(upper_id, target_id));
                }
            }
            affected_nodes = if affected_nodes > usize::MAX - added {
                usize::MAX
            } else {
                affected_nodes + added
            };
            proof {
                assert(affected_nodes <= affected_bound(&start, uppers@.subrange(0, j + 1)));
            }
            if check_expensive && affected_nodes > MAX_AFFECTED_NODES {
                let ghost mid = *ctx;
                handle_expensive_node(ctx, balance_queue, upper_id);
                proof {
                    AggregationGraph::lemma_extends_trans(&start, &mid, ctx);
                    AggregationGraph::lemma_same_nodes_add_nothing(&mid, ctx, target_id);
                    AggregationGraph::lemma_adds_only_trans(&start, &mid, ctx, target_id);
                    assert(ctx.has_follower(upper_id, target_id) || !start.aggregating(upper_id as int));
                }
            }
        }
        proof {
            assert(balance_queue.spec_items().subrange(0, q0.len() as int) =~= qb.subrange(0, q0.len() as int));
            assert forall|k: int|
                0 <= k < j + 1 && #[trigger] uppers@[k] < start.spec_len() && start.aggregating(
                    uppers@[k] as int,
                ) implies ctx.has_follower(uppers@[k], target_id) by {
                if k < j {
                    assert(before.has_follower(uppers@[k], target_id));
                }
            }
        }
        j = j + 1;
    }
}

impl PreparedNewEdge {
    /// Carries out what remains of a new edge, then the aggregation-number
    /// increases queued meanwhile.
    pub fn apply(self, ctx: &mut AggregationGraph)
        requires
            old(ctx).wf(),
        ensures
            final(ctx).wf(),
            final(ctx).extends(old(ctx)),
            match self {
                PreparedNewEdge::Leaf { min_aggregation_number, uppers, target_id, .. } => {
                    &&& affected_bound(old(ctx), uppers@) <= MAX_AFFECTED_NODES
                        ==> final(ctx).spec_optimizations() == old(ctx).spec_optimizations()
                    &&& target_id < old(ctx).spec_len() ==> final(ctx).number_of(target_id as int)
                        >= min_aggregation_number
                    &&& followed_by_all(old(ctx), final(ctx), uppers@, target_id)
                },
                PreparedNewEdge::Upgraded { uppers, target_id, increase } => {
                    &&& final(ctx).spec_optimizations() == old(ctx).spec_optimizations()
                    &&& followed_by_all(old(ctx), final(ctx), uppers@, target_id)
                    &&& increase.node_id < old(ctx).spec_len() && old(ctx).aggregating(
                        increase.node_id as int,
                    ) ==> forall|j: int|
                        0 <= j < increase.children@.len() && #[trigger] increase.children@[j]
                            < old(ctx).spec_len() ==> final(ctx).has_follower(
                            increase.node_id,
                            increase.children@[j],
                        )
                },
                PreparedNewEdge::Aggegating { origin_id, target_id: t, affected_nodes } => {
                    &&& affected_nodes > MAX_AFFECTED_NODES && origin_id < old(ctx).spec_len()
                        && old(ctx).aggregating(origin_id as int) && old(ctx).spec_optimizations()
                        < usize::MAX ==> final(ctx).spec_optimizations() == old(ctx).spec_optimizations()
                        + 1
                    &&& affected_nodes <= MAX_AFFECTED_NODES ==> final(ctx).spec_optimizations()
                        == old(ctx).spec_optimizations()
                    &&& origin_id < old(ctx).spec_len() && t < old(ctx).spec_len() ==> forall|w: usize|
                        #[trigger] old(ctx).has_upper(origin_id, w) ==> final(ctx).has_follower(w, t)
                },
            },
    {
        let ghost start = *ctx;
        let mut balance_queue = BalanceQueue::new();
        match self {
            PreparedNewEdge::Leaf {
                min_aggregation_number,
                target_aggregation_number,
                uppers,
                target_id,
            } => {
                balance_queue.push_increase(
                    target_id,
                    min_aggregation_number,
                    target_aggregation_number,
                );
                notify_uppers(ctx, &mut balance_queue, &uppers, target_id, true);
                let ghost mid = *ctx;
                let ghost items = balance_queue.spec_items();
                proof {
                    assert(items[0] == items.subrange(0, 1)[0]);
                }
                balance_queue.process(ctx);
                proof {
                    AggregationGraph::lemma_extends_trans(&start, &mid, ctx);
                    if target_id < start.spec_len() {
                        assert(items[0].node_id == target_id);
                        assert(mid.number_of(target_id as int) >= start.number_of(target_id as int));
                    }
                    assert forall|j: int|
                        0 <= j < uppers@.len() && #[trigger] uppers@[j] < start.spec_len() && start.aggregating(
                            uppers@[j] as int,
                        ) && target_id < start.spec_len() implies ctx.has_follower(uppers@[j], target_id) by {
                        assert(mid.has_follower(uppers@[j], target_id));
                    }
                    assert(followed_by_all(&start, ctx, uppers@, target_id));
                    if target_id < start.spec_len() {
                        assert(ctx.number_of(target_id as int) >= min_aggregation_number);
                    }
                }
            },
            PreparedNewEdge::Upgraded { uppers, target_id, increase } => {
                notify_uppers(ctx, &mut balance_queue, &uppers, target_id, false);
                let ghost m1 = *ctx;
                let ghost node_id = increase.node_id;
                let ghost children = increase.children@;
                increase.apply(ctx, &mut balance_queue);
                let ghost m2 = *ctx;
                proof {
                    AggregationGraph::lemma_extends_trans(&start, &m1, ctx);
                    if node_id < start.spec_len() && start.aggregating(node_id as int) {
                        assert(m1.number_of(node_id as int) >= start.number_of(node_id as int));
                    }
                }
                balance_queue.process(ctx);
                proof {
                    AggregationGraph::lemma_extends_trans(&start, &m2, ctx);
                    assert forall|j: int|
                        0 <= j < uppers@.len() && #[trigger] uppers@[j] < start.spec_len() && start.aggregating(
                            uppers@[j] as int,
                        ) && target_id < start.spec_len() implies ctx.has_follower(uppers@[j], target_id) by {
                        assert(m1.has_follower(uppers@[j], target_id));
                        assert(m2.has_follower(uppers@[j], target_id));
                    }
                    if node_id < start.spec_len() && start.aggregating(node_id as int) {
                        assert forall|j: int|
                            0 <= j < children.len() && #[trigger] children[j] < start.spec_len() implies ctx.has_follower(
                                node_id,
                                children[j],
                            ) by {
                            assert(m2.has_follower(node_id, children[j]));
                        }
                    }
                }
            },
            PreparedNewEdge::Aggegating { origin_id, target_id, affected_nodes } => {
                proof {
                    AggregationGraph::lemma_refl(ctx);
                }
                let n = ctx.len();
                if origin_id < n && target_id < n {
                    // the origin's uppers follow the new follower too
                    advertise_new_follower(ctx, origin_id, target_id, n);
                }
                let ghost advertised = *ctx;
                if affected_nodes > MAX_AFFECTED_NODES {
                    handle_expensive_node(ctx, &mut balance_queue, origin_id);
                }
                proof {
                    AggregationGraph::lemma_extends_trans(&start, &advertised, ctx);
                    if origin_id < start.spec_len() {
                        assert(advertised.number_of(origin_id as int) >= start.number_of(origin_id as int));
                    }
                }
                let ghost mid = *ctx;
                balance_queue.process(ctx);
                proof {
                    AggregationGraph::lemma_extends_trans(&start, &mid, ctx);
                    AggregationGraph::lemma_extends_trans(&advertised, &mid, ctx);
                    if origin_id < start.spec_len() && target_id < start.spec_len() {
                        assert forall|w: usize| #[trigger] start.has_upper(origin_id, w) implies ctx.has_follower(w, target_id) by {
                            assert(start.uppers_of(origin_id as int).contains_key(w));
                            assert(w < start.spec_len());
                            assert(advertised.has_follower(w, target_id));
                        }
                    }
                }
            },
        }
    }
}

/// Looks at `origin_id`, which has just gained `target_id` as its
/// `number_of_children`-th child, and does the part that concerns the origin:
/// - a leaf whose child count is a power of two and with
///   `(uppers + 1) * number_of_children` at least
///   [`crate::node::MAX_UPPERS_TIMES_CHILDREN`] becomes an aggregating node
///   (`Upgraded`);
/// - another leaf is left as it is; the target must rise to one above the
///   origin, [`BUFFER_SPACE`] more if it can (`Leaf`);
/// - an aggregating origin takes the target as a follower; where it already
///   followed it, only the count grows and nothing remains to be done (`None`).
pub fn handle_new_edge(
    ctx: &mut AggregationGraph,
    origin_id: usize,
    target_id: usize,
    number_of_children: usize,
) -> (r: Option<PreparedNewEdge>)
    requires
        old(ctx).wf(),
        origin_id < old(ctx).spec_len(),
        target_id < old(ctx).spec_len(),
    ensures
        final(ctx).wf(),
        final(ctx).extends(old(ctx)),
        final(ctx).spec_optimizations() == old(ctx).spec_optimizations(),
        !old(ctx).aggregating(origin_id as int) && spec_should_upgrade(
            number_of_children as nat,
            old(ctx).uppers_of(origin_id as int).dom().len(),
        ) ==> match r {
            Some(PreparedNewEdge::Upgraded { uppers, target_id: t, increase }) => {
                &&& t == target_id
                &&& uppers@.to_set() == old(ctx).uppers_of(origin_id as int).dom()
                &&& increase.node_id == origin_id
                &&& increase.children@ == old(ctx).spec_children(origin_id as int)
                &&& final(ctx).aggregating(origin_id as int)
                &&& final(ctx).number_of(origin_id as int) == LEAF_NUMBER
            },
            _ => false,
        },
        !old(ctx).aggregating(origin_id as int) && !spec_should_upgrade(
            number_of_children as nat,
            old(ctx).uppers_of(origin_id as int).dom().len(),
        ) ==> final(ctx).unchanged_from(old(ctx)) && match r {
            Some(
                PreparedNewEdge::Leaf {
                    min_aggregation_number,
                    target_aggregation_number,
                    uppers,
                    target_id: t,
                },
            ) => {
                &&& t == target_id
                &&& uppers@.to_set() == old(ctx).uppers_of(origin_id as int).dom()
                &&& min_aggregation_number == saturating_add_spec(
                    old(ctx).number_of(origin_id as int),
                    1,
                )
                &&& target_aggregation_number == saturating_add_spec(
                    min_aggregation_number,
                    BUFFER_SPACE,
                )
            },
            _ => false,
        },
        old(ctx).aggregating(origin_id as int) ==> {
            &&& final(ctx).has_follower(origin_id, target_id)
            &&& (r is None <==> old(ctx).has_follower(origin_id, target_id))
            &&& !old(ctx).has_follower(origin_id, target_id) ==> final(ctx).followers_of(origin_id as int)
                == old(ctx).followers_of(origin_id as int).insert(target_id, 1)
            &&& match r {
                Some(PreparedNewEdge::Aggegating { origin_id: o, target_id: t, affected_nodes }) => {
                    &&& o == origin_id
                    &&& t == target_id
                    &&& affected_nodes == final(ctx).followers_of(origin_id as int).dom().len()
                },
                Some(_) => false,
                None => true,
            }
        },
{
    proof {
        AggregationGraph::lemma_refl(ctx);
        assert(ctx.spec_node(origin_id as int).wf());
        assert(ctx.number_of(origin_id as int) >= LEAF_NUMBER ==> ctx.aggregating(origin_id as int));
    }
    if ctx.node(origin_id).is_leaf() {
        let uppers_len = ctx.node(origin_id).uppers().len();
        let uppers = ctx.node(origin_id).uppers().to_vec();
        if should_upgrade(number_of_children, uppers_len) {
            let children = ctx.children(origin_id).clone();
            ctx.upgrade_node(origin_id);
            Some(
                PreparedNewEdge::Upgraded {
                    uppers,
                    target_id,
                    increase: PreparedInternalIncreaseAggregationNumber {
                        node_id: origin_id,
                        children,
                    },
                },
            )
        } else {
            let number = ctx.node(origin_id).aggregation_number();
            let min_aggregation_number = add_saturating(number, 1);
            let target_aggregation_number = add_saturating(min_aggregation_number, BUFFER_SPACE);
            Some(
                PreparedNewEdge::Leaf {
                    min_aggregation_number,
                    target_aggregation_number,
                    uppers,
                    target_id,
                },
            )
        }
    } else {
        let had = match ctx.node(origin_id).followers() {
            Some(fs) => fs.contains(target_id),
            None => false,
        };
        let affected_nodes = ctx.add_follower_edge(origin_id, target_id);
        if had {
            None
        } else {
            Some(PreparedNewEdge::Aggegating { origin_id, target_id, affected_nodes })
        }
    }
}

/// Records `target_id` as a new child of `origin_id` and brings the
/// aggregation tree up to date: prepares the edge on the origin, then applies
/// what remains, including the queued aggregation-number increases.
pub fn add_edge(ctx: &mut AggregationGraph, origin_id: usize, target_id: usize)
    requires
        old(ctx).wf(),
        origin_id < old(ctx).spec_len(),
        target_id < old(ctx).spec_len(),
        old(ctx).spec_children(origin_id as int).len() < usize::MAX,
    ensures
        final(ctx).wf(),
        final(ctx).grows_from(old(ctx)),
        final(ctx).spec_len() == old(ctx).spec_len(),
        final(ctx).spec_children(origin_id as int) == old(ctx).spec_children(origin_id as int).push(
            target_id,
        ),
        forall|u: usize, f: usize|
            u < old(ctx).spec_len() && #[trigger] old(ctx).has_follower(u, f) ==> final(ctx).has_follower(u, f),
        old(ctx).aggregating(origin_id as int) ==> final(ctx).has_follower(origin_id, target_id),
        !old(ctx).aggregating(origin_id as int) ==> forall|u: usize|
            #[trigger] old(ctx).has_upper(origin_id, u) && old(ctx).aggregating(u as int)
                ==> final(ctx).has_follower(u, target_id),
        !old(ctx).aggregating(origin_id as int) && !spec_should_upgrade(
            old(ctx).spec_children(origin_id as int).len() + 1,
            old(ctx).uppers_of(origin_id as int).dom().len(),
        ) ==> final(ctx).number_of(target_id as int) >= saturating_add_spec(
            old(ctx).number_of(origin_id as int),
            1,
        ),
        !old(ctx).aggregating(origin_id as int) && spec_should_upgrade(
            old(ctx).spec_children(origin_id as int).len() + 1,
            old(ctx).uppers_of(origin_id as int).dom().len(),
        ) ==> final(ctx).aggregating(origin_id as int) && forall|j: int|
            0 <= j < final(ctx).spec_children(origin_id as int).len() ==> final(ctx).has_follower(
                origin_id,
                #[trigger] final(ctx).spec_children(origin_id as int)[j],
            ),
{
    let ghost start = *ctx;
    let number_of_children = ctx.push_child(origin_id, target_id);
    let ghost pushed = *ctx;
    proof {
        assert(pushed.uppers_of(origin_id as int) == start.uppers_of(origin_id as int));
        assert(pushed.aggregating(origin_id as int) == start.aggregating(origin_id as int));
        assert forall|u: usize, f: usize|
            u < start.spec_len() && #[trigger] start.has_follower(u, f) implies pushed.has_follower(u, f) by {
            assert(pushed.spec_node(u as int) == start.spec_node(u as int));
        }
        assert forall|u: usize| u < start.spec_len() implies #[trigger] pushed.aggregating(u as int)
            == start.aggregating(u as int) by {
            assert(pushed.spec_node(u as int) == start.spec_node(u as int));
        }
    }
    let prepared = handle_new_edge(ctx, origin_id, target_id, number_of_children);
    let ghost prepared_state = *ctx;
    match prepared {
        Some(p) => {
            let ghost pg = p;
            p.apply(ctx);
            proof {
                AggregationGraph::lemma_extends_trans(&pushed, &prepared_state, ctx);
                match pg {
                    PreparedNewEdge::Leaf { uppers, target_id: t, .. } => {
                        assert forall|u: usize|
                            #[trigger] start.has_upper(origin_id, u) && start.aggregating(u as int)
                            implies ctx.has_follower(u, target_id) by {
                            assert(start.uppers_of(origin_id as int).dom().contains(u));
                            assert(uppers@.to_set().contains(u));
                            let j = choose|j: int| 0 <= j < uppers@.len() && uppers@[j] == u;
                            assert(uppers@[j] == u);
                            assert(u < start.spec_len());
                            assert(prepared_state.number_of(u as int) >= start.number_of(u as int));
                        }
                    },
                    PreparedNewEdge::Upgraded { uppers, target_id: t, increase } => {
                        assert forall|u: usize|
                            #[trigger] start.has_upper(origin_id, u) && start.aggregating(u as int)
                            implies ctx.has_follower(u, target_id) by {
                            assert(start.uppers_of(origin_id as int).dom().contains(u));
                            assert(uppers@.to_set().contains(u));
                            let j = choose|j: int| 0 <= j < uppers@.len() && uppers@[j] == u;
                            assert(uppers@[j] == u);
                            assert(u < start.spec_len());
                            assert(prepared_state.number_of(u as int) >= start.number_of(u as int));
                        }
                        assert(prepared_state.aggregating(origin_id as int));
                        assert(ctx.number_of(origin_id as int) >= prepared_state.number_of(origin_id as int));
                        assert(ctx.spec_children(origin_id as int) == prepared_state.spec_children(origin_id as int));
                        assert(prepared_state.spec_children(origin_id as int) == pushed.spec_children(origin_id as int));
                        assert forall|j: int|
                            0 <= j < ctx.spec_children(origin_id as int).len() implies ctx.has_follower(
                                origin_id,
                                #[trigger] ctx.spec_children(origin_id as int)[j],
                            ) by {
                            assert(pushed.spec_children(origin_id as int)[j] < pushed.spec_len());
                            assert(increase.children@[j] == pushed.spec_children(origin_id as int)[j]);
                        }
                    },
                    PreparedNewEdge::Aggegating { .. } => {},
                }
            }
        },
        None => {},
    }
    proof {
        assert(ctx.extends(&pushed));
        assert forall|u: usize, f: usize|
            u < start.spec_len() && #[trigger] start.has_follower(u, f) implies ctx.has_follower(u, f) by {
            assert(pushed.has_follower(u, f));
        }
        assert forall|i: int| 0 <= i < start.spec_len() implies #[trigger] ctx.number_of(i) >= start.number_of(i) && (
            start.aggregating(i) ==> ctx.aggregating(i)) && ctx.spec_info(i) == start.spec_info(i) by {
            assert(pushed.spec_node(i) == start.spec_node(i));
            assert(pushed.number_of(i) == start.number_of(i));
            assert(ctx.number_of(i) >= pushed.number_of(i));
        }
    }
}

} // verus!
