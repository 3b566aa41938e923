use vstd::prelude::*;

use crate::graph::AggregationGraph;

verus! {

/// A deferred request to raise the aggregation number of `node_id` to at
/// least `min_aggregation_number`, and then to `target_aggregation_number`
/// where that is higher, so that a few more increases find room.
#[derive(Clone, Copy, Debug, PartialEq, Eq, Structural)]
pub struct PendingIncrease {
    pub node_id: usize,
    pub min_aggregation_number: u32,
    pub target_aggregation_number: u32,
}

/// Raises the aggregation number of `node_id` to `number` where it is lower,
/// then each upper that is no longer above it to one more, and so on up.
/// `depth` bounds how far up this goes; the graph has no cycles upwards, so
/// the number of nodes is enough. Only aggregation numbers change, and a
/// leaf that reaches [`crate::node::LEAF_NUMBER`] becomes an aggregating node.
pub fn raise_with_uppers(ctx: &mut AggregationGraph, node_id: usize, number: u32, depth: usize)
    requires
        old(ctx).wf(),
        node_id < old(ctx).spec_len(),
    ensures
        final(ctx).wf(),
        final(ctx).extends(old(ctx)),
        final(ctx).spec_optimizations() == old(ctx).spec_optimizations(),
        final(ctx).number_of(node_id as int) >= number,
        forall|i: int| 0 <= i < old(ctx).spec_len() ==> #[trigger] final(ctx).spec_node_frame(i) == old(ctx).spec_node_frame(i),
        depth > 0 && number < u32::MAX ==> forall|w: usize|
            #[trigger] old(ctx).has_upper(node_id, w) ==> final(ctx).number_of(w as int) > number,
    decreases depth,
{
    let ghost start = *ctx;
    ctx.raise_aggregation_number(node_id, number);
    proof {
        assert forall|i: int| 0 <= i < start.spec_len() implies #[trigger] ctx.spec_node_frame(i) == start.spec_node_frame(i) by {}
    }
    if depth == 0 || number == u32::MAX {
        return;
    }
    let ghost raised = *ctx;
    proof {
        assert(ctx.spec_node(node_id as int).wf());
    }
    let uppers = ctx.node(node_id).uppers().to_vec();
    proof {
        assert(ctx.uppers_of(node_id as int) == start.uppers_of(node_id as int));
    }
    let n = ctx.len();
    let mut j: usize = 0;
    while j < uppers.len()
        invariant
            ctx.wf(),
            ctx.extends(&start),
            ctx.spec_optimizations() == start.spec_optimizations(),
            forall|i: int| 0 <= i < start.spec_len() ==> #[trigger] ctx.spec_node_frame(i) == start.spec_node_frame(i),
            ctx.number_of(node_id as int) >= number,
            number < u32::MAX,
            n == start.spec_len(),
            node_id < n,
            depth > 0,
            j <= uppers@.len(),
            start.wf(),
            uppers@.to_set() == start.uppers_of(node_id as int).dom(),
            forall|k: int| 0 <= k < j ==> ctx.number_of(#[trigger] uppers@[k] as int) > number,
        decreases uppers@.len() - j,
    {
        let upper_id = uppers[j];
        let ghost at_step = *ctx;
        proof {
            assert(uppers@.to_set().contains(upper_id));
            assert(start.has_upper(node_id, upper_id));
            assert(upper_id < n);
        }
        if upper_id < n && ctx.node(upper_id).aggregation_number() <= number {
            let ghost before = *ctx;
            raise_with_uppers(ctx, upper_id, number + 1, depth - 1);
            proof {
                AggregationGraph::lemma_extends_trans(&start, &before, ctx);
                assert(ctx.number_of(node_id as int) >= before.number_of(node_id as int));
                assert forall|i: int| 0 <= i < start.spec_len() implies #[trigger] ctx.spec_node_frame(i)
                    == start.spec_node_frame(i) by {
                    assert(before.spec_node_frame(i) == start.spec_node_frame(i));
                }
            }
        }
        proof {
            assert forall|k: int| 0 <= k < j + 1 implies ctx.number_of(#[trigger] uppers@[k] as int) > number by {
                assert(uppers@.to_set().contains(uppers@[k]));
                assert(start.has_upper(node_id, uppers@[k]));
                assert(uppers@[k] < n);
                assert(ctx.number_of(uppers@[k] as int) >= at_step.number_of(uppers@[k] as int));
            }
        }
        j = j + 1;
    }
    proof {
        assert forall|w: usize| #[trigger] start.has_upper(node_id, w) implies ctx.number_of(w as int) > number by {
            assert(start.uppers_of(node_id as int).dom().contains(w));
            assert(uppers@.to_set().contains(w));
            let k = choose|k: int| 0 <= k < uppers@.len() && uppers@[k] == w;
            assert(ctx.number_of(uppers@[k] as int) > number);
        }
    }
}

/// Aggregation-number increases collected during one top-level operation and
/// carried out at its end, once the structural changes are in place.
pub struct BalanceQueue {
    items: Vec<PendingIncrease>,
}

impl BalanceQueue {
    pub closed spec fn spec_items(&self) -> Seq<PendingIncrease> {
        self.items@
    }

    pub fn new() -> (r: Self)
        ensures
            r.spec_items() == Seq::<PendingIncrease>::empty(),
    {
        BalanceQueue { items: Vec::new() }
    }

    pub fn len(&self) -> (r: usize)
        ensures
            r == self.spec_items().len(),
    {
        self.items.len()
    }

    /// Queues an increase of `node_id` to at least `min_aggregation_number`,
    /// ideally `target_aggregation_number`.
    pub fn push_increase(
        &mut self,
        node_id: usize,
        min_aggregation_number: u32,
        target_aggregation_number: u32,
    )
        ensures
            final(self).spec_items() == old(self).spec_items().push(
                PendingIncrease { node_id, min_aggregation_number, target_aggregation_number },
            ),
    {
        self.items.push(PendingIncrease { node_id, min_aggregation_number, target_aggregation_number });
    }

    /// Carries out the queued increases in order: a node below the minimum of
    /// an item is raised to the item's larger number, and its uppers are kept
    /// above it (see [`raise_with_uppers`]); a node at or above the minimum is
    /// left alone. Items naming no node of `ctx` are skipped. Only aggregation
    /// numbers change, and a leaf that reaches [`crate::node::LEAF_NUMBER`]
    /// becomes an aggregating node.
    pub fn process(self, ctx: &mut AggregationGraph)
        requires
            old(ctx).wf(),
        ensures
            final(ctx).wf(),
            final(ctx).grows_from(old(ctx)),
            final(ctx).extends(old(ctx)),
            final(ctx).spec_len() == old(ctx).spec_len(),
            final(ctx).spec_optimizations() == old(ctx).spec_optimizations(),
            forall|k: int|
                0 <= k < self.spec_items().len() && #[trigger] self.spec_items()[k].node_id
                    < old(ctx).spec_len() ==> final(ctx).number_of(self.spec_items()[k].node_id as int)
                    >= self.spec_items()[k].min_aggregation_number,
            forall|i: int|
                0 <= i < old(ctx).spec_len() ==> #[trigger] final(ctx).uppers_of(i) == old(ctx).uppers_of(i)
                    && final(ctx).followers_of(i) == old(ctx).followers_of(i) && final(ctx).data_of(i)
                    == old(ctx).data_of(i) && final(ctx).spec_children(i) == old(ctx).spec_children(i),
    {
        let ghost start = *ctx;
        proof {
            assert forall|i: int| 0 <= i < start.spec_len() implies #[trigger] ctx.spec_node_frame(i)
                == start.spec_node_frame(i) by {}
        }
        let items = self.items;
        let n = ctx.len();
        let mut k: usize = 0;
        while k < items.len()
            invariant
                ctx.wf(),
                ctx.grows_from(&start),
                ctx.extends(&start),
                ctx.spec_len() == start.spec_len(),
                n == start.spec_len(),
                ctx.spec_optimizations() == start.spec_optimizations(),
                items@ == self.spec_items(),
                k <= items@.len(),
                forall|j: int|
                    0 <= j < k && #[trigger] items@[j].node_id < start.spec_len() ==> ctx.number_of(
                        items@[j].node_id as int,
                    ) >= items@[j].min_aggregation_number,
                forall|i: int| 0 <= i < start.spec_len() ==> #[trigger] ctx.spec_node_frame(i) == start.spec_node_frame(i),
            decreases items@.len() - k,
        {
            let p = items[k];
            let ghost before = *ctx;
            if p.node_id < n {
                let current = ctx.node(p.node_id).aggregation_number();
                if current < p.min_aggregation_number {
                    let number = if p.min_aggregation_number < p.target_aggregation_number {
                        p.target_aggregation_number
                    } else {
                        p.min_aggregation_number
                    };
                    raise_with_uppers(ctx, p.node_id, number, n);
                    proof {
                        AggregationGraph::lemma_extends_trans(&start, &before, ctx);
                    }
                }
            }
            proof {
                assert forall|j: int|
                    0 <= j < k + 1 && #[trigger] items@[j].node_id < start.spec_len() implies ctx.number_of(
                        items@[j].node_id as int,
                    ) >= items@[j].min_aggregation_number by {
                    if j < k {
                        assert(before.number_of(items@[j].node_id as int) >= items@[j].min_aggregation_number);
                    }
                }
                assert forall|i: int| 0 <= i < start.spec_len() implies #[trigger] ctx.spec_node_frame(i)
                    == start.spec_node_frame(i) by {
                    assert(before.spec_node_frame(i) == start.spec_node_frame(i));
                }
            }
            k = k + 1;
        }
        proof {
            assert forall|i: int| 0 <= i < start.spec_len() implies #[trigger] ctx.uppers_of(i)
                == start.uppers_of(i) && ctx.followers_of(i) == start.followers_of(i) && ctx.data_of(i)
                == start.data_of(i) && ctx.spec_children(i) == start.spec_children(i) by {
                assert(ctx.spec_node_frame(i) == start.spec_node_frame(i));
            }
        }
    }
}

} // verus!
