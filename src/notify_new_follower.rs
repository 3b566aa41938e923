use vstd::prelude::*;

use crate::graph::AggregationGraph;

verus! {

/// Makes every upper of `upper_id` follow `follower_id` too, and so on up
/// through their uppers, as long as each of them gains it as a new follower.
/// `depth` bounds how far up this goes; the graph has no cycles upwards, so
/// the number of nodes is enough.
pub fn advertise_new_follower(
    ctx: &mut AggregationGraph,
    upper_id: usize,
    follower_id: usize,
    depth: usize,
)
    requires
        old(ctx).wf(),
        upper_id < old(ctx).spec_len(),
        follower_id < old(ctx).spec_len(),
    ensures
        final(ctx).wf(),
        final(ctx).extends(old(ctx)),
        final(ctx).adds_only(old(ctx), follower_id),
        final(ctx).spec_optimizations() == old(ctx).spec_optimizations(),
        depth > 0 ==> forall|w: usize|
            #[trigger] old(ctx).has_upper(upper_id, w) ==> final(ctx).has_follower(w, follower_id),
    decreases depth,
{
    let ghost start = *ctx;
    proof {
        AggregationGraph::lemma_refl(ctx);
        assert(ctx.spec_node(upper_id as int).wf());
    }
    if depth == 0 {
        return;
    }
    let uppers = ctx.node(upper_id).uppers().to_vec();
    let n = ctx.len();
    let mut j: usize = 0;
    while j < uppers.len()
        invariant
            ctx.wf(),
            ctx.extends(&start),
            ctx.adds_only(&start, follower_id),
            ctx.spec_optimizations() == start.spec_optimizations(),
            n == start.spec_len(),
            upper_id < n,
            follower_id < n,
            start.wf(),
            depth > 0,
            j <= uppers@.len(),
            uppers@.to_set() == start.uppers_of(upper_id as int).dom(),
            forall|k: int| 0 <= k < j ==> ctx.has_follower(#[trigger] uppers@[k], follower_id),
        decreases uppers@.len() - j,
    {
        let next = uppers[j];
        let ghost at_step = *ctx;
        proof {
            assert(uppers@.to_set().contains(next));
            assert(start.has_upper(upper_id, next));
            assert(next < n);
            assert(start.has_follower(next, upper_id));
            assert(start.aggregating(next as int));
            assert(ctx.number_of(next as int) >= start.number_of(next as int));
        }
        if next < n {
            let ghost before = *ctx;
            proof {
                assert(ctx.spec_node(next as int).wf());
            }
            let had = match ctx.node(next).followers() {
                Some(fs) => fs.contains(follower_id),
                None => true,
            };
            ctx.add_follower_edge(next, follower_id);
            let ghost mid = *ctx;
            proof {
                AggregationGraph::lemma_extends_trans(&start, &before, ctx);
                AggregationGraph::lemma_adds_only_trans(&start, &before, ctx, follower_id);
            }
            proof {
                assert(ctx.has_follower(next, follower_id));
                assert(before == at_step);
            }
            if !had {
                advertise_new_follower(ctx, next, follower_id, depth - 1);
                proof {
                    AggregationGraph::lemma_extends_trans(&start, &mid, ctx);
                    AggregationGraph::lemma_extends_trans(&at_step, &mid, ctx);
                    AggregationGraph::lemma_adds_only_trans(&start, &mid, ctx, follower_id);
                    assert(ctx.has_follower(next, follower_id));
                }
            }
        }
        proof {
            assert(ctx.extends(&at_step));
            assert forall|k: int| 0 <= k < j + 1 implies ctx.has_follower(#[trigger] uppers@[k], follower_id) by {
                assert(uppers@.to_set().contains(uppers@[k]));
                assert(start.has_upper(upper_id, uppers@[k]));
                assert(uppers@[k] < n);
                if k < j {
                    assert(at_step.has_follower(uppers@[k], follower_id));
                } else {
                    assert(uppers@[k] == next);
                }
            }
        }
        j = j + 1;
    }
    proof {
        assert forall|w: usize| #[trigger] start.has_upper(upper_id, w) implies ctx.has_follower(w, follower_id) by {
            assert(start.uppers_of(upper_id as int).dom().contains(w));
            assert(uppers@.to_set().contains(w));
            let k = choose|k: int| 0 <= k < uppers@.len() && uppers@[k] == w;
            assert(ctx.has_follower(uppers@[k], follower_id));
        }
    }
}

/// Tells the aggregating node `upper_id` that it gained `follower_id` as a
/// follower: one more reference is recorded, and where the follower is new
/// the upper's own uppers learn of it too (see [`advertise_new_follower`]).
/// Returns the number of distinct followers of `upper_id` afterwards; 0
/// where it is a leaf.
pub fn notify_new_follower(ctx: &mut AggregationGraph, upper_id: usize, follower_id: usize) -> (r:
    usize)
    requires
        old(ctx).wf(),
        upper_id < old(ctx).spec_len(),
        follower_id < old(ctx).spec_len(),
    ensures
        final(ctx).wf(),
        final(ctx).extends(old(ctx)),
        final(ctx).adds_only(old(ctx), follower_id),
        final(ctx).spec_optimizations() == old(ctx).spec_optimizations(),
        old(ctx).aggregating(upper_id as int) ==> final(ctx).has_follower(upper_id, follower_id)
            && r == final(ctx).followers_of(upper_id as int).dom().len(),
        old(ctx).aggregating(upper_id as int) && !old(ctx).has_follower(upper_id, follower_id)
            ==> forall|w: usize|
            #[trigger] old(ctx).has_upper(upper_id, w) ==> final(ctx).has_follower(w, follower_id),
        !old(ctx).aggregating(upper_id as int) ==> *final(ctx) == *old(ctx) && r == 0,
{
    let ghost start = *ctx;
    proof {
        assert(ctx.spec_node(upper_id as int).wf());
    }
    let had = match ctx.node(upper_id).followers() {
        Some(fs) => fs.contains(follower_id),
        None => true,
    };
    ctx.add_follower_edge(upper_id, follower_id);
    let ghost mid = *ctx;
    proof {
        if start.aggregating(upper_id as int) {
            assert(ctx.has_follower(upper_id, follower_id));
        }
    }
    if !had {
        let depth = ctx.len();
        advertise_new_follower(ctx, upper_id, follower_id, depth);
        proof {
            AggregationGraph::lemma_extends_trans(&start, &mid, ctx);
            AggregationGraph::lemma_adds_only_trans(&start, &mid, ctx, follower_id);
            assert forall|w: usize| #[trigger] start.has_upper(upper_id, w) implies ctx.has_follower(w, follower_id) by {
                assert(mid.has_upper(upper_id, w));
            }
        }
    }
    proof {
        assert(ctx.spec_node(upper_id as int).wf());
    }
    match ctx.node(upper_id).followers() {
        Some(fs) => fs.len(),
        None => 0,
    }
}

} // verus!
