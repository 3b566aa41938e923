use vstd::prelude::*;

use crate::count_hash_set::spec_remove;
use crate::count_hash_set::RemoveIfEntryResult;
use crate::graph::AggregationGraph;
use crate::info::spec_apply_opt;
use crate::info::spec_remove_change;

verus! {

/// Takes one reference to `follower_id` away from every upper of `upper_id`,
/// and so on up through the uppers of each upper that lost its last one.
/// `depth` bounds how far up this goes; the graph has no cycles upwards, so
/// the number of nodes is enough.
pub fn withdraw_lost_follower(
    ctx: &mut AggregationGraph,
    upper_id: usize,
    follower_id: usize,
    depth: usize,
)
    requires
        old(ctx).wf(),
        upper_id < old(ctx).spec_len(),
        follower_id < old(ctx).spec_len(),
    ensures
        final(ctx).wf(),
        final(ctx).shrinks_from(old(ctx)),
        forall|i: usize|
            i < old(ctx).spec_len() && !#[trigger] old(ctx).has_follower(i, follower_id)
                ==> final(ctx).followers_of(i as int) == old(ctx).followers_of(i as int)
                && final(ctx).data_of(i as int) == old(ctx).data_of(i as int),
        forall|i: int|
            0 <= i < old(ctx).spec_len() && i != follower_id ==> #[trigger] final(ctx).uppers_of(i)
                == old(ctx).uppers_of(i),
        depth > 0 ==> forall|w: usize|
            #[trigger] old(ctx).has_upper(upper_id, w) && old(ctx).has_follower(w, follower_id)
                && old(ctx).followers_of(w as int)[follower_id] == 1 ==> !final(ctx).has_follower(
                w,
                follower_id,
            ),
    decreases depth,
{
    let ghost start = *ctx;
    proof {
        assert(ctx.spec_node(upper_id as int).wf());
        assert forall|i: int| 0 <= i < ctx.spec_len() implies #[trigger] ctx.number_of(i) == start.number_of(i)
            && ctx.aggregating(i) == start.aggregating(i) && ctx.spec_info(i) == start.spec_info(i)
            && ctx.spec_children(i) == start.spec_children(i) by {}
    }
    if depth == 0 {
        return;
    }
    let uppers = ctx.node(upper_id).uppers().to_vec();
    let n = ctx.len();
    let mut j: usize = 0;
    while j < uppers.len()
        invariant
            ctx.wf(),
            start.wf(),
            ctx.shrinks_from(&start),
            n == start.spec_len(),
            upper_id < n,
            follower_id < n,
            depth > 0,
            j <= uppers@.len(),
            uppers@.to_set() == start.uppers_of(upper_id as int).dom(),
            forall|i: usize|
                i < start.spec_len() && !#[trigger] start.has_follower(i, follower_id)
                    ==> ctx.followers_of(i as int) == start.followers_of(i as int)
                    && ctx.data_of(i as int) == start.data_of(i as int),
            forall|i: int|
                0 <= i < start.spec_len() && i != follower_id ==> #[trigger] ctx.uppers_of(i)
                    == start.uppers_of(i),
            forall|k: int|
                0 <= k < j && start.has_follower(#[trigger] uppers@[k], follower_id) && start.followers_of(
                    uppers@[k] as int,
                )[follower_id] == 1 ==> !ctx.has_follower(uppers@[k], follower_id),
        decreases uppers@.len() - j,
    {
        let next = uppers[j];
        let ghost at_step = *ctx;
        proof {
            assert(uppers@.to_set().contains(next));
            assert(start.has_upper(upper_id, next));
            assert(next < n);
            AggregationGraph::lemma_follower_counts_positive(ctx, next);
            AggregationGraph::lemma_shrinks_refl(ctx);
        }
        if next < n {
            let ghost before = *ctx;
            let r = ctx.remove_follower_edge(next, follower_id);
            proof {
                AggregationGraph::lemma_shrinks_trans(&start, &before, ctx);
                if start.has_follower(next, follower_id) && start.followers_of(next as int)[follower_id] == 1 {
                    assert(!ctx.has_follower(next, follower_id));
                }
            }
            proof {
                assert forall|i: usize|
                    i < start.spec_len() && !#[trigger] start.has_follower(i, follower_id)
                        implies ctx.followers_of(i as int) == start.followers_of(i as int)
                        && ctx.data_of(i as int) == start.data_of(i as int) by {
                    assert(before.followers_of(i as int) == start.followers_of(i as int));
                    assert(before.data_of(i as int) == start.data_of(i as int));
                    if i == next {
                        assert(!before.has_follower(next, follower_id));
                        assert(r == RemoveIfEntryResult::NotPresent);
                        assert(ctx.followers_of(next as int) == before.followers_of(next as int));
                    } else {
                        assert(ctx.followers_of(i as int) == before.followers_of(i as int));
                    }
                }
                assert forall|i: int|
                    0 <= i < start.spec_len() && i != follower_id implies #[trigger] ctx.uppers_of(i)
                        == start.uppers_of(i) by {
                    assert(before.uppers_of(i) == start.uppers_of(i));
                }
            }
            if r == RemoveIfEntryResult::Removed {
                let ghost mid = *ctx;
                withdraw_lost_follower(ctx, next, follower_id, depth - 1);
                proof {
                    AggregationGraph::lemma_shrinks_trans(&start, &mid, ctx);
                    AggregationGraph::lemma_shrinks_trans(&at_step, &mid, ctx);
                    assert forall|i: usize|
                        i < start.spec_len() && !#[trigger] start.has_follower(i, follower_id)
                            implies ctx.followers_of(i as int) == start.followers_of(i as int)
                            && ctx.data_of(i as int) == start.data_of(i as int) by {
                        assert(!mid.has_follower(i, follower_id));
                    }
                    assert forall|i: int|
                        0 <= i < start.spec_len() && i != follower_id implies #[trigger] ctx.uppers_of(i)
                            == start.uppers_of(i) by {
                        assert(mid.uppers_of(i) == start.uppers_of(i));
                    }
                }
            }
        }
        proof {
            assert forall|k: int|
                0 <= k < j + 1 && start.has_follower(#[trigger] uppers@[k], follower_id) && start.followers_of(
                    uppers@[k] as int,
                )[follower_id] == 1 implies !ctx.has_follower(uppers@[k], follower_id) by {
                assert(uppers@.to_set().contains(uppers@[k]));
                assert(start.has_upper(upper_id, uppers@[k]));
                assert(uppers@[k] < n);
                if k < j {
                    assert(!at_step.has_follower(uppers@[k], follower_id));
                } else {
                    assert(uppers@[k] == next);
                }
            }
        }
        j = j + 1;
    }
    proof {
        assert forall|w: usize|
            #[trigger] start.has_upper(upper_id, w) && start.has_follower(w, follower_id)
                && start.followers_of(w as int)[follower_id] == 1 implies !ctx.has_follower(w, follower_id) by {
            assert(start.uppers_of(upper_id as int).dom().contains(w));
            assert(uppers@.to_set().contains(w));
            let k = choose|k: int| 0 <= k < uppers@.len() && uppers@[k] == w;
            assert(uppers@[k] == w);
        }
    }
}

/// Settles a removal that found `upper_id` no longer following
/// `follower_id`: where the follower still lists the upper (a record left by
/// a race, see [`AggregationGraph::wf_with_stray_upper`]), the record goes and
/// the follower's info leaves the upper's data, and the result is `Removed`.
/// Where the follower does not list it either, the edge is gone on both
/// sides: the result is `NotPresent` and nothing changes.
pub fn reconcile_lost_follower(ctx: &mut AggregationGraph, upper_id: usize, follower_id: usize) -> (r:
    RemoveIfEntryResult)
    requires
        upper_id < old(ctx).spec_len(),
        follower_id < old(ctx).spec_len(),
        !old(ctx).has_follower(upper_id, follower_id),
        old(ctx).wf() || old(ctx).wf_with_stray_upper(upper_id, follower_id),
    ensures
        final(ctx).wf(),
        r == spec_remove(old(ctx).uppers_of(follower_id as int), upper_id).1,
        r == RemoveIfEntryResult::NotPresent ==> final(ctx).unchanged_from(old(ctx)),
        r == RemoveIfEntryResult::Removed ==> {
            &&& !final(ctx).has_upper(follower_id, upper_id)
            &&& final(ctx).uppers_of(follower_id as int) == old(ctx).uppers_of(follower_id as int).remove(
                upper_id,
            )
            &&& final(ctx).data_of(upper_id as int) == spec_apply_opt(
                old(ctx).data_of(upper_id as int),
                spec_remove_change(old(ctx).spec_info(follower_id as int)),
            )
            &&& final(ctx).spec_optimizations() == old(ctx).spec_optimizations()
            &&& forall|i: int|
                0 <= i < old(ctx).spec_len() ==> #[trigger] final(ctx).number_of(i) == old(
                    ctx,
                ).number_of(i) && final(ctx).aggregating(i) == old(ctx).aggregating(i)
                    && final(ctx).followers_of(i) == old(ctx).followers_of(i)
            &&& forall|i: int|
                0 <= i < old(ctx).spec_len() && i != follower_id ==> #[trigger] final(ctx).uppers_of(i)
                    == old(ctx).uppers_of(i)
            &&& forall|i: int|
                0 <= i < old(ctx).spec_len() && i != upper_id ==> #[trigger] final(ctx).data_of(i)
                    == old(ctx).data_of(i)
        },
{
    proof {
        assert(ctx.spec_node(follower_id as int).wf());
        if ctx.wf() {
            assert(ctx.has_upper(follower_id, upper_id) <==> ctx.has_follower(upper_id, follower_id));
        }
    }
    if ctx.node(follower_id).uppers().contains(upper_id) {
        proof {
            assert(!ctx.wf());
            assert(ctx.uppers_of(follower_id as int)[upper_id] == 1);
        }
        ctx.remove_stray_upper(upper_id, follower_id);
        RemoveIfEntryResult::Removed
    } else {
        RemoveIfEntryResult::NotPresent
    }
}

/// Tells `upper_id` that it no longer reaches `follower_id` through one of
/// its edges. One reference is taken away: while others remain the result is
/// `PartiallyRemoved` and nothing else changes. When the last one goes it is
/// `Removed`: the upper is dropped from the follower's uppers, the follower's
/// info leaves the upper's data, and the upper's own uppers lose the follower
/// in turn (see [`withdraw_lost_follower`]). Where the upper does not follow
/// the follower at all (both sides are updated together, so the follower
/// does not list the upper either) the result is `NotPresent` and nothing
/// changes: a removal repeated after the last one is refused and never
/// counts twice.
pub fn notify_lost_follower(ctx: &mut AggregationGraph, upper_id: usize, follower_id: usize) -> (r:
    RemoveIfEntryResult)
    requires
        old(ctx).wf(),
        upper_id < old(ctx).spec_len(),
        follower_id < old(ctx).spec_len(),
    ensures
        final(ctx).wf(),
        final(ctx).shrinks_from(old(ctx)),
        r == spec_remove(old(ctx).followers_of(upper_id as int), follower_id).1,
        r == RemoveIfEntryResult::NotPresent ==> final(ctx).unchanged_from(old(ctx)),
        r == RemoveIfEntryResult::PartiallyRemoved ==> {
            &&& final(ctx).followers_of(upper_id as int) == spec_remove(
                old(ctx).followers_of(upper_id as int),
                follower_id,
            ).0
            &&& forall|i: int|
                0 <= i < old(ctx).spec_len() ==> #[trigger] final(ctx).uppers_of(i) == old(ctx).uppers_of(i)
                    && final(ctx).data_of(i) == old(ctx).data_of(i)
            &&& forall|i: int|
                0 <= i < old(ctx).spec_len() && i != upper_id ==> #[trigger] final(ctx).followers_of(i)
                    == old(ctx).followers_of(i)
        },
        r == RemoveIfEntryResult::Removed ==> !final(ctx).has_follower(upper_id, follower_id)
            && !final(ctx).has_upper(follower_id, upper_id) && final(ctx).data_of(upper_id as int)
            == spec_apply_opt(
            old(ctx).data_of(upper_id as int),
            spec_remove_change(old(ctx).spec_info(follower_id as int)),
        ) && (upper_id != follower_id ==> final(ctx).uppers_of(upper_id as int) == old(
            ctx,
        ).uppers_of(upper_id as int)),
        r == RemoveIfEntryResult::Removed ==> forall|w: usize|
            #[trigger] old(ctx).has_upper(upper_id, w) && old(ctx).has_follower(w, follower_id)
                && old(ctx).followers_of(w as int)[follower_id] == 1 ==> !final(ctx).has_follower(
                w,
                follower_id,
            ),
{
    let ghost start = *ctx;
    let r = ctx.remove_follower_edge(upper_id, follower_id);
    if r == RemoveIfEntryResult::NotPresent {
        // the upper does not follow the follower; settle the follower's side
        let ghost before = *ctx;
        let settled = reconcile_lost_follower(ctx, upper_id, follower_id);
        proof {
            assert(before.has_upper(follower_id, upper_id) <==> before.has_follower(upper_id, follower_id));
            assert(settled == RemoveIfEntryResult::NotPresent);
        }
        return r;
    }
    proof {
        if r == RemoveIfEntryResult::PartiallyRemoved {
            assert forall|i: int| 0 <= i < start.spec_len() implies #[trigger] ctx.uppers_of(i)
                == start.uppers_of(i) && ctx.data_of(i) == start.data_of(i) by {
                if i != follower_id {
                    assert(ctx.uppers_of(i) == start.uppers_of(i));
                }
                if i != upper_id {
                    assert(ctx.followers_of(i) == start.followers_of(i));
                }
            }
        }
    }
    if r == RemoveIfEntryResult::Removed {
        let ghost mid = *ctx;
        proof {
            let fo = start.followers_of(upper_id as int);
            assert(!ctx.has_follower(upper_id, follower_id));
        }
        let depth = ctx.len();
        withdraw_lost_follower(ctx, upper_id, follower_id, depth);
        proof {
            AggregationGraph::lemma_shrinks_trans(&start, &mid, ctx);
            assert forall|w: usize|
                #[trigger] start.has_upper(upper_id, w) && start.has_follower(w, follower_id)
                    && start.followers_of(w as int)[follower_id] == 1 implies !ctx.has_follower(
                    w,
                    follower_id,
                ) by {
                if w != upper_id {
                    assert(start.uppers_of(upper_id as int).contains_key(w));
                    assert(w < start.spec_len());
                    assert(mid.has_upper(upper_id, w));
                    assert(mid.followers_of(w as int) == start.followers_of(w as int));
                    assert(mid.has_follower(w, follower_id));
                }
            }
            assert(!ctx.has_follower(upper_id, follower_id));
            assert(!mid.has_follower(upper_id, follower_id));
            assert(ctx.data_of(upper_id as int) == mid.data_of(upper_id as int));
            if upper_id != follower_id {
                assert(ctx.uppers_of(upper_id as int) == mid.uppers_of(upper_id as int));
            }
            assert(ctx.has_upper(follower_id, upper_id) <==> ctx.has_follower(upper_id, follower_id));
        }
    }
    r
}

/// `path` follows child edges of `ctx`: each node is one of the children
/// of the node before it.
pub open spec fn is_child_path(ctx: &AggregationGraph, path: Seq<usize>) -> bool {
    &&& path.len() >= 1
    &&& forall|i: int| 0 <= i < path.len() ==> #[trigger] path[i] < ctx.spec_len()
    &&& forall|i: int|
        0 <= i < path.len() - 1 ==> ctx.spec_children(path[i] as int).contains(#[trigger] path[i + 1])
}

/// Some child path leads from `start_id` to `end_id`.
pub open spec fn has_child_path(ctx: &AggregationGraph, start_id: usize, end_id: usize) -> bool {
    exists|path: Seq<usize>|
        #[trigger] is_child_path(ctx, path) && path[0] == start_id && path.last() == end_id
}

/// How many entries of `s` are set.
pub open spec fn count_set(s: Seq<bool>) -> nat
    decreases s.len(),
{
    if s.len() == 0 {
        0
    } else {
        count_set(s.drop_last()) + if s.last() {
            1nat
        } else {
            0nat
        }
    }
}

proof fn lemma_count_set_bound(s: Seq<bool>)
    ensures
        count_set(s) <= s.len(),
    decreases s.len(),
{
    if s.len() > 0 {
        lemma_count_set_bound(s.drop_last());
    }
}

proof fn lemma_count_set_none(s: Seq<bool>)
    requires
        forall|i: int| 0 <= i < s.len() ==> !s[i],
    ensures
        count_set(s) == 0,
    decreases s.len(),
{
    if s.len() > 0 {
        lemma_count_set_none(s.drop_last());
    }
}

proof fn lemma_count_set_update(s: Seq<bool>, i: int)
    requires
        0 <= i < s.len(),
        !s[i],
    ensures
        count_set(s.update(i, true)) == count_set(s) + 1,
    decreases s.len(),
{
    let t = s.update(i, true);
    if i == s.len() - 1 {
        assert(t.drop_last() =~= s.drop_last());
    } else {
        lemma_count_set_update(s.drop_last(), i);
        assert(t.drop_last() =~= s.drop_last().update(i, true));
    }
}

/// Every node along a child path from a node of a set closed under children
/// is in that set.
proof fn lemma_closed_reaches(ctx: &AggregationGraph, reached: Seq<bool>, path: Seq<usize>, k: int)
    requires
        reached.len() == ctx.spec_len(),
        is_child_path(ctx, path),
        reached[path[0] as int],
        forall|x: int, j: int|
            0 <= x < ctx.spec_len() && reached[x] && 0 <= j < ctx.spec_children(x).len()
                ==> #[trigger] reached[ctx.spec_children(x)[j] as int],
        0 <= k < path.len(),
    ensures
        reached[path[k] as int],
    decreases k,
{
    if k > 0 {
        lemma_closed_reaches(ctx, reached, path, k - 1);
        let i = k - 1;
        let x = path[i] as int;
        assert(ctx.spec_children(path[i] as int).contains(path[i + 1]));
        assert(path[i + 1] == path[k]);
        let j = choose|j: int| 0 <= j < ctx.spec_children(x).len() && ctx.spec_children(x)[j] == path[k];
        assert(reached[ctx.spec_children(x)[j] as int]);
    }
}

/// A path of child edges from `start_id` to `end_id`, found by a depth-first
/// search that visits each node once; `None` where there is no such path.
/// Meant for diagnosing a graph whose uppers and followers disagree.
pub fn find_path(ctx: &AggregationGraph, start_id: usize, end_id: usize) -> (r: Option<Vec<usize>>)
    requires
        ctx.wf(),
        start_id < ctx.spec_len(),
        end_id < ctx.spec_len(),
    ensures
        match r {
            Some(path) => is_child_path(ctx, path@) && path@[0] == start_id && path@.last() == end_id,
            None => !has_child_path(ctx, start_id, end_id),
        },
{
    let n = ctx.len();
    let mut reached: Vec<bool> = Vec::new();
    let mut expanded: Vec<bool> = Vec::new();
    let mut k: usize = 0;
    while k < n
        invariant
            k <= n,
            reached@.len() == k,
            expanded@.len() == k,
            forall|i: int| 0 <= i < k ==> !reached@[i] && !expanded@[i],
        decreases n - k,
    {
        reached.push(false);
        expanded.push(false);
        k = k + 1;
    }
    proof {
        lemma_count_set_none(reached@);
    }
    let mut start_path: Vec<usize> = Vec::new();
    start_path.push(start_id);
    let mut stack: Vec<(usize, Vec<usize>)> = Vec::new();
    stack.push((start_id, start_path));
    proof {
        lemma_count_set_update(reached@, start_id as int);
    }
    reached.set(start_id, true);
    proof {
        assert forall|x: int|
            0 <= x < n && #[trigger] reached@[x] && !expanded@[x] implies exists|e: int|
                0 <= e < stack@.len() && #[trigger] stack@[e].0 == x by {
            assert(stack@[0].0 == start_id);
        }
        lemma_count_set_bound(reached@);
    }
    while stack.len() > 0
        invariant
            end_id < n,
            start_id < n,
            !expanded@[end_id as int],
            n == ctx.spec_len(),
            ctx.wf(),
            reached@.len() == n,
            expanded@.len() == n,
            reached@[start_id as int],
            forall|x: int| 0 <= x < n && #[trigger] expanded@[x] ==> reached@[x],
            forall|x: int, j: int|
                0 <= x < n && expanded@[x] && 0 <= j < ctx.spec_children(x).len()
                    ==> #[trigger] reached@[ctx.spec_children(x)[j] as int],
            forall|x: int|
                0 <= x < n && #[trigger] reached@[x] && !expanded@[x] ==> exists|e: int|
                    0 <= e < stack@.len() && #[trigger] stack@[e].0 == x,
            forall|e: int|
                0 <= e < stack@.len() ==> {
                    &&& #[trigger] stack@[e].0 < n
                    &&& reached@[stack@[e].0 as int]
                    &&& is_child_path(ctx, stack@[e].1@)
                    &&& stack@[e].1@[0] == start_id
                    &&& stack@[e].1@.last() == stack@[e].0
                },
            count_set(reached@) <= n,
        decreases 2 * (n - count_set(reached@)) + stack@.len(),
    {
        let ghost old_stack = stack@;
        let ghost old_reached = reached@;
        let (node_id, path) = stack.pop().unwrap();
        proof {
            assert(old_stack[old_stack.len() - 1] == (node_id, path));
        }
        if node_id == end_id {
            return Some(path);
        }
        proof {
            assert forall|x: int|
                0 <= x < n && #[trigger] reached@[x] && !expanded@[x] && x != node_id
                    implies exists|e: int| 0 <= e < stack@.len() && #[trigger] stack@[e].0 == x by {
                let e = choose|e: int| 0 <= e < old_stack.len() && #[trigger] old_stack[e].0 == x;
                assert(e != old_stack.len() - 1);
                assert(stack@[e] == old_stack[e]);
            }
            assert forall|e: int| 0 <= e < stack@.len() implies #[trigger] stack@[e].0 < n by {
                assert(stack@[e] == old_stack[e]);
                assert(old_stack[e].0 < n);
            }
        }
        let children = ctx.children(node_id);
        let mut j: usize = 0;
        while j < children.len()
            invariant
                n == ctx.spec_len(),
                ctx.wf(),
                node_id < n,
                children@ == ctx.spec_children(node_id as int),
                node_id != end_id,
                end_id < n,
                start_id < n,
                !expanded@[end_id as int],
                is_child_path(ctx, path@),
                path@[0] == start_id,
                path@.last() == node_id,
                j <= children@.len(),
                reached@.len() == n,
                expanded@.len() == n,
                reached@[start_id as int],
                reached@[node_id as int],
                forall|x: int| 0 <= x < n && #[trigger] expanded@[x] ==> reached@[x],
                forall|x: int, jj: int|
                    0 <= x < n && expanded@[x] && 0 <= jj < ctx.spec_children(x).len()
                        ==> #[trigger] reached@[ctx.spec_children(x)[jj] as int],
                forall|q: int| 0 <= q < j ==> #[trigger] reached@[children@[q] as int],
                forall|x: int|
                    0 <= x < n && #[trigger] reached@[x] && !expanded@[x] && x != node_id
                        ==> exists|e: int| 0 <= e < stack@.len() && #[trigger] stack@[e].0 == x,
                forall|e: int|
                    0 <= e < stack@.len() ==> {
                        &&& #[trigger] stack@[e].0 < n
                        &&& reached@[stack@[e].0 as int]
                        &&& is_child_path(ctx, stack@[e].1@)
                        &&& stack@[e].1@[0] == start_id
                        &&& stack@[e].1@.last() == stack@[e].0
                    },
                count_set(reached@) <= n,
                2 * (n - count_set(reached@)) + stack@.len() + 1 <= 2 * (n - count_set(old_reached))
                    + old_stack.len(),
            decreases children@.len() - j,
        {
            let child = children[j];
            proof {
                assert(ctx.spec_children(node_id as int)[j as int] < n);
            }
            if !reached[child] {
                let mut new_path = path.clone();
                new_path.push(child);
                proof {
                    assert(new_path@ =~= path@.push(child));
                    assert(ctx.spec_children(node_id as int).contains(child)) by {
                        assert(ctx.spec_children(node_id as int)[j as int] == child);
                    }
                    assert(is_child_path(ctx, new_path@)) by {
                        assert forall|i: int| 0 <= i < new_path@.len() - 1 implies ctx.spec_children(
                            new_path@[i] as int,
                        ).contains(#[trigger] new_path@[i + 1]) by {
                            if i < path@.len() - 1 {
                                assert(new_path@[i] == path@[i] && new_path@[i + 1] == path@[i + 1]);
                            }
                        }
                    }
                    lemma_count_set_update(reached@, child as int);
                    lemma_count_set_bound(reached@.update(child as int, true));
                }
                let ghost before_stack = stack@;
                stack.push((child, new_path));
                reached.set(child, true);
                proof {
                    assert forall|x: int|
                        0 <= x < n && #[trigger] reached@[x] && !expanded@[x] && x != node_id
                            implies exists|e: int| 0 <= e < stack@.len() && #[trigger] stack@[e].0 == x by {
                        if x == child {
                            assert(stack@[stack@.len() - 1].0 == x);
                        } else {
                            let e = choose|e: int| 0 <= e < before_stack.len() && #[trigger] before_stack[e].0 == x;
                            assert(stack@[e].0 == x);
                        }
                    }
                }
            }
            j = j + 1;
        }
        proof {
            lemma_count_set_bound(reached@);
        }
        expanded.set(node_id, true);
        proof {
            assert forall|x: int, jj: int|
                0 <= x < n && expanded@[x] && 0 <= jj < ctx.spec_children(x).len()
                    implies #[trigger] reached@[ctx.spec_children(x)[jj] as int] by {
                if x == node_id {
                    assert(reached@[children@[jj] as int]);
                }
            }
        }
    }
    proof {
        assert forall|x: int| 0 <= x < n && reached@[x] implies #[trigger] expanded@[x] by {
            if !expanded@[x] {
                let e = choose|e: int| 0 <= e < stack@.len() && #[trigger] stack@[e].0 == x;
            }
        }
        if reached@[end_id as int] {
            assert(expanded@[end_id as int]);
        }
        assert forall|path: Seq<usize>|
            #[trigger] is_child_path(ctx, path) && path[0] == start_id implies path.last() != end_id
                || reached@[end_id as int] by {
            if path.last() == end_id {
                assert forall|x: int, jj: int|
                    0 <= x < ctx.spec_len() && reached@[x] && 0 <= jj < ctx.spec_children(x).len()
                        implies #[trigger] reached@[ctx.spec_children(x)[jj] as int] by {
                    assert(expanded@[x]);
                }
                lemma_closed_reaches(ctx, reached@, path, path.len() - 1);
            }
        }
    }
    None
}

} // verus!
