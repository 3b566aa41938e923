use vstd::prelude::*;

use crate::count_hash_set::spec_remove;
use crate::count_hash_set::RemoveIfEntryResult;
use crate::graph::AggregationGraph;

verus! {

/// At rest the two views of the follower relation agree: `u` is recorded
/// among the uppers of `f` exactly when `f` is recorded among the followers
/// of `u`. Every operation that changes the graph keeps it well formed, so
/// this holds after any sequence of edge insertions and removals.
pub proof fn lemma_uppers_match_followers(g: &AggregationGraph, u: usize, f: usize)
    requires
        g.wf(),
        u < g.spec_len(),
        f < g.spec_len(),
    ensures
        g.has_upper(f, u) <==> g.has_follower(u, f),
{
}

/// Once an upper no longer follows a follower (as after a removal that
/// reported `Removed`), every further removal of the pair reports
/// `NotPresent` and leaves the counts as they are: of several removals of
/// the same pair, exactly one takes the last reference away.
pub proof fn lemma_lost_pair_stays_lost(g: &AggregationGraph, upper_id: usize, follower_id: usize)
    requires
        !g.has_follower(upper_id, follower_id),
    ensures
        spec_remove(g.followers_of(upper_id as int), follower_id) == (
            g.followers_of(upper_id as int),
            RemoveIfEntryResult::NotPresent,
        ),
{
}

/// Over any sequence of operations, aggregation numbers never go down and an
/// aggregating node never turns back into a leaf.
pub proof fn lemma_monotone_over_steps(a: &AggregationGraph, b: &AggregationGraph, c: &AggregationGraph)
    requires
        b.grows_from(a),
        c.grows_from(b),
    ensures
        c.grows_from(a),
{
    assert forall|i: int| 0 <= i < a.spec_len() implies #[trigger] c.number_of(i) >= a.number_of(i) && (
        a.aggregating(i) ==> c.aggregating(i)) && c.spec_info(i) == a.spec_info(i) by {
        assert(b.number_of(i) >= a.number_of(i));
        assert(c.number_of(i) >= b.number_of(i));
    }
}

/// Taking references away never lowers an aggregation number nor turns an
/// aggregating node back into a leaf: a removal step is a monotone step too.
pub proof fn lemma_removal_is_monotone(a: &AggregationGraph, b: &AggregationGraph)
    requires
        b.shrinks_from(a),
    ensures
        b.grows_from(a),
{
    assert forall|i: int| 0 <= i < a.spec_len() implies #[trigger] b.number_of(i) >= a.number_of(i) && (
        a.aggregating(i) ==> b.aggregating(i)) && b.spec_info(i) == a.spec_info(i) by {
        assert(b.number_of(i) == a.number_of(i));
    }
}

} // verus!
