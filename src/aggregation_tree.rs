use vstd::prelude::*;

use crate::graph::AggregationGraph;
use crate::graph::GraphNode;
use crate::info::add_wrapping;
use crate::info::weight_of;
use crate::info::Info;
use crate::node::AggregationNode;

verus! {

/// The info visible at a node: its own, together with the aggregated data of
/// its followers where it aggregates.
pub open spec fn spec_aggregated(node: AggregationNode, own: Info) -> Info {
    Info { value: add_wrapping(own.value, node.spec_data().value) }
}

/// The aggregated info of the node `reference`: its own info together with
/// the summed info of the nodes it follows.
pub fn aggregation_info(context: &AggregationGraph, reference: usize) -> (r: Info)
    requires
        reference < context.spec_len(),
    ensures
        r == spec_aggregated(context.spec_node(reference as int), context.spec_info(reference as int)),
        context.wf() && context.aggregating(reference as int) ==> r.value == add_wrapping(
            context.spec_info(reference as int).value,
            weight_of(context.spec_infos(), context.followers_of(reference as int).dom()),
        ),
        context.wf() && !context.aggregating(reference as int) ==> r == context.spec_info(reference as int),
{
    let own = context.info(reference);
    aggregated(context.node(reference), own)
}

/// The aggregated info of a node already at hand.
pub fn aggregation_info_from_item(item: &GraphNode) -> (r: Info)
    ensures
        r == spec_aggregated(item.node, item.info),
{
    aggregated(&item.node, item.info)
}

fn aggregated(node: &AggregationNode, own: Info) -> (r: Info)
    ensures
        r == spec_aggregated(*node, own),
{
    let data = match node {
        AggregationNode::Leaf { .. } => 0u64,
        AggregationNode::Aggegating(a) => a.data.value,
    };
    Info { value: own.value.wrapping_add(data) }
}

} // verus!
