use vstd::prelude::*;

use crate::graph::AggregationGraph;
use crate::graph::GraphNode;
use crate::info::apply_change;
use crate::info::info_to_add_change;
use crate::info::info_to_remove_change;
use crate::info::spec_add_change;
use crate::info::spec_apply;
use crate::info::spec_remove_change;
use crate::info::Info;
use crate::info::ItemChange;
use crate::node::AggregationNode;

verus! {

/// What the aggregation algorithms need from the storage of the nodes: how
/// info deltas merge and how a node's info enters or leaves an aggregate.
pub trait AggregationContext {
    /// Merges `change` into `info`; returns the change to pass further up,
    /// or `None` where nothing changed.
    fn apply_change(&self, info: &mut Info, change: &ItemChange) -> (r: Option<ItemChange>)
        ensures
            *final(info) == spec_apply(*old(info), *change),
            r == (if change.delta == 0 {
                None
            } else {
                Some(*change)
            }),
    ;

    /// The change by which `info` enters an aggregate.
    fn info_to_add_change(&self, info: &Info) -> (r: Option<ItemChange>)
        ensures
            r == spec_add_change(*info),
    ;

    /// The change by which `info` leaves an aggregate.
    fn info_to_remove_change(&self, info: &Info) -> (r: Option<ItemChange>)
        ensures
            r == spec_remove_change(*info),
    ;
}

impl AggregationContext for AggregationGraph {
    fn apply_change(&self, info: &mut Info, change: &ItemChange) -> (r: Option<ItemChange>) {
        apply_change(info, change)
    }

    fn info_to_add_change(&self, info: &Info) -> (r: Option<ItemChange>) {
        info_to_add_change(info)
    }

    fn info_to_remove_change(&self, info: &Info) -> (r: Option<ItemChange>) {
        info_to_remove_change(info)
    }
}

/// A node as the aggregation algorithms see it while it is held.
pub trait AggregationItemLock {
    /// The node's place in the aggregation tree.
    fn leaf(&self) -> (r: &AggregationNode);

    /// The node's children in the underlying graph.
    fn children(&self) -> (r: Vec<usize>);

    /// The change by which the node's info leaves an aggregate.
    fn get_remove_change(&self) -> (r: Option<ItemChange>);

    /// The change by which the node's info enters an aggregate.
    fn get_add_change(&self) -> (r: Option<ItemChange>);
}

impl AggregationItemLock for GraphNode {
    fn leaf(&self) -> (r: &AggregationNode)
        ensures
            *r == self.node,
    {
        &self.node
    }

    fn children(&self) -> (r: Vec<usize>)
        ensures
            r@ == self.children@,
    {
        self.children.clone()
    }

    fn get_remove_change(&self) -> (r: Option<ItemChange>)
        ensures
            r == spec_remove_change(self.info),
    {
        info_to_remove_change(&self.info)
    }

    fn get_add_change(&self) -> (r: Option<ItemChange>)
        ensures
            r == spec_add_change(self.info),
    {
        info_to_add_change(&self.info)
    }
}

} // verus!
