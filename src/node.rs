use vstd::prelude::*;

use crate::count_hash_set::CountHashSet;
use crate::count_hash_set::RemoveIfEntryResult;
use crate::info::apply_change;
use crate::info::info_to_add_change;
use crate::info::info_to_remove_change;
use crate::info::spec_add_change;
use crate::info::spec_apply_opt;
use crate::info::spec_remove_change;
use crate::info::Info;

verus! {

/// Aggregation number from which a node aggregates its followers itself.
pub const LEAF_NUMBER: u32 = 16;

/// Upper bound of `(uppers + 1) * children` for a node that stays a leaf.
pub const MAX_UPPERS_TIMES_CHILDREN: usize = 32;

/// The state of a node that aggregates followers.
pub struct AggegatingNode {
    pub aggregation_number: u32,
    /// Nodes whose info this node aggregates, with how often each was added.
    pub followers: CountHashSet,
    /// Aggregating nodes that have this node as a follower.
    pub uppers: CountHashSet,
    /// The aggregated info of the followers.
    pub data: Info,
}

/// A node of the aggregation tree.
pub enum AggregationNode {
    /// A node without followers of its own: its uppers follow its children.
    Leaf { aggregation_number: u32, uppers: CountHashSet },
    /// A node that aggregates followers itself.
    Aggegating(Box<AggegatingNode>),
}

/// `n` is a power of two.
pub open spec fn is_power_of_two(n: nat) -> bool
    decreases n,
{
    if n == 0 {
        false
    } else if n == 1 {
        true
    } else {
        n % 2 == 0 && is_power_of_two(n / 2)
    }
}

/// A leaf with `uppers_len` uppers that gains its `number_of_children`-th
/// child turns into an aggregating node.
pub open spec fn spec_should_upgrade(number_of_children: nat, uppers_len: nat) -> bool {
    is_power_of_two(number_of_children) && (uppers_len + 1) * number_of_children
        >= MAX_UPPERS_TIMES_CHILDREN
}

/// Whether `n` is a power of two.
pub fn power_of_two(n: usize) -> (r: bool)
    ensures
        r == is_power_of_two(n as nat),
{
    if n == 0 {
        return false;
    }
    let mut m: usize = n;
    while m > 1 && m % 2 == 0
        invariant
            m > 0,
            is_power_of_two(n as nat) == is_power_of_two(m as nat),
        decreases m,
    {
        m = m / 2;
    }
    proof {
        if m > 1 {
            assert(!is_power_of_two(m as nat));
        }
    }
    m == 1
}

/// Whether a leaf with `uppers_len` uppers is promoted to an aggregating
/// node when it gains its `number_of_children`-th child: the child count is a
/// power of two and `(uppers_len + 1) * number_of_children` reaches
/// [`MAX_UPPERS_TIMES_CHILDREN`].
pub fn should_upgrade(number_of_children: usize, uppers_len: usize) -> (r: bool)
    ensures
        r == spec_should_upgrade(number_of_children as nat, uppers_len as nat),
{
    if !power_of_two(number_of_children) {
        return false;
    }
    if uppers_len >= MAX_UPPERS_TIMES_CHILDREN {
        proof {
            assert((uppers_len as nat + 1) * (number_of_children as nat) >= (uppers_len as nat + 1))
                by (nonlinear_arith)
                requires
                    number_of_children >= 1,
            ;
        }
        return true;
    }
    if number_of_children >= MAX_UPPERS_TIMES_CHILDREN {
        proof {
            assert((uppers_len as nat + 1) * (number_of_children as nat) >= (
            number_of_children as nat)) by (nonlinear_arith);
        }
        return true;
    }
    proof {
        assert((uppers_len + 1) * number_of_children <= 32 * 32) by (nonlinear_arith)
            requires
                uppers_len < 32,
                number_of_children < 32,
        ;
    }
    (uppers_len + 1) * number_of_children >= MAX_UPPERS_TIMES_CHILDREN
}

impl AggregationNode {
    pub open spec fn spec_aggregation_number(&self) -> u32 {
        match self {
            AggregationNode::Leaf { aggregation_number, .. } => *aggregation_number,
            AggregationNode::Aggegating(a) => a.aggregation_number,
        }
    }

    pub open spec fn spec_uppers(&self) -> CountHashSet {
        match self {
            AggregationNode::Leaf { uppers, .. } => *uppers,
            AggregationNode::Aggegating(a) => a.uppers,
        }
    }

    /// The followers with their counts; a leaf has none.
    pub open spec fn spec_followers(&self) -> Map<usize, nat> {
        match self {
            AggregationNode::Leaf { .. } => Map::empty(),
            AggregationNode::Aggegating(a) => a.followers@,
        }
    }

    pub open spec fn is_aggregating(&self) -> bool {
        self is Aggegating
    }

    /// Both counted sets of the node are well formed.
    pub open spec fn wf(&self) -> bool {
        match self {
            AggregationNode::Leaf { uppers, .. } => uppers.wf(),
            AggregationNode::Aggegating(a) => a.uppers.wf() && a.followers.wf(),
        }
    }

    /// The aggregated info of an aggregating node; a leaf holds none.
    pub open spec fn spec_data(&self) -> Info {
        match self {
            AggregationNode::Leaf { .. } => Info { value: 0 },
            AggregationNode::Aggegating(a) => a.data,
        }
    }

    /// Adds one reference to `follower_id`; when it is new, the follower's info
    /// enters the aggregated data. Returns whether it was new.
    pub fn add_follower(&mut self, follower_id: usize, follower_info: &Info) -> (r: bool)
        requires
            old(self).wf(),
            old(self).is_aggregating(),
            old(self).spec_followers().contains_key(follower_id) ==> old(self).spec_followers()[follower_id] < usize::MAX,
        ensures
            final(self).wf(),
            final(self).is_aggregating(),
            r == !old(self).spec_followers().contains_key(follower_id),
            final(self).spec_followers() == old(self).spec_followers().insert(
                follower_id,
                if r { 1 } else { old(self).spec_followers()[follower_id] + 1 },
            ),
            final(self).spec_data() == if r {
                spec_apply_opt(old(self).spec_data(), spec_add_change(*follower_info))
            } else {
                old(self).spec_data()
            },
            final(self).spec_uppers() == old(self).spec_uppers(),
            final(self).spec_aggregation_number() == old(self).spec_aggregation_number(),
    {
        match self {
            AggregationNode::Aggegating(a) => {
                let added = a.followers.add(follower_id);
                if added {
                    match info_to_add_change(follower_info) {
                        Some(change) => {
                            apply_change(&mut a.data, &change);
                        },
                        None => {},
                    }
                }
                added
            },
            AggregationNode::Leaf { .. } => false,
        }
    }

    /// Takes one reference away from `follower_id`; when the last one goes,
    /// the follower's info leaves the aggregated data.
    pub fn remove_follower(&mut self, follower_id: usize, follower_info: &Info) -> (r:
        RemoveIfEntryResult)
        requires
            old(self).wf(),
            old(self).is_aggregating(),
        ensures
            final(self).wf(),
            final(self).is_aggregating(),
            r == RemoveIfEntryResult::NotPresent ==> *final(self) == *old(self),
            !old(self).spec_followers().contains_key(follower_id) ==> r
                == RemoveIfEntryResult::NotPresent && final(self).spec_followers()
                == old(self).spec_followers(),
            old(self).spec_followers().contains_key(follower_id) && old(self).spec_followers()[follower_id] == 1
                ==> r == RemoveIfEntryResult::Removed && final(self).spec_followers()
                == old(self).spec_followers().remove(follower_id),
            old(self).spec_followers().contains_key(follower_id) && old(self).spec_followers()[follower_id] > 1
                ==> r == RemoveIfEntryResult::PartiallyRemoved && final(self).spec_followers()
                == old(self).spec_followers().insert(
                follower_id,
                (old(self).spec_followers()[follower_id] - 1) as nat,
            ),
            final(self).spec_data() == if r == RemoveIfEntryResult::Removed {
                spec_apply_opt(old(self).spec_data(), spec_remove_change(*follower_info))
            } else {
                old(self).spec_data()
            },
            final(self).spec_uppers() == old(self).spec_uppers(),
            final(self).spec_aggregation_number() == old(self).spec_aggregation_number(),
    {
        match self {
            AggregationNode::Aggegating(a) => {
                let r = a.followers.remove_if_entry(follower_id);
                if r == RemoveIfEntryResult::Removed {
                    match info_to_remove_change(follower_info) {
                        Some(change) => {
                            apply_change(&mut a.data, &change);
                        },
                        None => {},
                    }
                }
                r
            },
            AggregationNode::Leaf { .. } => RemoveIfEntryResult::NotPresent,
        }
    }

    /// Takes the info of a node out of the aggregated data.
    pub fn take_out_info(&mut self, info: &Info)
        requires
            old(self).is_aggregating(),
        ensures
            final(self).is_aggregating(),
            final(self).spec_data() == spec_apply_opt(old(self).spec_data(), spec_remove_change(*info)),
            final(self).wf() == old(self).wf(),
            final(self).spec_uppers() == old(self).spec_uppers(),
            final(self).spec_followers() == old(self).spec_followers(),
            final(self).spec_aggregation_number() == old(self).spec_aggregation_number(),
    {
        match self {
            AggregationNode::Aggegating(a) => {
                match info_to_remove_change(info) {
                    Some(change) => {
                        apply_change(&mut a.data, &change);
                    },
                    None => {},
                }
            },
            AggregationNode::Leaf { .. } => {},
        }
    }

    /// Adds one reference to `upper_id` in the uppers of the node.
    pub fn add_upper(&mut self, upper_id: usize) -> (r: bool)
        requires
            old(self).wf(),
            old(self).spec_uppers().spec_count(upper_id) < usize::MAX,
        ensures
            final(self).wf(),
            r == !old(self).spec_uppers()@.contains_key(upper_id),
            final(self).spec_uppers()@ == old(self).spec_uppers()@.insert(
                upper_id,
                old(self).spec_uppers().spec_count(upper_id) + 1,
            ),
            final(self).spec_followers() == old(self).spec_followers(),
            final(self).spec_data() == old(self).spec_data(),
            final(self).is_aggregating() == old(self).is_aggregating(),
            final(self).spec_aggregation_number() == old(self).spec_aggregation_number(),
    {
        match self {
            AggregationNode::Leaf { uppers, .. } => uppers.add(upper_id),
            AggregationNode::Aggegating(a) => a.uppers.add(upper_id),
        }
    }

    /// Takes one reference away from `upper_id` in the uppers of the node.
    pub fn remove_upper(&mut self, upper_id: usize) -> (r: RemoveIfEntryResult)
        requires
            old(self).wf(),
        ensures
            final(self).wf(),
            !old(self).spec_uppers()@.contains_key(upper_id) ==> r
                == RemoveIfEntryResult::NotPresent && final(self).spec_uppers()@
                == old(self).spec_uppers()@,
            old(self).spec_uppers()@.contains_key(upper_id) && old(self).spec_uppers()@[upper_id] == 1
                ==> r == RemoveIfEntryResult::Removed && final(self).spec_uppers()@
                == old(self).spec_uppers()@.remove(upper_id),
            old(self).spec_uppers()@.contains_key(upper_id) && old(self).spec_uppers()@[upper_id] > 1
                ==> r == RemoveIfEntryResult::PartiallyRemoved && final(self).spec_uppers()@
                == old(self).spec_uppers()@.insert(
                upper_id,
                (old(self).spec_uppers()@[upper_id] - 1) as nat,
            ),
            final(self).spec_followers() == old(self).spec_followers(),
            final(self).spec_data() == old(self).spec_data(),
            final(self).is_aggregating() == old(self).is_aggregating(),
            final(self).spec_aggregation_number() == old(self).spec_aggregation_number(),
    {
        match self {
            AggregationNode::Leaf { uppers, .. } => uppers.remove_if_entry(upper_id),
            AggregationNode::Aggegating(a) => a.uppers.remove_if_entry(upper_id),
        }
    }

    /// Raises the aggregation number to `number` where it is lower.
    pub fn raise_aggregation_number(&mut self, number: u32)
        ensures
            final(self).spec_aggregation_number() == if old(self).spec_aggregation_number() < number {
                number
            } else {
                old(self).spec_aggregation_number()
            },
            final(self).wf() == old(self).wf(),
            final(self).spec_uppers() == old(self).spec_uppers(),
            final(self).spec_followers() == old(self).spec_followers(),
            final(self).spec_data() == old(self).spec_data(),
            final(self).is_aggregating() == old(self).is_aggregating(),
    {
        match self {
            AggregationNode::Leaf { aggregation_number, .. } => {
                if *aggregation_number < number {
                    *aggregation_number = number;
                }
            },
            AggregationNode::Aggegating(a) => {
                if a.aggregation_number < number {
                    a.aggregation_number = number;
                }
            },
        }
    }

    /// Turns a leaf into an aggregating node with no followers yet and an
    /// aggregation number of at least [`LEAF_NUMBER`]; an aggregating node
    /// stays as it is.
    pub fn upgrade(&mut self)
        requires
            old(self).wf(),
        ensures
            final(self).wf(),
            final(self).is_aggregating(),
            final(self).spec_aggregation_number() == if old(self).is_aggregating() {
                old(self).spec_aggregation_number()
            } else if old(self).spec_aggregation_number() < LEAF_NUMBER {
                LEAF_NUMBER
            } else {
                old(self).spec_aggregation_number()
            },
            final(self).spec_uppers() == old(self).spec_uppers(),
            final(self).spec_followers() == old(self).spec_followers(),
            final(self).spec_data() == old(self).spec_data(),
    {
        let mut taken = AggregationNode::new_leaf();
        std::mem::swap(self, &mut taken);
        match taken {
            AggregationNode::Leaf { aggregation_number, uppers } => {
                let number = if aggregation_number < LEAF_NUMBER {
                    LEAF_NUMBER
                } else {
                    aggregation_number
                };
                let followers = CountHashSet::new();
                *self =
                AggregationNode::Aggegating(
                    Box::new(
                        AggegatingNode {
                            aggregation_number: number,
                            followers,
                            uppers,
                            data: Info::empty(),
                        },
                    ),
                );
            },
            AggregationNode::Aggegating(a) => {
                *self = AggregationNode::Aggegating(a);
            },
        }
    }

    /// A fresh leaf with aggregation number zero and no uppers.
    pub fn new_leaf() -> (r: Self)
        ensures
            r.wf(),
            r is Leaf,
            r.spec_aggregation_number() == 0,
            r.spec_uppers()@ == Map::<usize, nat>::empty(),
    {
        AggregationNode::Leaf { aggregation_number: 0, uppers: CountHashSet::new() }
    }

    pub fn aggregation_number(&self) -> (r: u32)
        ensures
            r == self.spec_aggregation_number(),
    {
        match self {
            AggregationNode::Leaf { aggregation_number, .. } => *aggregation_number,
            AggregationNode::Aggegating(a) => a.aggregation_number,
        }
    }

    pub fn is_leaf(&self) -> (r: bool)
        ensures
            r == !self.is_aggregating(),
    {
        match self {
            AggregationNode::Leaf { .. } => true,
            AggregationNode::Aggegating(_) => false,
        }
    }

    pub fn uppers(&self) -> (r: &CountHashSet)
        ensures
            *r == self.spec_uppers(),
    {
        match self {
            AggregationNode::Leaf { uppers, .. } => uppers,
            AggregationNode::Aggegating(a) => &a.uppers,
        }
    }

    /// The followers of an aggregating node; `None` for a leaf.
    pub fn followers(&self) -> (r: Option<&CountHashSet>)
        ensures
            match self {
                AggregationNode::Leaf { .. } => r is None,
                AggregationNode::Aggegating(a) => r == Some(&a.followers),
            },
    {
        match self {
            AggregationNode::Leaf { .. } => None,
            AggregationNode::Aggegating(a) => Some(&a.followers),
        }
    }
}

} // verus!
