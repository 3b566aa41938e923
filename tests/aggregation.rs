use turbo_aggregation::aggregation_tree::aggregation_info;
use turbo_aggregation::count_hash_set::RemoveIfEntryResult;
use turbo_aggregation::graph::AggregationGraph;
use turbo_aggregation::info::apply_change;
use turbo_aggregation::info::info_to_add_change;
use turbo_aggregation::info::info_to_remove_change;
use turbo_aggregation::info::Info;
use turbo_aggregation::new_edge::add_edge;
use turbo_aggregation::new_edge::handle_new_edge;
use turbo_aggregation::new_edge::PreparedNewEdge;
use turbo_aggregation::node::power_of_two;
use turbo_aggregation::node::should_upgrade;
use turbo_aggregation::node::LEAF_NUMBER;
use turbo_aggregation::notify_lost_follower::find_path;
use turbo_aggregation::notify_lost_follower::notify_lost_follower;
use turbo_aggregation::notify_lost_follower::reconcile_lost_follower;

fn aggregator(graph: &mut AggregationGraph) -> usize {
    let id = graph.add_node(Info::new(0));
    graph.upgrade_node(id);
    id
}

fn follower_count(graph: &AggregationGraph, upper: usize) -> usize {
    graph.node(upper).followers().map_or(0, |f| f.len())
}

#[test]
fn promotion_threshold_boundaries() {
    // power-of-two child counts: promotion exactly from a product of 32
    assert!(!should_upgrade(1, 30));
    assert!(should_upgrade(1, 31));
    assert!(!should_upgrade(2, 14));
    assert!(should_upgrade(2, 15));
    assert!(should_upgrade(32, 0));
    assert!(!should_upgrade(16, 0));
    assert!(should_upgrade(16, 1));
    // other child counts never promote, whatever the product
    assert!(!should_upgrade(31, 0));
    assert!(!should_upgrade(33, 0));
    assert!(!should_upgrade(3, 10));
    assert!(!should_upgrade(0, 100));
    assert!(power_of_two(1024));
    assert!(!power_of_two(1000));
}

#[test]
fn add_then_remove_change_round_trips() {
    for (aggregate, item) in [(0u64, 5u64), (7, 0), (u64::MAX, 3), (12, u64::MAX)] {
        let mut info = Info::new(aggregate);
        let item = Info::new(item);
        if let Some(change) = info_to_add_change(&item) {
            apply_change(&mut info, &change);
        }
        if let Some(change) = info_to_remove_change(&item) {
            apply_change(&mut info, &change);
        }
        assert_eq!(info, Info::new(aggregate));
    }
}

#[test]
fn apply_change_adds_with_wrap_around() {
    let mut info = Info::new(u64::MAX);
    let change = info_to_add_change(&Info::new(2)).unwrap();
    assert_eq!(apply_change(&mut info, &change), Some(change));
    assert_eq!(info.value, 1);
    assert_eq!(info_to_add_change(&Info::new(0)), None);
    assert_eq!(info_to_remove_change(&Info::new(1)).unwrap().delta, u64::MAX);
}

#[test]
fn chain_of_forty_with_one_removal_keeps_thirty_nine() {
    let mut graph = AggregationGraph::new();
    let upper = aggregator(&mut graph);
    let leaves: Vec<usize> = (0..40).map(|i| graph.add_node(Info::new(i as u64 + 1))).collect();
    for (i, leaf) in leaves.iter().enumerate() {
        add_edge(&mut graph, upper, *leaf);
        if i == 20 {
            assert_eq!(
                notify_lost_follower(&mut graph, upper, leaves[5]),
                RemoveIfEntryResult::Removed
            );
        }
    }
    assert_eq!(follower_count(&graph, upper), 39);
    assert!(!graph.node(leaves[5]).uppers().contains(upper));
    for (i, leaf) in leaves.iter().enumerate() {
        assert_eq!(graph.node(*leaf).uppers().contains(upper), i != 5);
    }
    // 1 + 2 + ... + 40 without the 6
    assert_eq!(aggregation_info(&graph, upper).value, 820 - 6);
}

#[test]
fn repeated_loss_after_removal_is_not_present() {
    let mut graph = AggregationGraph::new();
    let upper = aggregator(&mut graph);
    let follower = graph.add_node(Info::new(9));
    add_edge(&mut graph, upper, follower);
    add_edge(&mut graph, upper, follower);
    assert_eq!(
        graph.node(upper).followers().unwrap().get_count(follower),
        2
    );
    assert_eq!(
        notify_lost_follower(&mut graph, upper, follower),
        RemoveIfEntryResult::PartiallyRemoved
    );
    assert_eq!(
        notify_lost_follower(&mut graph, upper, follower),
        RemoveIfEntryResult::Removed
    );
    assert_eq!(aggregation_info(&graph, upper).value, 0);
    // two more attempts for the same pair: neither decrements anything
    assert_eq!(
        notify_lost_follower(&mut graph, upper, follower),
        RemoveIfEntryResult::NotPresent
    );
    assert_eq!(
        notify_lost_follower(&mut graph, upper, follower),
        RemoveIfEntryResult::NotPresent
    );
    assert_eq!(follower_count(&graph, upper), 0);
    assert!(graph.node(follower).uppers().is_empty());
}

#[test]
fn expensive_node_is_optimized() {
    let mut graph = AggregationGraph::new();
    let upper = aggregator(&mut graph);
    for i in 0..4097 {
        let leaf = graph.add_node(Info::new(1));
        add_edge(&mut graph, upper, leaf);
        if i == 4095 {
            // 4096 followers are not yet too many
            assert_eq!(graph.optimizations(), 0);
        }
    }
    assert_eq!(follower_count(&graph, upper), 4097);
    assert_eq!(graph.optimizations(), 1);
    let leaf = graph.add_node(Info::new(1));
    add_edge(&mut graph, upper, leaf);
    assert_eq!(graph.optimizations(), 2);
    assert!(graph.node(upper).aggregation_number() >= 1);
}

#[test]
fn leaf_origin_raises_target_and_informs_uppers() {
    let mut graph = AggregationGraph::new();
    let upper = aggregator(&mut graph);
    let origin = graph.add_node(Info::new(1));
    let target = graph.add_node(Info::new(2));
    add_edge(&mut graph, upper, origin);
    add_edge(&mut graph, origin, target);
    // the leaf's upper follows the new child, and the child rose above the leaf
    assert!(graph.node(upper).followers().unwrap().contains(target));
    assert!(graph.node(target).uppers().contains(upper));
    assert!(graph.node(target).aggregation_number() >= graph.node(origin).aggregation_number() + 1);
    assert_eq!(graph.node(target).aggregation_number(), 3);
    assert!(graph.node(origin).is_leaf());
}

#[test]
fn prepared_leaf_edge_carries_numbers() {
    let mut graph = AggregationGraph::new();
    let origin = graph.add_node(Info::new(1));
    let target = graph.add_node(Info::new(1));
    match handle_new_edge(&mut graph, origin, target, 3) {
        Some(PreparedNewEdge::Leaf {
            min_aggregation_number,
            target_aggregation_number,
            uppers,
            target_id,
        }) => {
            assert_eq!(min_aggregation_number, 1);
            assert_eq!(target_aggregation_number, 3);
            assert!(uppers.is_empty());
            assert_eq!(target_id, target);
        }
        _ => panic!("a leaf with three children stays a leaf"),
    }
}

#[test]
fn leaf_with_many_children_is_promoted() {
    let mut graph = AggregationGraph::new();
    let origin = graph.add_node(Info::new(0));
    let children: Vec<usize> = (0..32).map(|i| graph.add_node(Info::new(i))).collect();
    for (i, child) in children.iter().enumerate() {
        add_edge(&mut graph, origin, *child);
        // promotion happens at the 32nd child: (0 + 1) * 32 >= 32
        assert_eq!(graph.node(origin).is_leaf(), i < 31);
    }
    assert!(graph.node(origin).aggregation_number() >= LEAF_NUMBER);
    for child in &children {
        assert!(graph.node(origin).followers().unwrap().contains(*child));
    }
    assert_eq!(follower_count(&graph, origin), 32);
}

#[test]
fn aggregation_numbers_never_decrease() {
    let mut graph = AggregationGraph::new();
    let nodes: Vec<usize> = (0..10).map(|i| graph.add_node(Info::new(i))).collect();
    let mut seen: Vec<u32> = nodes.iter().map(|n| graph.node(*n).aggregation_number()).collect();
    let mut was_aggregating: Vec<bool> = nodes.iter().map(|n| !graph.node(*n).is_leaf()).collect();
    for i in 0..9 {
        for j in (i + 1)..10 {
            add_edge(&mut graph, nodes[i], nodes[j]);
            for (k, n) in nodes.iter().enumerate() {
                let now = graph.node(*n).aggregation_number();
                assert!(now >= seen[k]);
                seen[k] = now;
                let aggregating = !graph.node(*n).is_leaf();
                assert!(aggregating || !was_aggregating[k]);
                was_aggregating[k] = aggregating;
            }
        }
    }
}

#[test]
fn uppers_and_followers_agree_at_rest() {
    let mut graph = AggregationGraph::new();
    let a = aggregator(&mut graph);
    let b = aggregator(&mut graph);
    let leaves: Vec<usize> = (0..6).map(|i| graph.add_node(Info::new(i))).collect();
    for (i, leaf) in leaves.iter().enumerate() {
        add_edge(&mut graph, if i % 2 == 0 { a } else { b }, *leaf);
        add_edge(&mut graph, a, *leaf);
    }
    notify_lost_follower(&mut graph, a, leaves[1]);
    notify_lost_follower(&mut graph, b, leaves[3]);
    notify_lost_follower(&mut graph, a, leaves[0]);
    for u in 0..graph.len() {
        for f in 0..graph.len() {
            let follows = graph.node(u).followers().map_or(false, |s| s.contains(f));
            assert_eq!(graph.node(f).uppers().contains(u), follows);
        }
    }
}

#[test]
fn followers_reach_the_uppers_of_their_upper() {
    let mut graph = AggregationGraph::new();
    let top = aggregator(&mut graph);
    let middle = aggregator(&mut graph);
    let leaf = graph.add_node(Info::new(4));
    add_edge(&mut graph, top, middle);
    assert!(graph.node(middle).uppers().contains(top));
    add_edge(&mut graph, middle, leaf);
    // the new follower of the middle node is advertised to its upper
    assert!(graph.node(top).followers().unwrap().contains(leaf));
    assert!(graph.node(leaf).uppers().contains(middle));
    assert!(graph.node(leaf).uppers().contains(top));
    assert_eq!(aggregation_info(&graph, top).value, 4);
    // losing it withdraws it from the upper as well
    assert_eq!(
        notify_lost_follower(&mut graph, middle, leaf),
        RemoveIfEntryResult::Removed
    );
    assert!(!graph.node(top).followers().unwrap().contains(leaf));
    assert!(graph.node(leaf).uppers().is_empty());
    assert_eq!(aggregation_info(&graph, top).value, 0);
}

#[test]
fn find_path_follows_children() {
    let mut graph = AggregationGraph::new();
    let nodes: Vec<usize> = (0..5).map(|i| graph.add_node(Info::new(i))).collect();
    add_edge(&mut graph, nodes[0], nodes[1]);
    add_edge(&mut graph, nodes[1], nodes[2]);
    add_edge(&mut graph, nodes[2], nodes[0]);
    add_edge(&mut graph, nodes[2], nodes[3]);
    let path = find_path(&graph, nodes[0], nodes[3]).unwrap();
    assert_eq!(path, vec![nodes[0], nodes[1], nodes[2], nodes[3]]);
    assert_eq!(find_path(&graph, nodes[1], nodes[1]), Some(vec![nodes[1]]));
    // node 4 is not reachable, and the cycle does not keep the search going
    assert_eq!(find_path(&graph, nodes[0], nodes[4]), None);
    assert_eq!(find_path(&graph, nodes[3], nodes[0]), None);
}

#[test]
fn raising_a_follower_keeps_its_uppers_above_it() {
    let mut graph = AggregationGraph::new();
    let upper = aggregator(&mut graph);
    let target = graph.add_node(Info::new(1));
    let origin = graph.add_node(Info::new(1));
    add_edge(&mut graph, upper, target);
    graph.raise_aggregation_number(origin, 15);
    assert!(graph.node(origin).is_leaf());
    add_edge(&mut graph, origin, target);
    // the target rose to 15 + 1 + 2, which made it aggregate, and its upper
    // to one more
    assert_eq!(graph.node(target).aggregation_number(), 18);
    assert!(!graph.node(target).is_leaf());
    assert_eq!(graph.node(upper).aggregation_number(), 19);
}

#[test]
fn leaf_reaching_the_sentinel_aggregates() {
    let mut graph = AggregationGraph::new();
    let node = graph.add_node(Info::new(1));
    graph.raise_aggregation_number(node, LEAF_NUMBER - 1);
    assert!(graph.node(node).is_leaf());
    graph.raise_aggregation_number(node, LEAF_NUMBER);
    assert!(!graph.node(node).is_leaf());
    assert_eq!(graph.node(node).aggregation_number(), LEAF_NUMBER);
}

#[test]
fn reconcile_after_both_sides_are_gone() {
    let mut graph = AggregationGraph::new();
    let upper = aggregator(&mut graph);
    let follower = graph.add_node(Info::new(5));
    add_edge(&mut graph, upper, follower);
    notify_lost_follower(&mut graph, upper, follower);
    assert_eq!(
        reconcile_lost_follower(&mut graph, upper, follower),
        RemoveIfEntryResult::NotPresent
    );
    assert_eq!(aggregation_info(&graph, upper).value, 0);
    assert!(graph.node(follower).uppers().is_empty());
}
