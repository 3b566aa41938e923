use turbo_aggregation::count_hash_set::CountHashSet;
use turbo_aggregation::count_hash_set::RemoveIfEntryResult;

#[test]
fn add_counts_references() {
    let mut set = CountHashSet::new();
    assert!(set.add(3));
    assert!(!set.add(3));
    assert!(set.add(7));
    assert_eq!(set.get_count(3), 2);
    assert_eq!(set.get_count(7), 1);
    assert_eq!(set.get_count(9), 0);
    assert_eq!(set.len(), 2);
}

#[test]
fn remove_is_tri_state() {
    let mut set = CountHashSet::new();
    set.add(1);
    set.add(1);
    assert_eq!(set.remove_if_entry(1), RemoveIfEntryResult::PartiallyRemoved);
    assert_eq!(set.get_count(1), 1);
    assert_eq!(set.remove_if_entry(1), RemoveIfEntryResult::Removed);
    assert!(!set.contains(1));
    assert_eq!(set.remove_if_entry(1), RemoveIfEntryResult::NotPresent);
    assert!(set.is_empty());
}

#[test]
fn removal_after_removed_never_double_decrements() {
    let mut set = CountHashSet::new();
    set.add(4);
    set.add(5);
    assert_eq!(set.remove_if_entry(4), RemoveIfEntryResult::Removed);
    for _ in 0..9999 {
        assert_eq!(set.remove_if_entry(4), RemoveIfEntryResult::NotPresent);
    }
    assert_eq!(set.get_count(5), 1);
    assert_eq!(set.len(), 1);
    set.add(4);
    assert_eq!(set.get_count(4), 1);
}
