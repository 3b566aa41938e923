use vstd::prelude::*;

verus! {

/// Outcome of taking one reference away from a counted set.
#[derive(Clone, Copy, Debug, PartialEq, Eq, Structural)]
pub enum RemoveIfEntryResult {
    /// The entry is still referenced at least once.
    PartiallyRemoved,
    /// The last reference went away; the entry is gone.
    Removed,
    /// There was no entry to remove.
    NotPresent,
}

/// A multiset of node references: each entry carries how many times it was
/// added and stays present until it was removed as often.
pub struct CountHashSet {
    keys: Vec<usize>,
    counts: Vec<usize>,
}

/// Position of `k` in `keys`, where it occurs.
pub open spec fn position_of(keys: Seq<usize>, k: usize) -> int {
    choose|i: int| 0 <= i < keys.len() && keys[i] == k
}

/// What taking one reference to `k` away does to counts `m`: the counts
/// afterwards and the outcome.
pub open spec fn spec_remove(m: Map<usize, nat>, k: usize) -> (Map<usize, nat>, RemoveIfEntryResult) {
    if !m.contains_key(k) {
        (m, RemoveIfEntryResult::NotPresent)
    } else if m[k] <= 1 {
        (m.remove(k), RemoveIfEntryResult::Removed)
    } else {
        (m.insert(k, (m[k] - 1) as nat), RemoveIfEntryResult::PartiallyRemoved)
    }
}

/// Once the last reference to `k` is gone, taking one away again is refused
/// with `NotPresent` and changes no count.
pub proof fn lemma_removal_idempotent(m: Map<usize, nat>, k: usize)
    requires
        spec_remove(m, k).1 == RemoveIfEntryResult::Removed,
    ensures
        spec_remove(spec_remove(m, k).0, k) == (spec_remove(m, k).0, RemoveIfEntryResult::NotPresent),
{
}

impl View for CountHashSet {
    type V = Map<usize, nat>;

    closed spec fn view(&self) -> Map<usize, nat> {
        Map::new(
            |k: usize| self.keys@.contains(k),
            |k: usize| self.counts@[position_of(self.keys@, k)] as nat,
        )
    }
}

impl CountHashSet {
    /// Keys are distinct, every key has a count, and every count is positive.
    pub closed spec fn wf(&self) -> bool {
        &&& self.keys@.no_duplicates()
        &&& self.keys@.len() == self.counts@.len()
        &&& forall|i: int| 0 <= i < self.counts@.len() ==> self.counts@[i] >= 1
    }

    /// How often `k` is referenced; zero when absent.
    pub open spec fn spec_count(&self, k: usize) -> nat {
        if self@.contains_key(k) {
            self@[k]
        } else {
            0
        }
    }

    proof fn lemma_view_at(&self, i: int)
        requires
            self.wf(),
            0 <= i < self.keys@.len(),
        ensures
            self@.contains_key(self.keys@[i]),
            self@[self.keys@[i]] == self.counts@[i] as nat,
            position_of(self.keys@, self.keys@[i]) == i,
    {
        let k = self.keys@[i];
        assert(self.keys@.contains(k));
        let j = position_of(self.keys@, k);
        assert(0 <= j < self.keys@.len() && self.keys@[j] == k);
    }

    proof fn lemma_wf_view(&self)
        requires
            self.wf(),
        ensures
            self@.dom().finite(),
            self@.dom().len() == self.keys@.len(),
            forall|k: usize| #[trigger] self@.contains_key(k) ==> self@[k] >= 1,
    {
        assert(self@.dom() =~= self.keys@.to_set());
        self.keys@.unique_seq_to_set();
        assert forall|k: usize| #[trigger] self@.contains_key(k) implies self@[k] >= 1 by {
            let i = position_of(self.keys@, k);
            self.lemma_view_at(i);
        }
    }

    /// Every present entry has a positive count, and there are finitely many.
    pub proof fn lemma_counts_positive(&self)
        requires
            self.wf(),
        ensures
            self@.dom().finite(),
            forall|k: usize| #[trigger] self@.contains_key(k) ==> self@[k] >= 1,
    {
        self.lemma_wf_view();
    }

    pub fn new() -> (r: Self)
        ensures
            r.wf(),
            r@ == Map::<usize, nat>::empty(),
    {
        let r = CountHashSet { keys: Vec::new(), counts: Vec::new() };
        assert(r@ =~= Map::<usize, nat>::empty());
        r
    }

    fn find(&self, k: usize) -> (r: Option<usize>)
        requires
            self.wf(),
        ensures
            match r {
                Some(i) => i < self.keys@.len() && self.keys@[i as int] == k,
                None => !self@.contains_key(k),
            },
    {
        let mut i: usize = 0;
        while i < self.keys.len()
            invariant
                i <= self.keys@.len(),
                forall|j: int| 0 <= j < i ==> self.keys@[j] != k,
            decreases self.keys@.len() - i,
        {
            if self.keys[i] == k {
                return Some(i);
            }
            i = i + 1;
        }
        None
    }

    /// Number of distinct entries.
    pub fn len(&self) -> (r: usize)
        requires
            self.wf(),
        ensures
            r == self@.dom().len(),
    {
        proof {
            self.lemma_wf_view();
        }
        self.keys.len()
    }

    pub fn is_empty(&self) -> (r: bool)
        requires
            self.wf(),
        ensures
            r == (self@.dom().len() == 0),
    {
        self.len() == 0
    }

    /// How often `k` is referenced.
    pub fn get_count(&self, k: usize) -> (r: usize)
        requires
            self.wf(),
        ensures
            r == self.spec_count(k),
    {
        match self.find(k) {
            Some(i) => {
                proof {
                    self.lemma_view_at(i as int);
                }
                self.counts[i]
            },
            None => 0,
        }
    }

    pub fn contains(&self, k: usize) -> (r: bool)
        requires
            self.wf(),
        ensures
            r == self@.contains_key(k),
    {
        self.find(k).is_some()
    }

    /// Adds one reference to `k`; returns whether `k` was absent before.
    pub fn add(&mut self, k: usize) -> (r: bool)
        requires
            old(self).wf(),
            old(self).spec_count(k) < usize::MAX,
        ensures
            final(self).wf(),
            r == !old(self)@.contains_key(k),
            final(self)@ == old(self)@.insert(k, old(self).spec_count(k) + 1),
    {
        match self.find(k) {
            Some(i) => {
                proof {
                    self.lemma_view_at(i as int);
                }
                let c = self.counts[i];
                let ghost pre = *self;
                self.counts.set(i, c + 1);
                proof {
                    assert forall|k2: usize| #[trigger] self@.contains_key(k2) implies self@[k2]
                        == pre@.insert(k, (c + 1) as nat)[k2] by {
                        let j = position_of(pre.keys@, k2);
                        pre.lemma_view_at(j);
                        self.lemma_view_at(j);
                    }
                    assert(self@ =~= pre@.insert(k, (c + 1) as nat));
                }
                false
            },
            None => {
                let ghost pre = *self;
                self.keys.push(k);
                self.counts.push(1);
                proof {
                    assert(self.keys@.no_duplicates()) by {
                        assert forall|a: int, b: int|
                            0 <= a < self.keys@.len() && 0 <= b < self.keys@.len() && a != b
                            implies self.keys@[a] != self.keys@[b] by {
                            if a < pre.keys@.len() && b < pre.keys@.len() {
                            } else if a < pre.keys@.len() {
                                assert(pre.keys@.contains(self.keys@[a]));
                            } else {
                                assert(pre.keys@.contains(self.keys@[b]));
                            }
                        }
                    }
                    let last = pre.keys@.len() as int;
                    self.lemma_view_at(last);
                    assert forall|k2: usize| #[trigger] self@.contains_key(k2) implies self@[k2]
                        == pre@.insert(k, 1)[k2] by {
                        let j = position_of(self.keys@, k2);
                        self.lemma_view_at(j);
                        if j < last {
                            pre.lemma_view_at(j);
                        }
                    }
                    assert forall|k2: usize| #[trigger] pre@.insert(k, 1).contains_key(k2)
                        implies self@.contains_key(k2) by {
                        if k2 != k {
                            let j = position_of(pre.keys@, k2);
                            pre.lemma_view_at(j);
                            assert(self.keys@[j] == k2);
                        }
                    }
                    assert(self@ =~= pre@.insert(k, 1));
                }
                true
            },
        }
    }

    /// Takes one reference away from `k`; the entry leaves when its count
    /// reaches zero.
    pub fn remove_if_entry(&mut self, k: usize) -> (r: RemoveIfEntryResult)
        requires
            old(self).wf(),
        ensures
            final(self).wf(),
            (final(self)@, r) == spec_remove(old(self)@, k),
            r == RemoveIfEntryResult::NotPresent ==> *final(self) == *old(self),
            !old(self)@.contains_key(k) ==> r == RemoveIfEntryResult::NotPresent && final(self)@
                == old(self)@,
            old(self)@.contains_key(k) && old(self)@[k] == 1 ==> r == RemoveIfEntryResult::Removed
                && final(self)@ == old(self)@.remove(k),
            old(self)@.contains_key(k) && old(self)@[k] > 1 ==> r
                == RemoveIfEntryResult::PartiallyRemoved && final(self)@ == old(self)@.insert(
                k,
                (old(self)@[k] - 1) as nat,
            ),
    {
        match self.find(k) {
            None => RemoveIfEntryResult::NotPresent,
            Some(i) => {
                proof {
                    self.lemma_view_at(i as int);
                }
                let c = self.counts[i];
                let ghost pre = *self;
                if c > 1 {
                    self.counts.set(i, c - 1);
                    proof {
                        assert forall|k2: usize| #[trigger] self@.contains_key(k2) implies self@[k2]
                            == pre@.insert(k, (c - 1) as nat)[k2] by {
                            let j = position_of(pre.keys@, k2);
                            pre.lemma_view_at(j);
                            self.lemma_view_at(j);
                        }
                        assert(self@ =~= pre@.insert(k, (c - 1) as nat));
                    }
                    RemoveIfEntryResult::PartiallyRemoved
                } else {
                    self.keys.remove(i);
                    self.counts.remove(i);
                    proof {
                        assert(self.keys@ =~= pre.keys@.remove(i as int));
                        assert forall|a: int, b: int|
                            0 <= a < self.keys@.len() && 0 <= b < self.keys@.len() && a != b
                            implies self.keys@[a] != self.keys@[b] by {
                            let pa = if a < i { a } else { a + 1 };
                            let pb = if b < i { b } else { b + 1 };
                            assert(pre.keys@[pa] == self.keys@[a]);
                            assert(pre.keys@[pb] == self.keys@[b]);
                        }
                        assert forall|j: int| 0 <= j < self.counts@.len() implies self.counts@[j]
                            >= 1 by {
                            let pj = if j < i { j } else { j + 1 };
                            assert(pre.counts@[pj] == self.counts@[j]);
                        }
                        assert forall|k2: usize| #[trigger] self@.contains_key(k2) implies self@[k2]
                            == pre@.remove(k)[k2] && pre@.remove(k).contains_key(k2) by {
                            let j = position_of(self.keys@, k2);
                            self.lemma_view_at(j);
                            let pj = if j < i { j } else { j + 1 };
                            assert(pre.keys@[pj] == k2);
                            pre.lemma_view_at(pj);
                        }
                        assert forall|k2: usize| #[trigger] pre@.remove(k).contains_key(k2)
                            implies self@.contains_key(k2) by {
                            let pj = position_of(pre.keys@, k2);
                            pre.lemma_view_at(pj);
                            assert(pj != i);
                            let j = if pj < i { pj } else { pj - 1 };
                            assert(self.keys@[j] == k2);
                        }
                        assert(self@ =~= pre@.remove(k));
                    }
                    RemoveIfEntryResult::Removed
                }
            },
        }
    }

    /// The distinct entries, each once.
    pub fn to_vec(&self) -> (r: Vec<usize>)
        requires
            self.wf(),
        ensures
            r@.no_duplicates(),
            r@.to_set() == self@.dom(),
            r@.len() == self@.dom().len(),
    {
        proof {
            self.lemma_wf_view();
            assert(self@.dom() =~= self.keys@.to_set());
        }
        self.keys.clone()
    }
}

} // verus!
