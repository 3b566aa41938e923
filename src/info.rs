use vstd::prelude::*;
use vstd::set::fold::lemma_fold_empty;
use vstd::set::fold::lemma_fold_insert;
use vstd::set::fold::is_fun_commutative;

verus! {

/// The information a node contributes to every aggregate it is part of: a
/// weight, summed with wrap-around on 64 bits.
#[derive(Clone, Copy, Debug, PartialEq, Eq, Structural)]
pub struct Info {
    pub value: u64,
}

/// A delta on aggregated [`Info`]: the amount to add, on 64 bits with
/// wrap-around, so that a removal is the addition of the negated weight.
#[derive(Clone, Copy, Debug, PartialEq, Eq, Structural)]
pub struct ItemChange {
    pub delta: u64,
}

/// Addition modulo 2^64.
pub open spec fn add_wrapping(a: u64, b: u64) -> u64 {
    ((a as int + b as int) % 0x1_0000_0000_0000_0000int) as u64
}

/// The additive inverse modulo 2^64.
pub open spec fn neg_wrapping(a: u64) -> u64 {
    if a == 0 {
        0
    } else {
        (0x1_0000_0000_0000_0000int - a) as u64
    }
}

/// What `apply_change` makes of `info`.
pub open spec fn spec_apply(info: Info, change: ItemChange) -> Info {
    Info { value: add_wrapping(info.value, change.delta) }
}

/// The change that makes `info` newly visible in an aggregate.
pub open spec fn spec_add_change(info: Info) -> Option<ItemChange> {
    if info.value == 0 {
        None
    } else {
        Some(ItemChange { delta: info.value })
    }
}

/// The change that takes `info` out of an aggregate again.
pub open spec fn spec_remove_change(info: Info) -> Option<ItemChange> {
    if info.value == 0 {
        None
    } else {
        Some(ItemChange { delta: neg_wrapping(info.value) })
    }
}

/// Applies an optional change; `None` leaves the info as it is.
pub open spec fn spec_apply_opt(info: Info, change: Option<ItemChange>) -> Info {
    match change {
        Some(c) => spec_apply(info, c),
        None => info,
    }
}

impl Info {
    pub fn new(value: u64) -> (r: Self)
        ensures
            r.value == value,
    {
        Info { value }
    }

    /// The empty aggregate.
    pub fn empty() -> (r: Self)
        ensures
            r.value == 0,
    {
        Info { value: 0 }
    }
}

/// Merges `change` into `info` and returns the change to pass on to the
/// aggregates above, or `None` where nothing changed.
pub fn apply_change(info: &mut Info, change: &ItemChange) -> (r: Option<ItemChange>)
    ensures
        *final(info) == spec_apply(*old(info), *change),
        r == (if change.delta == 0 {
            None
        } else {
            Some(*change)
        }),
{
    info.value = info.value.wrapping_add(change.delta);
    if change.delta == 0 {
        None
    } else {
        Some(*change)
    }
}

/// The change by which `info` enters an aggregate.
pub fn info_to_add_change(info: &Info) -> (r: Option<ItemChange>)
    ensures
        r == spec_add_change(*info),
{
    if info.value == 0 {
        None
    } else {
        Some(ItemChange { delta: info.value })
    }
}

/// The change by which `info` leaves an aggregate.
pub fn info_to_remove_change(info: &Info) -> (r: Option<ItemChange>)
    ensures
        r == spec_remove_change(*info),
{
    if info.value == 0 {
        None
    } else {
        Some(ItemChange { delta: 0u64.wrapping_sub(info.value) })
    }
}

/// The weight of node `f` among `infos`; 0 for a node it does not hold.
pub open spec fn info_at(infos: Seq<Info>, f: usize) -> u64 {
    if f < infos.len() {
        infos[f as int].value
    } else {
        0
    }
}

/// Adds the weight of one node to a running total.
pub open spec fn weight_step(infos: Seq<Info>) -> spec_fn(u64, usize) -> u64 {
    |acc: u64, f: usize| add_wrapping(acc, info_at(infos, f))
}

/// The summed weight of the nodes `s` among `infos`.
pub open spec fn weight_of(infos: Seq<Info>, s: Set<usize>) -> u64 {
    s.fold(0u64, weight_step(infos))
}

proof fn lemma_add_wrapping_swap(b: u64, x: u64, y: u64)
    ensures
        add_wrapping(add_wrapping(b, x), y) == add_wrapping(add_wrapping(b, y), x),
{
    let m = 0x1_0000_0000_0000_0000int;
    vstd::arithmetic::div_mod::lemma_add_mod_noop(b as int + x as int, y as int, m);
    vstd::arithmetic::div_mod::lemma_add_mod_noop(b as int + y as int, x as int, m);
    vstd::arithmetic::div_mod::lemma_small_mod(y as nat, m as nat);
    vstd::arithmetic::div_mod::lemma_small_mod(x as nat, m as nat);
    assert(b as int + x as int + y as int == b as int + y as int + x as int);
}

/// Adding a weight and then its negation gives the start back.
pub proof fn lemma_add_then_neg(a: u64, v: u64)
    ensures
        add_wrapping(add_wrapping(a, v), neg_wrapping(v)) == a,
{
    lemma_add_then_remove_round_trip(Info { value: a }, Info { value: v });
    if v == 0 {
        vstd::arithmetic::div_mod::lemma_small_mod(a as nat, 0x1_0000_0000_0000_0000nat);
        vstd::arithmetic::div_mod::lemma_small_mod((a as int + 0) as nat, 0x1_0000_0000_0000_0000nat);
    }
}

/// The step of [`weight_of`] does not depend on the order of the nodes.
pub proof fn lemma_weight_commutes(infos: Seq<Info>)
    ensures
        is_fun_commutative(weight_step(infos)),
{
    assert forall|a1: usize, a2: usize, b: u64|
        #[trigger] (weight_step(infos))((weight_step(infos))(b, a2), a1)
            == (weight_step(infos))((weight_step(infos))(b, a1), a2) by {
        lemma_add_wrapping_swap(b, info_at(infos, a2), info_at(infos, a1));
    }
}

/// A node more adds its weight.
pub proof fn lemma_weight_insert(infos: Seq<Info>, s: Set<usize>, f: usize)
    requires
        s.finite(),
        !s.contains(f),
    ensures
        weight_of(infos, s.insert(f)) == add_wrapping(weight_of(infos, s), info_at(infos, f)),
{
    lemma_weight_commutes(infos);
    lemma_fold_insert(s, 0u64, weight_step(infos), f);
}

/// A node less takes its weight away.
pub proof fn lemma_weight_remove(infos: Seq<Info>, s: Set<usize>, f: usize)
    requires
        s.finite(),
        s.contains(f),
    ensures
        weight_of(infos, s.remove(f)) == add_wrapping(weight_of(infos, s), neg_wrapping(info_at(infos, f))),
{
    let r = s.remove(f);
    assert(r.insert(f) =~= s);
    lemma_weight_insert(infos, r, f);
    lemma_add_then_neg(weight_of(infos, r), info_at(infos, f));
}

/// The weight of no node is 0.
pub proof fn lemma_weight_empty(infos: Seq<Info>)
    ensures
        weight_of(infos, Set::<usize>::empty()) == 0,
{
    lemma_fold_empty(0u64, weight_step(infos));
}

/// The weight of `s` only depends on the weights of its nodes.
pub proof fn lemma_weight_congruent(a: Seq<Info>, b: Seq<Info>, s: Set<usize>)
    requires
        s.finite(),
        forall|f: usize| s.contains(f) ==> info_at(a, f) == info_at(b, f),
    ensures
        weight_of(a, s) == weight_of(b, s),
    decreases s.len(),
{
    if s.len() == 0 {
        assert(s =~= Set::<usize>::empty());
        lemma_weight_empty(a);
        lemma_weight_empty(b);
    } else {
        let x = s.choose();
        let r = s.remove(x);
        assert(r.insert(x) =~= s);
        lemma_weight_congruent(a, b, r);
        lemma_weight_insert(a, r, x);
        lemma_weight_insert(b, r, x);
    }
}

/// What the add and remove changes of `item` do to an aggregate, in weights.
pub proof fn lemma_changes_as_weights(aggregate: Info, item: Info)
    ensures
        spec_apply_opt(aggregate, spec_add_change(item)).value == add_wrapping(aggregate.value, item.value),
        spec_apply_opt(aggregate, spec_remove_change(item)).value == add_wrapping(
            aggregate.value,
            neg_wrapping(item.value),
        ),
{
    vstd::arithmetic::div_mod::lemma_small_mod(aggregate.value as nat, 0x1_0000_0000_0000_0000nat);
}

/// Adding a node's info to an aggregate and taking it out again leaves the
/// aggregate as it was.
pub proof fn lemma_add_then_remove_round_trip(aggregate: Info, item: Info)
    ensures
        spec_apply_opt(
            spec_apply_opt(aggregate, spec_add_change(item)),
            spec_remove_change(item),
        ) == aggregate,
{
    if item.value != 0 {
        let a = aggregate.value as int;
        let v = item.value as int;
        let m = 0x1_0000_0000_0000_0000int;
        let s = (a + v) % m;
        assert(((s + (m - v)) % m) == a) by (nonlinear_arith)
            requires
                s == (a + v) % m,
                0 <= a < m,
                0 < v < m,
                m == 0x1_0000_0000_0000_0000int,
        ;
    }
}

} // verus!
