//! What a knapsack instance is, mathematically: the weights and values of its
//! items, what a subset of them weighs and is worth, and which subset an exact
//! search has to return.
use crate::bitstring::within;
use crate::gray::{lemma_visit_position, subset_at, subset_count, visit_position};
use vstd::prelude::*;

verus! {

/// The sum of the amounts whose index is in `chosen`.
pub open spec fn sum_selected(amounts: Seq<u16>, chosen: Set<nat>) -> nat
    decreases amounts.len(),
{
    if amounts.len() == 0 {
        0
    } else {
        let last: nat = (amounts.len() - 1) as nat;
        sum_selected(amounts.drop_last(), chosen) + if chosen.contains(last) {
            amounts[last as int] as nat
        } else {
            0
        }
    }
}

/// The items of a knapsack instance: item `i` weighs `weights[i]` and is worth
/// `values[i]`.
pub struct Instance {
    pub weights: Seq<u16>,
    pub values: Seq<u16>,
}

impl Instance {
    /// Each item has a weight and a value.
    pub open spec fn wf(self) -> bool {
        self.weights.len() == self.values.len()
    }

    /// The number of items.
    pub open spec fn items(self) -> nat {
        self.weights.len()
    }

    /// The total weight of the items in `chosen`.
    pub open spec fn weight_of(self, chosen: Set<nat>) -> nat {
        sum_selected(self.weights, chosen)
    }

    /// The total value of the items in `chosen`.
    pub open spec fn value_of(self, chosen: Set<nat>) -> nat {
        sum_selected(self.values, chosen)
    }

    /// `chosen` consists of items of the instance and fits in the knapsack.
    pub open spec fn feasible(self, chosen: Set<nat>, capacity: nat) -> bool {
        within(chosen, self.items()) && self.weight_of(chosen) <= capacity
    }

    /// `best`, worth `max_value`, is what a search has found when it has seen
    /// the positions `0..=upto` of the visiting order: a feasible subset among
    /// them that no feasible one among them exceeds in value, and the earliest
    /// of those that reach its value.
    pub open spec fn best_among(self, capacity: nat, upto: nat, best: Set<nat>, max_value: nat) -> bool {
        &&& self.feasible(best, capacity)
        &&& max_value == self.value_of(best)
        &&& visit_position(best) <= upto
        &&& forall|position: nat|
            position <= upto && self.weight_of(#[trigger] subset_at(position)) <= capacity ==> {
                &&& self.value_of(subset_at(position)) <= max_value
                &&& self.value_of(subset_at(position)) == max_value ==> visit_position(best)
                    <= position
            }
    }

    /// `best`, worth `value`, is the answer of the exact search: a feasible
    /// subset that no feasible subset exceeds in value, and among the feasible
    /// subsets of that value the one that comes first in the visiting order.
    pub open spec fn optimum(self, capacity: nat, best: Set<nat>, value: nat) -> bool {
        &&& self.feasible(best, capacity)
        &&& value == self.value_of(best)
        &&& forall|chosen: Set<nat>| #[trigger]
            self.feasible(chosen, capacity) ==> {
                &&& self.value_of(chosen) <= value
                &&& self.value_of(chosen) == value ==> visit_position(best) <= visit_position(
                    chosen,
                )
            }
    }
}

/// No item chosen, nothing summed.
pub proof fn lemma_sum_selected_empty(amounts: Seq<u16>)
    ensures
        sum_selected(amounts, Set::<nat>::empty()) == 0,
    decreases amounts.len(),
{
    if amounts.len() > 0 {
        lemma_sum_selected_empty(amounts.drop_last());
    }
}

/// A sum of `u16` amounts is at most 65535 for each of them.
pub proof fn lemma_sum_selected_bound(amounts: Seq<u16>, chosen: Set<nat>)
    ensures
        sum_selected(amounts, chosen) <= 65535 * amounts.len(),
    decreases amounts.len(),
{
    if amounts.len() > 0 {
        lemma_sum_selected_bound(amounts.drop_last(), chosen);
    }
}

/// A sum is at least each amount that it includes.
pub proof fn lemma_sum_selected_includes(amounts: Seq<u16>, chosen: Set<nat>, index: nat)
    requires
        index < amounts.len(),
        chosen.contains(index),
    ensures
        sum_selected(amounts, chosen) >= amounts[index as int],
    decreases amounts.len(),
{
    if index + 1 < amounts.len() {
        lemma_sum_selected_includes(amounts.drop_last(), chosen, index);
    }
}

/// Putting an item in adds its amount to the sum, and taking one out
/// subtracts it: nothing else of the sum changes.
pub proof fn lemma_sum_selected_toggle(amounts: Seq<u16>, chosen: Set<nat>, index: nat)
    requires
        index < amounts.len(),
    ensures
        !chosen.contains(index) ==> sum_selected(amounts, chosen.insert(index)) == sum_selected(
            amounts,
            chosen,
        ) + amounts[index as int],
        chosen.contains(index) ==> sum_selected(amounts, chosen.remove(index)) + amounts[index as int]
            == sum_selected(amounts, chosen),
    decreases amounts.len(),
{
    if index + 1 < amounts.len() {
        lemma_sum_selected_toggle(amounts.drop_last(), chosen, index);
    } else {
        lemma_sum_selected_ignores_later(amounts.drop_last(), chosen, chosen.insert(index));
        lemma_sum_selected_ignores_later(amounts.drop_last(), chosen, chosen.remove(index));
    }
}

/// A sum depends only on which of the indices of its amounts are chosen.
pub proof fn lemma_sum_selected_ignores_later(amounts: Seq<u16>, first: Set<nat>, second: Set<nat>)
    requires
        forall|index: nat| index < amounts.len() ==> first.contains(index) == second.contains(index),
    ensures
        sum_selected(amounts, first) == sum_selected(amounts, second),
    decreases amounts.len(),
{
    if amounts.len() > 0 {
        lemma_sum_selected_ignores_later(amounts.drop_last(), first, second);
    }
}

/// The empty subset weighs nothing and is worth nothing, so it is feasible
/// for every capacity.
pub proof fn lemma_empty_is_feasible(instance: Instance, capacity: nat)
    ensures
        instance.feasible(Set::<nat>::empty(), capacity),
        instance.weight_of(Set::<nat>::empty()) == 0,
        instance.value_of(Set::<nat>::empty()) == 0,
{
    lemma_sum_selected_empty(instance.weights);
    lemma_sum_selected_empty(instance.values);
}

/// Once every position has been seen, the best among them is the optimum.
pub proof fn lemma_best_among_all_is_optimum(
    instance: Instance,
    capacity: nat,
    best: Set<nat>,
    max_value: nat,
)
    requires
        instance.items() <= 64,
        instance.best_among(capacity, (subset_count(instance.items()) - 1) as nat, best, max_value),
    ensures
        instance.optimum(capacity, best, max_value),
{
    let items: nat = instance.items();
    assert forall|chosen: Set<nat>| #[trigger] instance.feasible(chosen, capacity) implies {
        &&& instance.value_of(chosen) <= max_value
        &&& instance.value_of(chosen) == max_value ==> visit_position(best) <= visit_position(chosen)
    } by {
        lemma_visit_position(chosen, items);
        let position: nat = visit_position(chosen);
        assert(instance.weight_of(subset_at(position)) <= capacity);
    }
}

/// Each instance has one optimum for a capacity, and no other.
pub proof fn lemma_optimum_is_unique(
    instance: Instance,
    capacity: nat,
    first: Set<nat>,
    first_value: nat,
    second: Set<nat>,
    second_value: nat,
)
    requires
        instance.items() <= 64,
        instance.optimum(capacity, first, first_value),
        instance.optimum(capacity, second, second_value),
    ensures
        first == second,
        first_value == second_value,
{
    assert(instance.feasible(first, capacity));
    assert(instance.feasible(second, capacity));
    lemma_visit_position(first, instance.items());
    lemma_visit_position(second, instance.items());
}

/// With no item at all the optimum is the empty subset, worth nothing.
pub proof fn lemma_optimum_of_no_items(instance: Instance, capacity: nat, best: Set<nat>, value: nat)
    requires
        instance.items() == 0,
        instance.optimum(capacity, best, value),
    ensures
        best == Set::<nat>::empty(),
        value == 0,
{
    assert(best =~= Set::<nat>::empty());
    lemma_sum_selected_empty(instance.values);
}

/// Where each single item is too heavy for the knapsack, the optimum is the
/// empty subset, worth nothing.
pub proof fn lemma_optimum_of_infeasible_instance(
    instance: Instance,
    capacity: nat,
    best: Set<nat>,
    value: nat,
)
    requires
        forall|index: int| 0 <= index < instance.weights.len() ==> instance.weights[index] > capacity,
        instance.optimum(capacity, best, value),
    ensures
        best == Set::<nat>::empty(),
        value == 0,
{
    assert forall|index: nat| !best.contains(index) by {
        if best.contains(index) {
            lemma_sum_selected_includes(instance.weights, best, index);
        }
    }
    assert(best =~= Set::<nat>::empty());
    lemma_sum_selected_empty(instance.values);
}

} // verus!
