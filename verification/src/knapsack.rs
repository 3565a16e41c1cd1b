//! A knapsack instance in memory: how it is made, filled and listed.
use crate::bitstring::BitString;
use crate::instance::{
    lemma_optimum_of_infeasible_instance, lemma_optimum_of_no_items, Instance,
};
use crate::search::Search;
use rand::Rng;
use std::ops::RangeInclusive;
use vstd::prelude::*;

verus! {

/// One item of an instance, as it is listed: its index, weight and value.
#[derive(Copy, Clone, Debug, PartialEq, Eq, Structural)]
pub struct Item {
    pub index: usize,
    pub weight: u16,
    pub value: u16,
}

/// A knapsack instance: `total_items` items, each with a weight and a value.
pub struct Knapsack {
    weights: Vec<u16>,
    values: Vec<u16>,
    total_items: usize,
}

impl View for Knapsack {
    type V = Instance;

    closed spec fn view(&self) -> Instance {
        Instance { weights: self.weights@, values: self.values@ }
    }
}

/// The listing of all the items of `instance`, in the order of their indices.
pub open spec fn listing(instance: Instance) -> Seq<Item> {
    Seq::new(
        instance.items(),
        |index: int|
            Item {
                index: index as usize,
                weight: instance.weights[index],
                value: instance.values[index],
            },
    )
}

/// Draws one number with `rand::Rng::gen_range` from the generator that
/// `rand::thread_rng` hands out. Trusted, not proved: the number lies in the
/// range, both ends included. Which number of the range it is, is left open,
/// and two draws from one range may differ. `gen_range` panics on an empty
/// range, so the range must not be empty.
#[verifier::external_body]
fn sample(range: &RangeInclusive<u16>) -> (drawn: u16)
    requires
        range@.start <= range@.end,
    ensures
        range@.start <= drawn <= range@.end,
{
    rand::thread_rng().gen_range(range.clone())
}

impl Knapsack {
    #[verifier::type_invariant]
    spec fn inv(self) -> bool {
        self.weights.len() == self.total_items && self.values.len() == self.total_items
    }

    /// An instance of `total_items` items that weigh nothing and are worth
    /// nothing.
    pub fn new(total_items: usize) -> (created: Self)
        ensures
            created@.wf(),
            created@.items() == total_items,
            forall|index: int| 0 <= index < total_items ==> created@.weights[index] == 0,
            forall|index: int| 0 <= index < total_items ==> created@.values[index] == 0,
    {
        Self { weights: vec![0; total_items], values: vec![0; total_items], total_items }
    }

    /// The number of items.
    pub fn total_items(&self) -> (count: usize)
        ensures
            self@.wf(),
            count == self@.items(),
    {
        proof {
            use_type_invariant(self);
        }
        self.total_items
    }

    /// The weight of item `index`.
    pub fn weight(&self, index: usize) -> (weight: u16)
        requires
            index < self@.items(),
        ensures
            weight == self@.weights[index as int],
    {
        self.weights[index]
    }

    /// The value of item `index`.
    pub fn value(&self, index: usize) -> (value: u16)
        requires
            index < self@.items(),
        ensures
            value == self@.values[index as int],
    {
        proof {
            use_type_invariant(self);
        }
        self.values[index]
    }

    /// Gives item `index` a weight and a value, and leaves the other items as
    /// they are.
    pub fn set_item(&mut self, index: usize, weight: u16, value: u16)
        requires
            index < old(self)@.items(),
        ensures
            final(self)@.weights == old(self)@.weights.update(index as int, weight),
            final(self)@.values == old(self)@.values.update(index as int, value),
    {
        proof {
            use_type_invariant(&*self);
        }
        self.weights[index] = weight;
        self.values[index] = value;
    }

    /// Gives each item a weight drawn from `weight_range` and a value drawn
    /// from `value_range`, each draw independent of the others.
    pub fn initialize_values(
        &mut self,
        weight_range: RangeInclusive<u16>,
        value_range: RangeInclusive<u16>,
    )
        requires
            weight_range@.start <= weight_range@.end,
            value_range@.start <= value_range@.end,
        ensures
            final(self)@.wf(),
            final(self)@.items() == old(self)@.items(),
            forall|index: int|
                0 <= index < final(self)@.items() ==> weight_range@.start <= (
                #[trigger] final(self)@.weights[index]) <= weight_range@.end,
            forall|index: int|
                0 <= index < final(self)@.items() ==> value_range@.start <= (
                #[trigger] final(self)@.values[index]) <= value_range@.end,
    {
        let total: usize = self.total_items();
        let mut i: usize = 0;
        while i < total
            invariant
                i <= total,
                self@.wf(),
                total == self@.items(),
                self@.items() == old(self)@.items(),
                weight_range@.start <= weight_range@.end,
                value_range@.start <= value_range@.end,
                forall|index: int|
                    0 <= index < i ==> weight_range@.start <= (#[trigger] self@.weights[index])
                        <= weight_range@.end,
                forall|index: int|
                    0 <= index < i ==> value_range@.start <= (#[trigger] self@.values[index])
                        <= value_range@.end,
            decreases total - i,
        {
            let weight: u16 = sample(&weight_range);
            let value: u16 = sample(&value_range);
            self.set_item(i, weight, value);
            i += 1;
        }
    }

    /// All the items, in the order of their indices.
    pub fn weights_and_values(&self) -> (items: Vec<Item>)
        ensures
            items@ == listing(self@),
    {
        let total: usize = self.total_items();
        let mut items: Vec<Item> = Vec::with_capacity(total);
        let mut i: usize = 0;
        while i < total
            invariant
                i <= total,
                self@.wf(),
                total == self@.items(),
                items@ == listing(self@).take(i as int),
            decreases total - i,
        {
            items.push(Item { index: i, weight: self.weight(i), value: self.value(i) });
            assert(items@ =~= listing(self@).take(i + 1));
            i += 1;
        }
        assert(items@ =~= listing(self@));
        items
    }

    /// The items that `subset` holds, in the order of their indices.
    pub fn best_subset_items(&self, subset: BitString) -> (items: Vec<Item>)
        requires
            self@.items() <= 64,
        ensures
            items@ == listing(self@).filter(|item: Item| subset@.contains(item.index as nat)),
    {
        let total: usize = self.total_items();
        let ghost held = |item: Item| subset@.contains(item.index as nat);
        let mut items: Vec<Item> = Vec::with_capacity(total);
        let mut i: usize = 0;
        proof {
            assert(listing(self@).take(0) =~= Seq::<Item>::empty());
            reveal_with_fuel(Seq::filter, 1);
        }
        while i < total
            invariant
                i <= total <= 64,
                self@.wf(),
                total == self@.items(),
                held == |item: Item| subset@.contains(item.index as nat),
                items@ == listing(self@).take(i as int).filter(held),
            decreases total - i,
        {
            proof {
                let before: Seq<Item> = listing(self@).take(i as int);
                let after: Seq<Item> = listing(self@).take(i + 1);
                assert(after.drop_last() =~= before);
                reveal_with_fuel(Seq::filter, 2);
            }
            if subset.is_bit_set(i) {
                items.push(Item { index: i, weight: self.weight(i), value: self.value(i) });
            }
            i += 1;
        }
        assert(listing(self@).take(total as int) =~= listing(self@));
        items
    }

    /// Solves the instance exactly for a knapsack that carries
    /// `knapsack_capacity`: tries every subset of the items and returns the
    /// optimum and its value. With no item, or with each item too heavy on
    /// its own, that is the empty subset, worth nothing.
    pub fn solve(&self, knapsack_capacity: u64) -> (best: (BitString, u64))
        requires
            self@.items() <= 64,
        ensures
            self@.optimum(knapsack_capacity as nat, best.0@, best.1 as nat),
            self@.items() == 0 ==> best.0@ == Set::<nat>::empty() && best.1 == 0,
            (forall|index: int|
                0 <= index < self@.items() ==> self@.weights[index] > knapsack_capacity)
                ==> best.0@ == Set::<nat>::empty() && best.1 == 0,
    {
        let mut search: Search = Search::new(self, knapsack_capacity);
        search.advance(0);
        let best: (BitString, u64) = search.result();
        proof {
            if self@.items() == 0 {
                lemma_optimum_of_no_items(self@, knapsack_capacity as nat, best.0@, best.1 as nat);
            }
            if forall|index: int|
                0 <= index < self@.items() ==> self@.weights[index] > knapsack_capacity {
                lemma_optimum_of_infeasible_instance(
                    self@,
                    knapsack_capacity as nat,
                    best.0@,
                    best.1 as nat,
                );
            }
        }
        best
    }
}

} // verus!
