//! The exhaustive search, one subset at a time.
//!
//! A [`Search`] stands on one position of the visiting order and knows the
//! weight and value of the subset there and the best feasible subset seen so
//! far. [`Search::step`] moves it to the next position by toggling one item.
//! [`Search::advance`] runs it up to the next position at which progress is to
//! be reported, so that whoever drives it can report and call again.
use crate::bitstring::{toggled, BitString};
use crate::gray::{
    gray_code, lemma_position_of_subset_at, lemma_single_toggle, lemma_subset_at_within, subset_at,
    subset_count, toggled_index, visit_position,
};
use crate::instance::{
    lemma_best_among_all_is_optimum, lemma_empty_is_feasible, lemma_sum_selected_bound,
    lemma_sum_selected_toggle, Instance,
};
use crate::knapsack::Knapsack;
use vstd::arithmetic::div_mod::lemma_mod_multiples_basic;
use vstd::arithmetic::power2::{
    lemma2_to64, lemma2_to64_rest, lemma_pow2_pos, lemma_pow2_strictly_increases,
};
use vstd::bits::lemma_u64_shl_is_mul;
use vstd::prelude::*;

verus! {

/// What a search is, mathematically.
pub struct SearchView {
    /// The instance searched.
    pub instance: Instance,
    /// What the knapsack can carry.
    pub capacity: nat,
    /// The position of the visiting order that the search stands on.
    pub position: nat,
    /// The subset at that position.
    pub current: Set<nat>,
    /// The running totals of that subset.
    pub current_weight: nat,
    pub current_value: nat,
    /// The best feasible subset seen so far, and its value.
    pub best_subset: Set<nat>,
    pub max_value: nat,
}

impl SearchView {
    /// The last position of the visiting order.
    pub open spec fn last(self) -> nat {
        (subset_count(self.instance.items()) - 1) as nat
    }

    /// The search has seen every subset.
    pub open spec fn finished(self) -> bool {
        self.position == self.last()
    }

    /// What holds of a search in every state: it stands on a position of the
    /// visiting order, the subset it tracks is the one at that position, its
    /// running totals are the exact sums over that subset, and its best subset
    /// is the best among the positions up to its own.
    pub open spec fn wf(self) -> bool {
        &&& self.instance.wf()
        &&& self.instance.items() <= 64
        &&& self.position <= self.last()
        &&& self.current == subset_at(self.position)
        &&& self.current_weight == self.instance.weight_of(self.current)
        &&& self.current_value == self.instance.value_of(self.current)
        &&& self.instance.best_among(
            self.capacity,
            self.position,
            self.best_subset,
            self.max_value,
        )
    }
}

/// What `advance` asks of its caller.
#[derive(Copy, Clone, Debug, PartialEq, Eq, Structural)]
pub enum Progress {
    /// The search has reached this position and is to be reported there.
    Report(u64),
    /// The search has seen every subset.
    Finished,
}

/// The first position after `position` at which progress is reported, where
/// it is reported every `interval` positions.
pub open spec fn next_report(position: nat, interval: nat) -> nat {
    (position / interval + 1) * interval
}

/// How many positions lie between two progress reports, where `update_freq`
/// reports are wanted while `total_items` items are searched: the number of
/// subsets divided by `update_freq`, rounded down.
pub fn update_interval(total_items: usize, update_freq: u64) -> (interval: u128)
    requires
        total_items <= 64,
        update_freq > 0,
    ensures
        interval == subset_count(total_items as nat) / (update_freq as nat),
{
    let subsets: u128 = if total_items == 64 {
        proof {
            lemma2_to64();
        }
        0x1_0000_0000_0000_0000u128
    } else {
        proof {
            lemma_shift_is_count(total_items as nat);
        }
        (1u64 << total_items) as u128
    };
    subsets / (update_freq as u128)
}

/// Below 64 items the number of subsets is a one shifted left.
proof fn lemma_shift_is_count(items: nat)
    requires
        items < 64,
    ensures
        1u64 << (items as u64) == subset_count(items),
        subset_count(items) <= 0x8000_0000_0000_0000,
{
    lemma2_to64();
    lemma2_to64_rest();
    if items < 63 {
        lemma_pow2_strictly_increases(items, 63);
    }
    lemma_u64_shl_is_mul(1, items as u64);
}

/// An exhaustive search of one instance for one capacity.
pub struct Search<'a> {
    knapsack: &'a Knapsack,
    capacity: u64,
    last: u64,
    position: u64,
    current: BitString,
    current_weight: u64,
    current_value: u64,
    max_value: u64,
    best_subset: BitString,
}

impl<'a> View for Search<'a> {
    type V = SearchView;

    closed spec fn view(&self) -> SearchView {
        SearchView {
            instance: self.knapsack@,
            capacity: self.capacity as nat,
            position: self.position as nat,
            current: self.current@,
            current_weight: self.current_weight as nat,
            current_value: self.current_value as nat,
            best_subset: self.best_subset@,
            max_value: self.max_value as nat,
        }
    }
}

impl<'a> Search<'a> {
    #[verifier::type_invariant]
    spec fn inv(self) -> bool {
        &&& self@.wf()
        &&& self.last == self@.last()
        &&& self.current.data == gray_code(self.position)
    }

    /// A search of `knapsack` that stands on the empty subset, its best so far.
    pub fn new(knapsack: &'a Knapsack, capacity: u64) -> (search: Self)
        requires
            knapsack@.items() <= 64,
        ensures
            search@.wf(),
            search@.instance == knapsack@,
            search@.capacity == capacity,
            search@.position == 0,
            search@.best_subset == Set::<nat>::empty(),
            search@.max_value == 0,
    {
        let total: usize = knapsack.total_items();
        let last: u64 = if total == 64 {
            proof {
                lemma2_to64();
            }
            u64::MAX
        } else {
            proof {
                lemma_shift_is_count(total as nat);
                lemma_pow2_pos(total as nat);
            }
            (1u64 << total) - 1
        };
        let start: BitString = BitString::new(0);
        proof {
            lemma2_to64();
            lemma_pow2_pos(total as nat);
            lemma_subset_at_within(0, total as nat);
            lemma_position_of_subset_at(0);
            lemma_empty_is_feasible(knapsack@, capacity as nat);
            assert(gray_code(0) == 0) by (bit_vector);
        }
        Search {
            knapsack,
            capacity,
            last,
            position: 0,
            current: start,
            current_weight: 0,
            current_value: 0,
            max_value: 0,
            best_subset: start,
        }
    }

    /// The position that the search stands on.
    pub fn position(&self) -> (position: u64)
        ensures
            position == self@.position,
    {
        self.position
    }

    /// The subset at that position.
    pub fn current(&self) -> (current: BitString)
        ensures
            current@ == self@.current,
    {
        self.current
    }

    /// The weight of that subset.
    pub fn current_weight(&self) -> (weight: u64)
        ensures
            weight == self@.current_weight,
    {
        self.current_weight
    }

    /// The value of that subset.
    pub fn current_value(&self) -> (value: u64)
        ensures
            value == self@.current_value,
    {
        self.current_value
    }

    /// Whether the search has seen every subset.
    pub fn finished(&self) -> (done: bool)
        ensures
            self@.wf(),
            done == self@.finished(),
    {
        proof {
            use_type_invariant(self);
        }
        self.position == self.last
    }

    /// The best feasible subset seen so far, and its value. Once the search
    /// has finished, this is the optimum.
    pub fn result(&self) -> (best: (BitString, u64))
        ensures
            self@.wf(),
            best.0@ == self@.best_subset,
            best.1 == self@.max_value,
            self@.finished() ==> self@.instance.optimum(self@.capacity, best.0@, best.1 as nat),
    {
        proof {
            use_type_invariant(self);
            if self@.finished() {
                lemma_best_among_all_is_optimum(
                    self@.instance,
                    self@.capacity,
                    self@.best_subset,
                    self@.max_value,
                );
            }
        }
        (self.best_subset, self.max_value)
    }

    /// Moves to the next position: toggles the one item in which the next
    /// subset differs, adds or subtracts that item's weight and value, and
    /// takes the new subset for the best one if it is feasible and worth more
    /// than the best so far.
    pub fn step(&mut self)
        requires
            !old(self)@.finished(),
        ensures
            final(self)@.wf(),
            final(self)@.instance == old(self)@.instance,
            final(self)@.capacity == old(self)@.capacity,
            final(self)@.position == old(self)@.position + 1,
            final(self)@.current == toggled(
                old(self)@.current,
                toggled_index(final(self)@.position),
            ),
    {
        proof {
            use_type_invariant(&*self);
        }
        let ghost instance = self@.instance;
        let ghost items: nat = instance.items();
        let ghost before = self@;
        let total: usize = self.knapsack.total_items();
        let next: u64 = self.position + 1;
        proof {
            lemma2_to64();
            lemma_pow2_pos(items);
            lemma_single_toggle(next as nat, items);
            lemma_subset_at_within(next as nat, items);
            lemma_sum_selected_bound(instance.weights, before.current);
            lemma_sum_selected_bound(instance.values, before.current);
            lemma_sum_selected_toggle(instance.weights, before.current, toggled_index(next as nat));
            lemma_sum_selected_toggle(instance.values, before.current, toggled_index(next as nat));
        }
        let lsb: usize = BitString::new(next).least_significant_bit();
        let mut current: BitString = self.current;
        current.flip_bit(lsb);
        let mut current_weight: u64 = self.current_weight;
        let mut current_value: u64 = self.current_value;
        if current.is_bit_set(lsb) {
            current_weight += self.knapsack.weight(lsb) as u64;
            current_value += self.knapsack.value(lsb) as u64;
        } else {
            current_weight -= self.knapsack.weight(lsb) as u64;
            current_value -= self.knapsack.value(lsb) as u64;
        }
        let mut max_value: u64 = self.max_value;
        let mut best_subset: BitString = self.best_subset;
        if current_weight <= self.capacity && max_value < current_value {
            max_value = current_value;
            best_subset = current;
        }
        proof {
            lemma_position_of_subset_at(next as nat);
            assert forall|position: nat|
                position <= next && instance.weight_of(#[trigger] subset_at(position))
                    <= self.capacity implies {
                &&& instance.value_of(subset_at(position)) <= max_value
                &&& instance.value_of(subset_at(position)) == max_value ==> visit_position(
                    best_subset@,
                ) <= position
            } by {
                if position < next {
                    assert(position <= before.position);
                }
            }
        }
        *self =
        Search {
            knapsack: self.knapsack,
            capacity: self.capacity,
            last: self.last,
            position: next,
            current,
            current_weight,
            current_value,
            max_value,
            best_subset,
        };
    }

    /// Runs the search up to the next position at which progress is to be
    /// reported, where it is reported every `interval` positions, and says so;
    /// or, where no such position is left, to the end. With an `interval` of
    /// zero nothing is ever reported. The search never moves backwards, and a
    /// reported position is a later one, a multiple of `interval`.
    pub fn advance(&mut self, interval: u128) -> (progress: Progress)
        ensures
            final(self)@.wf(),
            final(self)@.instance == old(self)@.instance,
            final(self)@.capacity == old(self)@.capacity,
            old(self)@.position <= final(self)@.position <= old(self)@.last(),
            progress matches Progress::Report(position) ==> old(self)@.position < position
                && position as nat % (interval as nat) == 0,
            interval > 0 && next_report(old(self)@.position, interval as nat) <= old(self)@.last()
                ==> final(self)@.position == next_report(old(self)@.position, interval as nat)
                && progress == Progress::Report(final(self)@.position as u64),
            !(interval > 0 && next_report(old(self)@.position, interval as nat) <= old(
                self,
            )@.last()) ==> final(self)@.finished() && progress == Progress::Finished,
    {
        proof {
            use_type_invariant(&*self);
        }
        let mut target: u64 = self.last;
        let mut report: bool = false;
        let position: u128 = self.position as u128;
        proof {
            lemma_pow2_pos(self@.instance.items());
            if interval > 0 {
                assert(position < (position / interval + 1) * interval <= position + interval
                    && interval <= (position / interval + 1) * interval) by (nonlinear_arith)
                    requires
                        interval > 0,
                        position >= 0,
                ;
                lemma_mod_multiples_basic((position / interval + 1) as int, interval as int);
            }
        }
        if 0 < interval && interval <= self.last as u128 {
            let due: u128 = (position / interval + 1) * interval;
            if due <= self.last as u128 {
                target = due as u64;
                report = true;
            }
        }
        while self.position < target
            invariant
                self@.wf(),
                self@.instance == old(self)@.instance,
                self@.capacity == old(self)@.capacity,
                self.position <= target <= self@.last(),
                self.position == self@.position,
            decreases target - self.position,
        {
            self.step();
        }
        if report {
            Progress::Report(target)
        } else {
            Progress::Finished
        }
    }
}

} // verus!
