//! A set of item indices below 64, held in one `u64`.
use vstd::arithmetic::div_mod::{lemma_basic_div, lemma_small_div_converse};
use vstd::arithmetic::power2::{lemma2_to64, lemma_pow2_pos, pow2};
use vstd::bits::lemma_u64_shr_is_div;
use vstd::prelude::*;
use vstd::std_specs::bits::{axiom_u64_trailing_zeros, u64_trailing_zeros};

verus! {

/// Whether bit `index` of `data` is one. There is no bit from index 64 on.
pub open spec fn bit_at(data: u64, index: nat) -> bool {
    index < 64 && (data >> (index as u64)) & 1 == 1
}

/// The indices of the one bits of `data`.
pub open spec fn bits_of(data: u64) -> Set<nat> {
    Set::new(|index: nat| bit_at(data, index))
}

/// `chosen` with the membership of `index` reversed.
pub open spec fn toggled(chosen: Set<nat>, index: nat) -> Set<nat> {
    if chosen.contains(index) {
        chosen.remove(index)
    } else {
        chosen.insert(index)
    }
}

/// Every member of `chosen` is an index below `items`.
pub open spec fn within(chosen: Set<nat>, items: nat) -> bool {
    forall|index: nat| chosen.contains(index) ==> index < items
}

/// A subset of the indices `0..64`: bit `i` is one exactly when `i` belongs to it.
#[derive(Copy, Clone)]
pub struct BitString {
    pub data: u64,
}

impl View for BitString {
    type V = Set<nat>;

    open spec fn view(&self) -> Set<nat> {
        bits_of(self.data)
    }
}

impl BitString {
    pub fn new(data: u64) -> (created: Self)
        ensures
            created.data == data,
    {
        Self { data }
    }

    /// Membership test.
    pub fn is_bit_set(&self, index: usize) -> (set: bool)
        requires
            index < 64,
        ensures
            set == self@.contains(index as nat),
    {
        let data: u64 = self.data;
        assert((data & (1u64 << index) != 0) == ((data >> index) & 1 == 1)) by (bit_vector)
            requires
                index < 64,
        ;
        (self.data & (1u64 << index)) != 0
    }

    /// The least member. The empty set has none.
    pub fn least_significant_bit(&self) -> (index: usize)
        requires
            self.data != 0,
        ensures
            index < 64,
            index == u64_trailing_zeros(self.data),
            self@.contains(index as nat),
            forall|lower: nat| lower < index ==> !self@.contains(lower),
    {
        proof {
            axiom_u64_trailing_zeros(self.data);
        }
        let zeros: u32 = self.data.trailing_zeros();
        assert forall|lower: nat| lower < zeros implies !self@.contains(lower) by {
            let shift: u64 = lower as u64;
            assert((self.data >> shift) & 1u64 == 0u64);
        }
        zeros as usize
    }

    /// Puts `index` in if it is out, and takes it out if it is in.
    pub fn flip_bit(&mut self, index: usize)
        requires
            index < 64,
        ensures
            final(self).data == old(self).data ^ (1u64 << index),
            final(self)@ == toggled(old(self)@, index as nat),
    {
        proof {
            lemma_flip(self.data, index as nat);
        }
        self.data ^= 1u64 << index;
    }
}

/// Flipping one bit reverses the membership of its index and of no other.
pub proof fn lemma_flip(data: u64, index: nat)
    requires
        index < 64,
    ensures
        bits_of(data ^ (1u64 << (index as u64))) == toggled(bits_of(data), index),
{
    let flipped: u64 = data ^ (1u64 << (index as u64));
    let at: u64 = index as u64;
    assert forall|other: nat|
        bit_at(flipped, other) == (if other == index {
            !bit_at(data, other)
        } else {
            bit_at(data, other)
        }) by {
        if other < 64 {
            let probe: u64 = other as u64;
            assert(((data ^ (1u64 << at)) >> probe) & 1 == 1 <==> (if probe == at {
                !((data >> probe) & 1 == 1)
            } else {
                (data >> probe) & 1 == 1
            })) by (bit_vector)
                requires
                    at < 64,
                    probe < 64,
            ;
        }
    }
    assert(bits_of(flipped) =~= toggled(bits_of(data), index));
}

/// The zero word is the empty set, and no other word is.
pub proof fn lemma_empty(data: u64)
    ensures
        data == 0 <==> bits_of(data) == Set::<nat>::empty(),
{
    if data == 0 {
        assert forall|index: nat| !bit_at(0u64, index) by {
            if index < 64 {
                let probe: u64 = index as u64;
                assert((0u64 >> probe) & 1 == 0) by (bit_vector);
            }
        }
        assert(bits_of(data) =~= Set::<nat>::empty());
    } else {
        axiom_u64_trailing_zeros(data);
        let lowest: nat = u64_trailing_zeros(data) as nat;
        assert(bit_at(data, lowest));
        assert(bits_of(data).contains(lowest));
    }
}

/// Two words with the same one bits are the same word.
pub proof fn lemma_bits_injective(left: u64, right: u64)
    requires
        bits_of(left) == bits_of(right),
    ensures
        left == right,
{
    if left != right {
        let differ: u64 = left ^ right;
        assert(differ != 0) by (bit_vector)
            requires
                differ == left ^ right,
                left != right,
        ;
        axiom_u64_trailing_zeros(differ);
        let lowest: u64 = u64_trailing_zeros(differ) as u64;
        assert(((left >> lowest) & 1 == 1) != ((right >> lowest) & 1 == 1)) by (bit_vector)
            requires
                lowest < 64,
                ((left ^ right) >> lowest) & 1 == 1,
        ;
        assert(bits_of(left).contains(lowest as nat) == bit_at(left, lowest as nat));
        assert(bits_of(right).contains(lowest as nat) == bit_at(right, lowest as nat));
    }
}

/// Below 64 bits, a word lies below `2^width` exactly when shifting it right by
/// `width` leaves nothing.
pub proof fn lemma_below_iff_shifted_out(data: u64, width: nat)
    requires
        width < 64,
    ensures
        data < pow2(width) <==> data >> (width as u64) == 0,
{
    lemma_pow2_pos(width);
    lemma_u64_shr_is_div(data, width as u64);
    if data < pow2(width) {
        lemma_basic_div(data as int, pow2(width) as int);
    } else {
        lemma_small_div_converse(data as int, pow2(width) as int);
    }
}

/// A word lies below `2^items` exactly when all its one bits lie below `items`.
pub proof fn lemma_within_iff_below(data: u64, items: nat)
    requires
        items <= 64,
    ensures
        within(bits_of(data), items) <==> data < pow2(items),
{
    lemma2_to64();
    if items < 64 {
        let width: u64 = items as u64;
        lemma_below_iff_shifted_out(data, items);
        if data < pow2(items) {
            assert forall|index: nat| bits_of(data).contains(index) implies index < items by {
                if index >= items {
                    let probe: u64 = index as u64;
                    assert((data >> probe) & 1 == 0) by (bit_vector)
                        requires
                            data >> width == 0,
                            width <= probe < 64,
                    ;
                }
            }
        }
        if within(bits_of(data), items) {
            let high: u64 = data >> width;
            if high != 0 {
                axiom_u64_trailing_zeros(high);
                let lowest: u64 = u64_trailing_zeros(high) as u64;
                let probe: u64 = (width + lowest) as u64;
                assert(probe < 64 && (data >> probe) & 1 == 1) by (bit_vector)
                    requires
                        width < 64,
                        lowest < 64,
                        ((data >> width) >> lowest) & 1 == 1,
                        probe == width + lowest,
                ;
                assert(bits_of(data).contains(probe as nat));
            }
        }
    }
}

/// The word whose one bits are the members of `chosen` below `width`.
pub open spec fn code_of(chosen: Set<nat>, width: nat) -> u64
    decreases width,
{
    if width == 0 {
        0
    } else {
        let low: u64 = code_of(chosen, (width - 1) as nat);
        if chosen.contains((width - 1) as nat) {
            low | (1u64 << ((width - 1) as u64))
        } else {
            low
        }
    }
}

/// `code_of` keeps the members below `width` and nothing else.
pub proof fn lemma_code_of(chosen: Set<nat>, width: nat)
    requires
        width <= 64,
    ensures
        forall|index: nat| #[trigger]
            bit_at(code_of(chosen, width), index) <==> index < width && chosen.contains(index),
    decreases width,
{
    if width == 0 {
        lemma_empty(0);
        assert forall|index: nat| !bit_at(code_of(chosen, width), index) by {
            assert(bits_of(0).contains(index) == bit_at(0, index));
        }
    } else {
        let top: nat = (width - 1) as nat;
        let low: u64 = code_of(chosen, top);
        lemma_code_of(chosen, top);
        assert forall|index: nat| #[trigger]
            bit_at(code_of(chosen, width), index) <==> index < width && chosen.contains(
                index,
            ) by {
            if index < 64 {
                let probe: u64 = index as u64;
                let at: u64 = top as u64;
                assert(((low | (1u64 << at)) >> probe) & 1 == 1 <==> probe == at || (low >> probe)
                    & 1 == 1) by (bit_vector)
                    requires
                        at < 64,
                        probe < 64,
                ;
                assert(bit_at(low, index) <==> index < top && chosen.contains(index));
            }
        }
    }
}

/// Every set of indices below 64 is the view of exactly one word.
pub proof fn lemma_every_subset_has_code(chosen: Set<nat>)
    requires
        within(chosen, 64),
    ensures
        bits_of(code_of(chosen, 64)) == chosen,
{
    lemma_code_of(chosen, 64);
    assert(bits_of(code_of(chosen, 64)) =~= chosen);
}

} // verus!
