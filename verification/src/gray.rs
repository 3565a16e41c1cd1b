//! The order in which the search visits the subsets: the binary-reflected
//! Gray code. Position 0 is the empty set; each later position differs from
//! the one before it in a single index.
use crate::bitstring::{
    bit_at, bits_of, code_of, lemma_below_iff_shifted_out, lemma_bits_injective, lemma_empty,
    lemma_every_subset_has_code, lemma_flip, lemma_within_iff_below, toggled, within,
};
use vstd::arithmetic::power2::{lemma2_to64, lemma_pow2_strictly_increases, pow2};
use vstd::prelude::*;
use vstd::std_specs::bits::{axiom_u64_trailing_zeros, u64_trailing_zeros};

verus! {

/// The `index`-th word of the binary-reflected Gray code.
pub open spec fn gray_code(index: u64) -> u64 {
    index ^ (index >> 1)
}

/// The subset that stands at `position` of the visiting order.
pub open spec fn subset_at(position: nat) -> Set<nat> {
    bits_of(gray_code(position as u64))
}

/// How many subsets `items` items have.
pub open spec fn subset_count(items: nat) -> nat {
    pow2(items)
}

/// The position at which `chosen` stands in the visiting order.
pub open spec fn visit_position(chosen: Set<nat>) -> nat {
    choose|position: nat| position < subset_count(64) && subset_at(position) == chosen
}

/// The index toggled on the way from `position - 1` to `position`: the lowest
/// one bit of `position`.
pub open spec fn toggled_index(position: nat) -> nat {
    u64_trailing_zeros(position as u64) as nat
}

/// The xor of each bit with all the bits above it, which undoes `gray_code`.
spec fn prefix_xor(code: u64) -> u64 {
    let by1: u64 = code ^ (code >> 1);
    let by2: u64 = by1 ^ (by1 >> 2);
    let by4: u64 = by2 ^ (by2 >> 4);
    let by8: u64 = by4 ^ (by4 >> 8);
    let by16: u64 = by8 ^ (by8 >> 16);
    by16 ^ (by16 >> 32)
}

proof fn lemma_prefix_xor_inverts(word: u64)
    ensures
        gray_code(prefix_xor(word)) == word,
        prefix_xor(gray_code(word)) == word,
{
    assert(gray_code(prefix_xor(word)) == word) by (bit_vector);
    assert(prefix_xor(gray_code(word)) == word) by (bit_vector);
}

proof fn lemma_prefix_xor_keeps_width(word: u64, width: u64)
    requires
        width < 64,
    ensures
        word >> width == 0 <==> gray_code(word) >> width == 0,
{
    assert(word >> width == 0 ==> gray_code(word) >> width == 0) by (bit_vector)
        requires
            width < 64,
    ;
    let code: u64 = gray_code(word);
    assert(code >> width == 0 ==> prefix_xor(code) >> width == 0) by (bit_vector)
        requires
            width < 64,
    ;
    lemma_prefix_xor_inverts(word);
}

/// With `items` items, the positions below `2^items` and the words below
/// `2^items` are matched one to one by `gray_code`.
proof fn lemma_gray_code_below(index: u64, items: nat)
    requires
        items <= 64,
    ensures
        index < pow2(items) <==> gray_code(index) < pow2(items),
{
    lemma2_to64();
    if items < 64 {
        lemma_below_iff_shifted_out(index, items);
        lemma_below_iff_shifted_out(gray_code(index), items);
        lemma_prefix_xor_keeps_width(index, items as u64);
    }
}

/// A position below `2^items` names a subset of the first `items` indices, and
/// only position 0 names the empty one.
pub proof fn lemma_subset_at_within(position: nat, items: nat)
    requires
        items <= 64,
        position < subset_count(items),
    ensures
        within(subset_at(position), items),
        position == 0 <==> subset_at(position) == Set::<nat>::empty(),
{
    lemma2_to64();
    if items < 64 {
        lemma_pow2_strictly_increases(items, 64);
    }
    let index: u64 = position as u64;
    lemma_gray_code_below(index, items);
    lemma_within_iff_below(gray_code(index), items);
    lemma_empty(gray_code(index));
    assert(index == 0 <==> gray_code(index) == 0) by (bit_vector);
}

/// No subset stands at two positions.
pub proof fn lemma_subset_at_injective(first: nat, second: nat)
    requires
        first < subset_count(64),
        second < subset_count(64),
        subset_at(first) == subset_at(second),
    ensures
        first == second,
{
    lemma2_to64();
    lemma_bits_injective(gray_code(first as u64), gray_code(second as u64));
    lemma_prefix_xor_inverts(first as u64);
    lemma_prefix_xor_inverts(second as u64);
}

/// Every subset of the first `items` indices stands at a position below
/// `2^items`, which `visit_position` names.
pub proof fn lemma_visit_position(chosen: Set<nat>, items: nat)
    requires
        items <= 64,
        within(chosen, items),
    ensures
        visit_position(chosen) < subset_count(items),
        subset_at(visit_position(chosen)) == chosen,
{
    lemma2_to64();
    let code: u64 = code_of(chosen, 64);
    lemma_every_subset_has_code(chosen);
    let witness: u64 = prefix_xor(code);
    lemma_prefix_xor_inverts(code);
    assert(witness < subset_count(64) && subset_at(witness as nat) == chosen);
    let position: nat = visit_position(chosen);
    lemma_subset_at_injective(position, witness as nat);
    lemma_within_iff_below(code, items);
    lemma_gray_code_below(witness, items);
}

/// `visit_position` undoes `subset_at`.
pub proof fn lemma_position_of_subset_at(position: nat)
    requires
        position < subset_count(64),
    ensures
        visit_position(subset_at(position)) == position,
{
    lemma_subset_at_within(position, 64);
    lemma_visit_position(subset_at(position), 64);
    lemma_subset_at_injective(visit_position(subset_at(position)), position);
}

/// The visiting order is exhaustive. With `items` items, the positions from 1
/// to `2^items - 1` hold each non-empty subset of the first `items` indices
/// exactly once: each position holds such a subset, no two positions hold the
/// same, and each such subset is held by one of them.
pub proof fn lemma_visits_each_subset_once(items: nat)
    requires
        items <= 64,
    ensures
        forall|position: nat|
            0 < position < subset_count(items) ==> within(#[trigger] subset_at(position), items)
                && subset_at(position) != Set::<nat>::empty(),
        forall|first: nat, second: nat|
            first < subset_count(items) && second < subset_count(items) && #[trigger] subset_at(
                first,
            ) == #[trigger] subset_at(second) ==> first == second,
        forall|chosen: Set<nat>|
            within(chosen, items) && chosen != Set::<nat>::empty() ==> 0 < #[trigger] visit_position(
                chosen,
            ) < subset_count(items) && subset_at(visit_position(chosen)) == chosen,
{
    lemma2_to64();
    if items < 64 {
        lemma_pow2_strictly_increases(items, 64);
    }
    assert forall|position: nat| 0 < position < subset_count(items) implies within(
        #[trigger] subset_at(position),
        items,
    ) && subset_at(position) != Set::<nat>::empty() by {
        lemma_subset_at_within(position, items);
    }
    assert forall|first: nat, second: nat|
        first < subset_count(items) && second < subset_count(items) && #[trigger] subset_at(first)
            == #[trigger] subset_at(second) implies first == second by {
        lemma_subset_at_injective(first, second);
    }
    assert forall|chosen: Set<nat>|
        within(chosen, items) && chosen != Set::<nat>::empty() implies 0 < #[trigger] visit_position(
        chosen,
    ) < subset_count(items) && subset_at(visit_position(chosen)) == chosen by {
        lemma_visit_position(chosen, items);
        lemma_subset_at_within(visit_position(chosen), items);
    }
}

/// One step of the visiting order toggles one index and leaves the others as
/// they were: the subset at `position` is the subset before it with the
/// membership of `toggled_index(position)` reversed. With `items` items that
/// index lies below `items`.
pub proof fn lemma_single_toggle(position: nat, items: nat)
    requires
        items <= 64,
        0 < position < subset_count(items),
    ensures
        toggled_index(position) < items,
        gray_code(position as u64) == gray_code((position - 1) as u64) ^ (1u64 << (toggled_index(
            position,
        ) as u64)),
        subset_at(position) == toggled(subset_at((position - 1) as nat), toggled_index(position)),
        forall|index: nat|
            subset_at(position).contains(index) != subset_at((position - 1) as nat).contains(index)
                <==> index == toggled_index(position),
{
    lemma2_to64();
    if items < 64 {
        lemma_pow2_strictly_increases(items, 64);
    }
    let index: u64 = position as u64;
    let before: u64 = (position - 1) as u64;
    axiom_u64_trailing_zeros(index);
    let zeros: u64 = u64_trailing_zeros(index) as u64;
    let cleared: u64 = (64 - zeros) as u64;
    assert(gray_code(index) == gray_code(before) ^ (1u64 << zeros)) by (bit_vector)
        requires
            index != 0,
            before == index - 1,
            zeros < 64,
            cleared == 64 - zeros,
            (index >> zeros) & 1 == 1,
            index << cleared == 0,
    ;
    assert(bit_at(index, zeros as nat));
    assert(bits_of(index).contains(zeros as nat));
    lemma_within_iff_below(index, items);
    lemma_flip(gray_code(before), zeros as nat);
}

} // verus!
