use gray_knapsack::bitstring::BitString;

#[test]
fn new_keeps_the_word() {
    assert_eq!(BitString::new(0).data, 0);
    assert_eq!(BitString::new(0b1011).data, 0b1011);
    assert_eq!(BitString::new(u64::MAX).data, u64::MAX);
}

#[test]
fn is_bit_set_reads_each_bit() {
    let subset = BitString::new(0b1010);
    assert!(!subset.is_bit_set(0));
    assert!(subset.is_bit_set(1));
    assert!(!subset.is_bit_set(2));
    assert!(subset.is_bit_set(3));
    assert!(!subset.is_bit_set(63));
}

#[test]
fn is_bit_set_reaches_the_top_bit() {
    let subset = BitString::new(1u64 << 63);
    assert!(subset.is_bit_set(63));
    assert!(!subset.is_bit_set(62));
    assert!(!subset.is_bit_set(0));
}

#[test]
fn flip_bit_toggles_one_bit() {
    let mut subset = BitString::new(0);
    subset.flip_bit(2);
    assert_eq!(subset.data, 0b100);
    subset.flip_bit(0);
    assert_eq!(subset.data, 0b101);
    subset.flip_bit(2);
    assert_eq!(subset.data, 0b001);
    subset.flip_bit(63);
    assert_eq!(subset.data, (1u64 << 63) | 1);
}

#[test]
fn flip_bit_twice_restores() {
    for index in 0..64usize {
        let mut subset = BitString::new(0x0123_4567_89ab_cdef);
        subset.flip_bit(index);
        assert_ne!(subset.data, 0x0123_4567_89ab_cdef);
        subset.flip_bit(index);
        assert_eq!(subset.data, 0x0123_4567_89ab_cdef);
    }
}

#[test]
fn least_significant_bit_is_the_least_member() {
    assert_eq!(BitString::new(1).least_significant_bit(), 0);
    assert_eq!(BitString::new(0b1000).least_significant_bit(), 3);
    assert_eq!(BitString::new(0b1011_0000).least_significant_bit(), 4);
    assert_eq!(BitString::new(1u64 << 63).least_significant_bit(), 63);
    assert_eq!(BitString::new(u64::MAX).least_significant_bit(), 0);
}

#[test]
fn least_significant_bit_agrees_with_membership() {
    for data in 1..512u64 {
        let subset = BitString::new(data);
        let least = subset.least_significant_bit();
        assert!(subset.is_bit_set(least));
        for lower in 0..least {
            assert!(!subset.is_bit_set(lower));
        }
    }
}

#[test]
fn copies_are_independent() {
    let mut first = BitString::new(0b11);
    let second = first;
    first.flip_bit(0);
    assert_eq!(first.data, 0b10);
    assert_eq!(second.data, 0b11);
}
