use gray_knapsack::bitstring::BitString;
use gray_knapsack::knapsack::{Item, Knapsack};

fn scenario() -> Knapsack {
    let mut knapsack = Knapsack::new(3);
    knapsack.set_item(0, 2, 3);
    knapsack.set_item(1, 3, 4);
    knapsack.set_item(2, 4, 5);
    knapsack
}

#[test]
fn new_instance_is_all_zero() {
    let knapsack = Knapsack::new(5);
    assert_eq!(knapsack.total_items(), 5);
    for index in 0..5 {
        assert_eq!(knapsack.weight(index), 0);
        assert_eq!(knapsack.value(index), 0);
    }
}

#[test]
fn new_instance_may_be_empty() {
    let knapsack = Knapsack::new(0);
    assert_eq!(knapsack.total_items(), 0);
    assert!(knapsack.weights_and_values().is_empty());
}

#[test]
fn set_item_changes_one_item() {
    let mut knapsack = Knapsack::new(3);
    knapsack.set_item(1, 7, 9);
    assert_eq!(knapsack.total_items(), 3);
    assert_eq!((knapsack.weight(0), knapsack.value(0)), (0, 0));
    assert_eq!((knapsack.weight(1), knapsack.value(1)), (7, 9));
    assert_eq!((knapsack.weight(2), knapsack.value(2)), (0, 0));
}

#[test]
fn initialize_values_stays_in_range() {
    let mut knapsack = Knapsack::new(40);
    knapsack.initialize_values(50..=100, 100..=500);
    assert_eq!(knapsack.total_items(), 40);
    for index in 0..40 {
        assert!((50..=100).contains(&knapsack.weight(index)));
        assert!((100..=500).contains(&knapsack.value(index)));
    }
}

#[test]
fn initialize_values_with_single_point_ranges() {
    let mut knapsack = Knapsack::new(8);
    knapsack.initialize_values(17..=17, 65535..=65535);
    for index in 0..8 {
        assert_eq!(knapsack.weight(index), 17);
        assert_eq!(knapsack.value(index), 65535);
    }
}

#[test]
fn initialize_values_with_full_range() {
    let mut knapsack = Knapsack::new(16);
    knapsack.initialize_values(0..=u16::MAX, 0..=u16::MAX);
    assert_eq!(knapsack.total_items(), 16);
}

#[test]
fn initialize_values_draws_more_than_one_number() {
    let mut knapsack = Knapsack::new(64);
    knapsack.initialize_values(0..=u16::MAX, 0..=u16::MAX);
    let first = knapsack.weight(0);
    let mut differs = false;
    for index in 1..64 {
        differs = differs || knapsack.weight(index) != first;
    }
    assert!(differs);
}

#[test]
fn initialize_values_on_empty_instance() {
    let mut knapsack = Knapsack::new(0);
    knapsack.initialize_values(1..=2, 3..=4);
    assert_eq!(knapsack.total_items(), 0);
}

#[test]
fn weights_and_values_lists_every_item() {
    let items = scenario().weights_and_values();
    assert_eq!(
        items,
        vec![
            Item { index: 0, weight: 2, value: 3 },
            Item { index: 1, weight: 3, value: 4 },
            Item { index: 2, weight: 4, value: 5 },
        ]
    );
}

#[test]
fn best_subset_items_lists_the_members() {
    let knapsack = scenario();
    assert_eq!(
        knapsack.best_subset_items(BitString::new(0b101)),
        vec![Item { index: 0, weight: 2, value: 3 }, Item { index: 2, weight: 4, value: 5 }]
    );
    assert_eq!(
        knapsack.best_subset_items(BitString::new(0b010)),
        vec![Item { index: 1, weight: 3, value: 4 }]
    );
    assert!(knapsack.best_subset_items(BitString::new(0)).is_empty());
    assert_eq!(knapsack.best_subset_items(BitString::new(0b111)), knapsack.weights_and_values());
}

#[test]
fn best_subset_items_ignores_bits_beyond_the_items() {
    let knapsack = scenario();
    assert_eq!(
        knapsack.best_subset_items(BitString::new(0b1111_1010)),
        vec![Item { index: 1, weight: 3, value: 4 }]
    );
}
