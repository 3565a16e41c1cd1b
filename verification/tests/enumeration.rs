use gray_knapsack::knapsack::Knapsack;
use gray_knapsack::search::Search;

fn instance(items: usize) -> Knapsack {
    let mut knapsack = Knapsack::new(items);
    for index in 0..items {
        let weight = (7 * index + 3) as u16;
        let value = (11 * index + 5) as u16;
        knapsack.set_item(index, weight, value);
    }
    knapsack
}

fn visited(items: usize) -> Vec<u64> {
    let knapsack = instance(items);
    let mut search = Search::new(&knapsack, 100);
    let mut seen = vec![];
    while !search.finished() {
        search.step();
        seen.push(search.current().data);
    }
    seen
}

#[test]
fn search_starts_on_the_empty_subset() {
    let knapsack = instance(4);
    let search = Search::new(&knapsack, 10);
    assert_eq!(search.position(), 0);
    assert_eq!(search.current().data, 0);
    assert_eq!(search.current_weight(), 0);
    assert_eq!(search.current_value(), 0);
    assert!(!search.finished());
    let (best, value) = search.result();
    assert_eq!(best.data, 0);
    assert_eq!(value, 0);
}

#[test]
fn search_of_no_items_is_finished_at_once() {
    let knapsack = Knapsack::new(0);
    let search = Search::new(&knapsack, 10);
    assert!(search.finished());
    assert_eq!(search.position(), 0);
}

#[test]
fn visits_the_gray_code_of_three_items() {
    assert_eq!(visited(3), vec![0b001, 0b011, 0b010, 0b110, 0b111, 0b101, 0b100]);
}

#[test]
fn visits_one_subset_of_one_item() {
    assert_eq!(visited(1), vec![1]);
}

#[test]
fn visits_every_non_empty_subset_exactly_once() {
    for items in 0..=12usize {
        let mut seen = visited(items);
        assert_eq!(seen.len() as u64, (1u64 << items) - 1);
        seen.sort();
        let expected: Vec<u64> = (1..(1u64 << items)).collect();
        assert_eq!(seen, expected);
    }
}

#[test]
fn consecutive_subsets_differ_in_one_bit() {
    for items in 1..=12usize {
        let seen = visited(items);
        let mut before: u64 = 0;
        for subset in seen {
            assert_eq!((subset ^ before).count_ones(), 1);
            before = subset;
        }
    }
}

#[test]
fn step_toggles_the_lowest_one_bit_of_the_position() {
    let knapsack = instance(10);
    let mut search = Search::new(&knapsack, 100);
    while !search.finished() {
        let before = search.current().data;
        search.step();
        let toggled = search.position().trailing_zeros();
        assert_eq!(search.current().data, before ^ (1u64 << toggled));
    }
    assert_eq!(search.position(), 1023);
}

#[test]
fn running_totals_equal_the_full_sums() {
    for items in 0..=10usize {
        let knapsack = instance(items);
        let mut search = Search::new(&knapsack, 60);
        while !search.finished() {
            search.step();
            let current = search.current();
            let mut weight: u64 = 0;
            let mut value: u64 = 0;
            for index in 0..items {
                if current.is_bit_set(index) {
                    weight += knapsack.weight(index) as u64;
                    value += knapsack.value(index) as u64;
                }
            }
            assert_eq!(search.current_weight(), weight);
            assert_eq!(search.current_value(), value);
        }
    }
}

#[test]
fn running_totals_of_the_heaviest_items() {
    let mut knapsack = Knapsack::new(12);
    for index in 0..12 {
        knapsack.set_item(index, u16::MAX, u16::MAX);
    }
    let mut search = Search::new(&knapsack, u64::MAX);
    while !search.finished() {
        search.step();
        let members = search.current().data.count_ones() as u64;
        assert_eq!(search.current_weight(), members * 65535);
        assert_eq!(search.current_value(), members * 65535);
    }
    let (best, value) = search.result();
    assert_eq!(best.data, 0xfff);
    assert_eq!(value, 12 * 65535);
}

#[test]
fn best_so_far_is_kept_while_stepping() {
    let mut knapsack = Knapsack::new(3);
    knapsack.set_item(0, 2, 3);
    knapsack.set_item(1, 3, 4);
    knapsack.set_item(2, 4, 5);
    let mut search = Search::new(&knapsack, 5);
    let mut bests = vec![];
    while !search.finished() {
        search.step();
        let (best, value) = search.result();
        bests.push((best.data, value));
    }
    assert_eq!(
        bests,
        vec![(0b001, 3), (0b011, 7), (0b011, 7), (0b011, 7), (0b011, 7), (0b011, 7), (0b011, 7)]
    );
}
