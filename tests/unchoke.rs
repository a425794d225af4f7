use synapse::unchoke::{select_unchoked, DEFAULT_SLOTS};

#[test]
fn fastest_peers_and_one_optimistic_are_unchoked() {
    let rates = vec![5u64, 9, 1, 9, 3, 7];
    assert_eq!(select_unchoked(&rates, 2, 6), vec![false, true, false, true, true, false]);
    assert_eq!(select_unchoked(&rates, 2, 0), vec![true, true, false, true, false, false]);
}

#[test]
fn few_peers_are_all_unchoked() {
    let rates = vec![1u64, 2, 3];
    assert_eq!(select_unchoked(&rates, DEFAULT_SLOTS, 17), vec![true, true, true]);
    assert_eq!(select_unchoked(&Vec::new(), DEFAULT_SLOTS, 0), Vec::<bool>::new());
}

#[test]
fn equal_rates_rank_by_position() {
    let rates = vec![4u64, 4, 4, 4, 4, 4];
    assert_eq!(select_unchoked(&rates, 4, 1), vec![true, true, true, true, false, true]);
}
