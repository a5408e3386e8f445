use resonance::history::History;

#[test]
fn history_starts_filled_with_initial_values() {
    let h = History::new(&vec![1.5f64, 2.5, 3.5], 4);
    assert_eq!(h.size(), 3);
    assert_eq!(h.depth(), 4);
    for i in 0..3 {
        for d in 0..4 {
            assert_eq!(h.get(i, d), [1.5, 2.5, 3.5][i]);
        }
    }
}

#[test]
fn history_commit_shifts_back_one_slot() {
    let mut h = History::new(&vec![0u32, 10], 3);
    h.commit(&vec![1, 11]);
    h.commit(&vec![2, 12]);
    assert_eq!((h.get(0, 0), h.get(0, 1), h.get(0, 2)), (2, 1, 0));
    assert_eq!((h.get(1, 0), h.get(1, 1), h.get(1, 2)), (12, 11, 10));
    h.commit(&vec![3, 13]);
    assert_eq!((h.get(0, 0), h.get(0, 1), h.get(0, 2)), (3, 2, 1));
}

#[test]
fn history_reset_node_touches_only_that_node() {
    let mut h = History::new(&vec![0i64, 10, 20], 2);
    h.commit(&vec![1, 11, 21]);
    h.reset_node(1, 99);
    assert_eq!((h.get(1, 0), h.get(1, 1)), (99, 99));
    assert_eq!((h.get(0, 0), h.get(0, 1)), (1, 0));
    assert_eq!((h.get(2, 0), h.get(2, 1)), (21, 20));
}

#[test]
fn history_depth_one_keeps_only_newest() {
    let mut h = History::new(&vec![5u8], 1);
    h.commit(&vec![6]);
    assert_eq!(h.get(0, 0), 6);
}
