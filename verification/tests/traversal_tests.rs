use dense_store::store::UnboundedSizeDenseStore;

/// Record `count` for `index`: ignore non-positive counts, then accumulate.
fn add_to(store: &mut UnboundedSizeDenseStore, index: i32, count: f64) {
    if count <= 0.0 {
        return;
    }
    let position = store.normalize(index);
    let current = f64::from_bits(store.get_count(position as i32));
    store.set_count(position, (current + count).to_bits());
}

/// Merge a signed bin adjustment: only an exactly-zero weight is ignored.
fn add_bin_to(store: &mut UnboundedSizeDenseStore, bin: (i32, f64)) {
    if bin.1 == 0.0 {
        return;
    }
    let position = store.normalize(bin.0);
    let current = f64::from_bits(store.get_count(position as i32));
    store.set_count(position, (current + bin.1).to_bits());
}

#[test]
fn ascending_is_increasing_and_reverse_of_descending() {
    let mut store = UnboundedSizeDenseStore::new();
    for (index, count) in [(12, 1.0), (-40, 2.0), (3, 0.25), (999, 4.0), (-41, 8.0)] {
        add_to(&mut store, index, count);
    }
    let ascending = store.get_ascending_stream();
    let descending = store.get_descending_stream();

    for pair in ascending.windows(2) {
        assert!(pair[0].0 < pair[1].0);
    }
    let mut reversed = descending.clone();
    reversed.reverse();
    assert_eq!(ascending, reversed);

    let indices: Vec<i32> = ascending.iter().map(|&(index, _)| index).collect();
    assert_eq!(indices, vec![-41, -40, 3, 12, 999]);
}

#[test]
fn traversals_omit_zero_count_buckets() {
    let mut store = UnboundedSizeDenseStore::new();
    add_to(&mut store, 1, 1.0);
    add_to(&mut store, 2, 2.0);
    add_to(&mut store, 5, 4.0);
    // Cancel bucket 2 exactly; its cell returns to the zero state.
    add_bin_to(&mut store, (2, -2.0));

    let indices: Vec<i32> = store
        .get_ascending_stream()
        .iter()
        .map(|&(index, _)| index)
        .collect();
    assert_eq!(indices, vec![1, 5]);
}

#[test]
fn traversals_of_an_empty_store_are_empty() {
    let store = UnboundedSizeDenseStore::new();
    assert_eq!(store.get_ascending_stream(), vec![]);
    assert_eq!(store.get_descending_stream(), vec![]);
    let mut iter = store.get_ascending_iter();
    assert_eq!(iter.next(), None);
}

#[test]
fn iterators_hand_out_each_bin_once() {
    let mut store = UnboundedSizeDenseStore::new();
    add_to(&mut store, -1, 1.5);
    add_to(&mut store, 8, 2.5);

    let mut ascending = store.get_ascending_iter();
    assert_eq!(ascending.next(), Some((-1, (1.5f64).to_bits())));
    assert_eq!(ascending.next(), Some((8, (2.5f64).to_bits())));
    assert_eq!(ascending.next(), None);
    // One-shot: once exhausted it stays exhausted.
    assert_eq!(ascending.next(), None);

    let mut descending = store.get_descending_iter();
    assert_eq!(descending.next(), Some((8, (2.5f64).to_bits())));
    assert_eq!(descending.next(), Some((-1, (1.5f64).to_bits())));
    assert_eq!(descending.next(), None);
}
