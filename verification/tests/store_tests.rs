use dense_store::store::UnboundedSizeDenseStore;

/// Record `count` for `index` as the sketch layer does: ignore non-positive
/// counts, then accumulate onto the bucket's cell.
fn add_to(store: &mut UnboundedSizeDenseStore, index: i32, count: f64) {
    if count <= 0.0 {
        return;
    }
    let position = store.normalize(index);
    let current = f64::from_bits(store.get_count(position as i32));
    store.set_count(position, (current + count).to_bits());
}

/// Merge a signed bin adjustment: only an exactly-zero weight is ignored.
fn add_bin_to(store: &mut UnboundedSizeDenseStore, bin: (i32, f64)) {
    if bin.1 == 0.0 {
        return;
    }
    let position = store.normalize(bin.0);
    let current = f64::from_bits(store.get_count(position as i32));
    store.set_count(position, (current + bin.1).to_bits());
}

/// The accumulated weight at `index`, without mutating the store.
fn count_at(store: &UnboundedSizeDenseStore, index: i32) -> f64 {
    let position = index as i64 - store.get_offset();
    assert!(0 <= position && (position as usize) < store.get_length());
    f64::from_bits(store.get_count(position as i32))
}

/// Total weight over the bucket range `[from, to]`.
fn total_with_range(store: &UnboundedSizeDenseStore, from: i32, to: i32) -> f64 {
    store
        .cells_in_range(from, to)
        .iter()
        .map(|cell| f64::from_bits(*cell))
        .sum()
}

/// Total weight over the whole active range.
fn total(store: &UnboundedSizeDenseStore) -> f64 {
    total_with_range(store, store.get_min_index(), store.get_max_index())
}

#[test]
fn total_count_tracks_sum_and_extremes() {
    let mut store = UnboundedSizeDenseStore::new();
    let inserts = [(4, 0.5), (-2, 1.25), (4, 2.0), (100, 0.25), (-77, 4.0)];
    let mut expected = 0.0;
    for (index, count) in inserts {
        add_to(&mut store, index, count);
        expected += count;
    }
    assert!((total(&store) - expected).abs() < 1e-9);
    assert_eq!(store.get_min_index(), -77);
    assert_eq!(store.get_max_index(), 100);
}

#[test]
fn add_ignores_non_positive_counts() {
    let mut store = UnboundedSizeDenseStore::new();
    add_to(&mut store, 3, 0.0);
    add_to(&mut store, 3, -1.5);
    assert!(store.is_empty());
    add_to(&mut store, 3, 2.0);
    add_to(&mut store, 5, -4.0);
    assert_eq!(store.get_min_index(), 3);
    assert_eq!(store.get_max_index(), 3);
    assert_eq!(total(&store), 2.0);
}

#[test]
fn clear_resets_queries_but_keeps_capacity() {
    let mut store = UnboundedSizeDenseStore::new();
    add_to(&mut store, 10, 1.0);
    add_to(&mut store, -500, 2.5);
    let capacity = store.get_length();
    assert!(capacity > 0);

    store.clear();
    let fresh = UnboundedSizeDenseStore::new();

    assert_eq!(store.get_length(), capacity);
    assert_eq!(store.is_empty(), fresh.is_empty());
    assert_eq!(store.get_min_index(), fresh.get_min_index());
    assert_eq!(store.get_max_index(), fresh.get_max_index());
    assert_eq!(store.get_offset(), fresh.get_offset());
    assert_eq!(total(&store), total(&fresh));
    assert_eq!(store.get_ascending_stream(), fresh.get_ascending_stream());
    assert_eq!(store.get_descending_stream(), fresh.get_descending_stream());

    add_to(&mut store, 7, 1.5);
    assert_eq!(total(&store), 1.5);
    assert_eq!(store.get_length(), capacity);
}

#[test]
fn growth_and_shifts_lose_no_counts() {
    let mut store = UnboundedSizeDenseStore::new();
    let mut expected = 0.0;
    // Alternate far-apart indices so the window must grow and re-center.
    for step in 0..60 {
        let index = if step % 2 == 0 { step * 50 } else { -step * 50 };
        add_to(&mut store, index, 1.0 + step as f64);
        expected += 1.0 + step as f64;
        assert!((total(&store) - expected).abs() < 1e-9);
    }
    // Every individual bucket still holds its own accumulated weight.
    for step in 0..60 {
        let index = if step % 2 == 0 { step * 50 } else { -step * 50 };
        assert_eq!(count_at(&store, index), 1.0 + step as f64);
    }
}

#[test]
fn buffer_length_is_positive_multiple_and_monotone() {
    let mut store = UnboundedSizeDenseStore::new();
    assert_eq!(store.get_length(), 0);
    let mut previous = 0;
    for i in 0..300 {
        add_to(&mut store, i * 3, 1.0);
        let length = store.get_length();
        assert!(length > 0);
        assert_eq!(length % 64, 0);
        assert!(length >= previous);
        previous = length;
    }
}

#[test]
fn partial_sums_clamp_to_the_buffer() {
    let mut store = UnboundedSizeDenseStore::new();
    add_to(&mut store, -5, 1.0);
    add_to(&mut store, 0, 2.0);
    add_to(&mut store, 9, 4.0);
    assert_eq!(total_with_range(&store, -5, 9), 7.0);
    assert_eq!(total_with_range(&store, -5, -5), 1.0);
    assert_eq!(total_with_range(&store, -4, 8), 2.0);
    assert_eq!(total_with_range(&store, i32::MIN, i32::MAX), 7.0);
    let empty = UnboundedSizeDenseStore::new();
    assert_eq!(total_with_range(&empty, -100, 100), 0.0);
}

#[test]
fn scenario_two_equal_buckets_and_a_negative_one() {
    let mut store = UnboundedSizeDenseStore::new();
    add_to(&mut store, 5, 1.0);
    add_to(&mut store, 5, 2.0);
    add_to(&mut store, -3, 1.0);
    assert_eq!(store.get_min_index(), -3);
    assert_eq!(store.get_max_index(), 5);
    assert_eq!(total(&store), 4.0);
    let ascending: Vec<(i32, f64)> = store
        .get_ascending_stream()
        .iter()
        .map(|&(index, cell)| (index, f64::from_bits(cell)))
        .filter(|&(_, value)| value > 0.0)
        .collect();
    assert_eq!(ascending, vec![(-3, 1.0), (5, 3.0)]);
}

#[test]
fn scenario_wide_session_rounds_up_to_increment() {
    let mut store = UnboundedSizeDenseStore::new();
    add_to(&mut store, 0, 1.0);
    add_to(&mut store, 1000, 2.0);
    assert!(store.get_length() >= 1007);
    assert_eq!(store.get_length(), 1024);
    assert_eq!(count_at(&store, 0), 1.0);
    assert_eq!(count_at(&store, 1000), 2.0);
}

#[test]
fn scenario_negative_weight_kept_by_add_bin() {
    let mut store = UnboundedSizeDenseStore::new();
    add_bin_to(&mut store, (7, -2.0));
    assert_eq!(store.get_min_index(), 7);
    assert_eq!(store.get_max_index(), 7);
    assert_eq!(count_at(&store, 7), -2.0);
}

#[test]
fn add_bin_ignores_only_exact_zero() {
    let mut store = UnboundedSizeDenseStore::new();
    add_bin_to(&mut store, (4, 0.0));
    assert!(store.is_empty());
    add_bin_to(&mut store, (4, 1.0));
    add_bin_to(&mut store, (4, -1.0));
    assert!(!store.is_empty());
    assert_eq!(count_at(&store, 4), 0.0);
}

#[test]
fn scenario_one_sided_drift_recenters_sublinearly() {
    let mut store = UnboundedSizeDenseStore::new();
    let mut offset_changes = 0;
    let mut last_offset: Option<i64> = None;
    for i in 0..200 {
        add_to(&mut store, -i, 1.0);
        let offset = store.get_offset();
        if last_offset != Some(offset) {
            offset_changes += 1;
            last_offset = Some(offset);
        }
    }
    // Re-centering must not happen on every insertion.
    assert!(offset_changes <= 20);
    assert_eq!(total(&store), 200.0);
}
