use subset_generator::SubsetGenerator;

#[test]
fn small_set_without_empty() {
    let data = vec![(1, 0), (2, 0), (3, 0), (4, 0)];
    let small_generator = SubsetGenerator::new(&data, false);
    let mut iters = 0;
    let mut it = small_generator.iter();
    while let Some(_) = it.next() {
        iters += 1;
    }
    assert_eq!(iters, 15);
}

#[test]
fn small_set_with_empty() {
    let data = vec![(1, 0), (2, 0), (3, 0), (4, 0)];
    let small_generator = SubsetGenerator::new(&data, true);
    let mut iters = 0;
    let mut it = small_generator.iter();
    while let Some(_) = it.next() {
        iters += 1;
    }
    assert_eq!(iters, 16);
}

#[test]
fn into_iter_test() {
    let mut data = vec![(1, 0), (2, 0), (3, 0), (4, 0)];
    let small_generator = SubsetGenerator::new(&data, false);
    let mut iters = 0;
    let mut it = small_generator.into_iter();
    while let Some(_) = it.next() {
        iters += 1;
    }
    assert_eq!(iters, 15);
    data[0] = (2, 0);
}

#[test]
fn empty_source_without_empty_yields_nothing() {
    let data: Vec<u32> = vec![];
    let sg = SubsetGenerator::new(&data, false);
    let mut it = sg.iter();
    assert!(it.next().is_none());
}

#[test]
fn empty_source_with_empty_yields_one_empty_subset() {
    let data: Vec<u32> = vec![];
    let sg = SubsetGenerator::new(&data, true);
    let mut it = sg.iter();
    let first = it.next();
    assert!(first.is_some());
    assert_eq!(first.unwrap().len(), 0);
    assert!(it.next().is_none());
}

#[test]
fn four_items_give_fifteen_and_sixteen_results() {
    let data = vec![1, 2, 3, 4];
    let sg = SubsetGenerator::new(&data, false);
    let mut count = 0;
    let mut it = sg.iter();
    while let Some(_) = it.next() {
        count += 1;
    }
    assert_eq!(count, 15);

    let sg = SubsetGenerator::new(&data, true);
    let mut count = 0;
    let mut it = sg.iter();
    while let Some(_) = it.next() {
        count += 1;
    }
    assert_eq!(count, 16);
}

#[test]
fn exhaustion_is_idempotent() {
    let data = vec![7, 8];
    let sg = SubsetGenerator::new(&data, true);
    let mut it = sg.iter();
    let mut count = 0;
    while let Some(_) = it.next() {
        count += 1;
    }
    assert_eq!(count, 4);
    for _ in 0..5 {
        assert!(it.next().is_none());
    }
}

#[test]
fn subsets_are_distinct_and_cover_everything() {
    // Items 0, 1, 2 double as their own indices, so each subset maps to the
    // bit mask of its members.
    let data = vec![0usize, 1, 2];
    let sg = SubsetGenerator::new(&data, false);
    let mut seen = vec![false; 8];
    let mut it = sg.iter();
    while let Some(subset) = it.next() {
        assert!(!subset.is_empty());
        let mut mask = 0usize;
        for &x in subset.iter() {
            mask |= 1 << *x;
        }
        assert!(!seen[mask], "subset reported twice");
        seen[mask] = true;
    }
    assert!(!seen[0]);
    for mask in 1..8 {
        assert!(seen[mask], "a non-empty subset was never reported");
    }
}

#[test]
fn empty_subset_reported_exactly_once_when_included() {
    let data = vec![0usize, 1, 2];
    let sg = SubsetGenerator::new(&data, true);
    let mut empties = 0;
    let mut total = 0;
    let mut it = sg.iter();
    while let Some(subset) = it.next() {
        total += 1;
        if subset.is_empty() {
            empties += 1;
        }
    }
    assert_eq!(total, 8);
    assert_eq!(empties, 1);
}

#[test]
fn elements_keep_ascending_index_order() {
    // Strictly increasing values, so ascending index order shows as
    // ascending values inside every reported subset.
    let data = vec![10, 20, 30, 40, 50];
    let sg = SubsetGenerator::new(&data, false);
    let mut it = sg.iter();
    while let Some(subset) = it.next() {
        for pair in subset.windows(2) {
            assert!(pair[0] < pair[1], "subset not in ascending index order");
        }
    }
}

#[test]
fn count_gives_the_power_set_sizes() {
    let data = vec![1, 2, 3, 4, 5];
    assert_eq!(SubsetGenerator::new(&data, false).iter().count(), 31);
    assert_eq!(SubsetGenerator::new(&data, true).iter().count(), 32);

    let empty: Vec<u8> = vec![];
    assert_eq!(SubsetGenerator::new(&empty, false).iter().count(), 0);
    assert_eq!(SubsetGenerator::new(&empty, true).iter().count(), 1);
}

#[test]
fn count_tracks_a_partly_advanced_session() {
    let data = vec![1, 2, 3, 4];
    let sg = SubsetGenerator::new(&data, false);
    let mut it = sg.iter();
    assert!(it.next().is_some());
    assert!(it.next().is_some());
    assert_eq!(it.count(), 13);
}

#[test]
fn independent_sessions_do_not_interfere() {
    let data = vec![1, 2, 3];
    let sg = SubsetGenerator::new(&data, false);
    let mut a = sg.iter();
    let mut b = sg.iter();
    assert!(a.next().is_some());
    assert!(a.next().is_some());
    let mut count_b = 0;
    while let Some(_) = b.next() {
        count_b += 1;
    }
    assert_eq!(count_b, 7);
    let mut count_a = 2;
    while let Some(_) = a.next() {
        count_a += 1;
    }
    assert_eq!(count_a, 7);
}
