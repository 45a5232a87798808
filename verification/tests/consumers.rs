//! Brute-force consumers of the generator: the set-cover and subset-sum
//! scans that drive a full session and aggregate each reported subset.

use subset_generator::SubsetGenerator;

#[test]
fn set_cover_optimum_is_two() {
    let universe = 5;
    let families = vec![
        vec![4],
        vec![0, 1, 2],
        vec![1, 3],
        vec![2, 4],
        vec![0, 3, 4],
    ];

    let mut opt = usize::MAX;
    let sg = SubsetGenerator::new(&families, false);
    let mut it = sg.iter();
    while let Some(subset) = it.next() {
        let mut covered = vec![false; universe];
        for family in subset.iter() {
            for &element in family.iter() {
                covered[element] = true;
            }
        }
        let full = covered.iter().all(|&c| c);
        if full && subset.len() <= opt {
            opt = subset.len();
        }
    }
    assert_eq!(opt, 2);
}

#[test]
fn subset_summing_to_target_exists() {
    let set = vec![3, 34, 4, 12, 5, 2];
    let target = 9;

    let sg = SubsetGenerator::new(&set, false);
    let mut found = false;
    let mut it = sg.into_iter();
    while let Some(subset) = it.next() {
        let sum: i32 = subset.iter().map(|&&x| x).sum();
        if sum == target {
            found = true;
            break;
        }
    }
    assert!(found);
}

#[test]
fn no_subset_sums_past_the_total() {
    let set = vec![3, 34, 4, 12, 5, 2];
    let target = 61;

    let sg = SubsetGenerator::new(&set, false);
    let mut found = false;
    let mut it = sg.into_iter();
    while let Some(subset) = it.next() {
        let sum: i32 = subset.iter().map(|&&x| x).sum();
        if sum == target {
            found = true;
            break;
        }
    }
    assert!(!found);
}
