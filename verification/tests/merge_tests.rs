use rayon_adaptive::algorithms::merging_algorithms::{
    lower_bound, merge_2_par, merge_3_par, split_around, subslice_without_first_value,
    subslice_without_last_value,
};
use rayon_adaptive::utils::{merge_2, merge_3};

fn seq_sorted(mut v: Vec<u64>) -> Vec<u64> {
    v.sort();
    v
}

#[test]
fn merge_2_basic() {
    let s1: Vec<u64> = vec![1, 3, 5];
    let s2: Vec<u64> = vec![2, 4, 6];
    let mut r: Vec<u64> = vec![0; 6];
    merge_2(&s1, 0, &s2, 0, &mut r, 0);
    assert_eq!(r, vec![1, 2, 3, 4, 5, 6]);
}

#[test]
fn merge_2_with_offsets_preserves_prefix() {
    let s1: Vec<u64> = vec![0, 1, 4];
    let s2: Vec<u64> = vec![9, 2, 3];
    let mut r: Vec<u64> = vec![7, 7, 0, 0, 0, 0];
    merge_2(&s1, 1, &s2, 1, &mut r, 2);
    assert_eq!(r, vec![7, 7, 1, 2, 3, 4]);
}

#[test]
fn merge_2_duplicates() {
    let s1: Vec<u64> = vec![2, 2, 5];
    let s2: Vec<u64> = vec![2, 5, 5];
    let mut r: Vec<u64> = vec![0; 6];
    merge_2(&s1, 0, &s2, 0, &mut r, 0);
    assert_eq!(r, vec![2, 2, 2, 5, 5, 5]);
}

#[test]
fn merge_2_empty_side() {
    let s1: Vec<u64> = vec![];
    let s2: Vec<u64> = vec![1, 2];
    let mut r: Vec<u64> = vec![0; 2];
    merge_2(&s1, 0, &s2, 0, &mut r, 0);
    assert_eq!(r, vec![1, 2]);
}

#[test]
fn merge_3_basic() {
    let s1: Vec<u64> = vec![1, 4, 7];
    let s2: Vec<u64> = vec![2, 5, 8];
    let s3: Vec<u64> = vec![3, 6, 9];
    let v = merge_3(&s1, &s2, &s3);
    assert_eq!(v, vec![1, 2, 3, 4, 5, 6, 7, 8, 9]);
}

#[test]
fn merge_3_uneven_lengths() {
    let s1: Vec<u64> = vec![10];
    let s2: Vec<u64> = vec![1, 2, 3, 4, 5];
    let s3: Vec<u64> = vec![3, 3];
    let v = merge_3(&s1, &s2, &s3);
    assert_eq!(v, vec![1, 2, 3, 3, 3, 4, 5, 10]);
}

#[test]
fn merge_3_in_place_allows_empty_first() {
    let s1: Vec<u64> = vec![];
    let s2: Vec<u64> = vec![2, 4];
    let s3: Vec<u64> = vec![1, 3];
    let mut v: Vec<u64> = vec![0; 4];
    rayon_adaptive::algorithms::merging_algorithms::merge_3(&s1, &s2, &s3, &mut v);
    assert_eq!(v, vec![1, 2, 3, 4]);
}

#[test]
fn subslice_without_last_value_skips_run() {
    let v: Vec<u64> = vec![1, 2, 3, 3, 3];
    assert_eq!(subslice_without_last_value(&v, 0, 5), 2);
}

#[test]
fn subslice_without_last_value_all_equal() {
    let v: Vec<u64> = vec![6, 6, 6, 6];
    assert_eq!(subslice_without_last_value(&v, 0, 4), 0);
}

#[test]
fn subslice_without_first_value_skips_run() {
    let v: Vec<u64> = vec![4, 4, 5, 6];
    assert_eq!(subslice_without_first_value(&v, 0, 4), 2);
}

#[test]
fn subslice_without_first_value_all_equal() {
    let v: Vec<u64> = vec![9, 9];
    assert_eq!(subslice_without_first_value(&v, 0, 2), 2);
}

#[test]
fn subslice_functions_respect_range() {
    let v: Vec<u64> = vec![0, 5, 5, 7, 7, 7, 9];
    assert_eq!(subslice_without_last_value(&v, 1, 6), 3);
    assert_eq!(subslice_without_first_value(&v, 3, 7), 6);
}

#[test]
fn lower_bound_hit_and_miss() {
    let v: Vec<u64> = vec![1, 3, 3, 5];
    assert_eq!(lower_bound(&v, 0, 4, 3), 1);
    assert_eq!(lower_bound(&v, 0, 4, 4), 3);
    assert_eq!(lower_bound(&v, 0, 4, 0), 0);
    assert_eq!(lower_bound(&v, 0, 4, 9), 4);
}

#[test]
fn split_around_finds_pivot_run() {
    let v: Vec<u64> = vec![1, 2, 2, 2, 3];
    let (a, b) = split_around(&v, 0, 5, 2);
    assert_eq!((a, b), (1, 4));
}

#[test]
fn split_around_all_equal() {
    let v: Vec<u64> = vec![7, 7, 7];
    let (a, b) = split_around(&v, 0, 3, 1);
    assert_eq!((a, b), (0, 3));
}

#[test]
fn split_around_reconstructs_exactly() {
    let v: Vec<u64> = vec![1, 4, 4, 4, 6, 8];
    let (a, b) = split_around(&v, 0, 6, 2);
    let mut rebuilt: Vec<u64> = Vec::new();
    rebuilt.extend_from_slice(&v[0..a]);
    rebuilt.extend_from_slice(&v[a..b]);
    rebuilt.extend_from_slice(&v[b..6]);
    assert_eq!(rebuilt, v);
    assert!(v[0..a].iter().all(|&x| x < 4));
    assert!(v[a..b].iter().all(|&x| x == 4));
    assert!(v[b..6].iter().all(|&x| x > 4));
    assert!(a <= 2 && 2 < b);
}

#[test]
fn merge_3_par_equals_merge_3_for_every_min_size() {
    let s1: Vec<u64> = vec![1, 5, 5, 9, 12, 15, 20];
    let s2: Vec<u64> = vec![2, 5, 8, 11, 14];
    let s3: Vec<u64> = vec![0, 5, 5, 13];
    let mut expected: Vec<u64> = Vec::new();
    expected.extend(&s1);
    expected.extend(&s2);
    expected.extend(&s3);
    let expected = seq_sorted(expected);
    assert_eq!(merge_3(&s1, &s2, &s3), expected);
    for min_size in 1..=4 {
        let mut v: Vec<u64> = vec![0; 16];
        merge_3_par(&s1, &s2, &s3, &mut v, min_size);
        assert_eq!(v, expected, "min_size {}", min_size);
    }
}

#[test]
fn merge_3_par_heavy_duplicates_and_empty_regions() {
    let s1: Vec<u64> = vec![3, 3, 3, 3, 3, 3];
    let s2: Vec<u64> = vec![3, 3, 3, 3];
    let s3: Vec<u64> = vec![3, 3, 3];
    for min_size in 1..=3 {
        let mut v: Vec<u64> = vec![0; 13];
        merge_3_par(&s1, &s2, &s3, &mut v, min_size);
        assert_eq!(v, vec![3; 13], "min_size {}", min_size);
    }
    let s1: Vec<u64> = vec![5, 5, 5, 5, 5, 5];
    let s2: Vec<u64> = vec![1, 5, 5, 9];
    let s3: Vec<u64> = vec![5, 5, 7];
    for min_size in 1..=2 {
        let mut v: Vec<u64> = vec![0; 13];
        merge_3_par(&s1, &s2, &s3, &mut v, min_size);
        assert_eq!(v, vec![1, 5, 5, 5, 5, 5, 5, 5, 5, 5, 5, 7, 9], "min_size {}", min_size);
    }
}

#[test]
fn merge_2_par_equals_sequential_for_every_min_size() {
    let s1: Vec<u64> = vec![1, 4, 4, 6, 10, 11];
    let s2: Vec<u64> = vec![2, 4, 5, 9, 12];
    let mut expected: Vec<u64> = Vec::new();
    expected.extend(&s1);
    expected.extend(&s2);
    let expected = seq_sorted(expected);
    for min_size in 1..=5 {
        let mut v: Vec<u64> = vec![0; 11];
        merge_2_par(&s1, &s2, &mut v, min_size);
        assert_eq!(v, expected, "min_size {}", min_size);
    }
}
