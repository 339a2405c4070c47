use rayon_adaptive::adaptive_sort;
use rayon_adaptive::adaptive_sort_join2;
use rayon_adaptive::adaptive_sort_join_context3;
use rayon_adaptive::adaptive_sort_join_context_join;
use rayon_adaptive::adaptive_sort_join3;
use rayon_adaptive::adaptive_sort_with_policies;
use rayon_adaptive::Policy;

fn all_policies(block: usize) -> Vec<Policy> {
    vec![
        Policy::Sequential,
        Policy::Join(block),
        Policy::JoinContext(block),
        Policy::DepJoin(block),
        Policy::Adaptive(block),
    ]
}

fn pseudo_random_vec(n: usize, modulus: u64) -> Vec<u64> {
    let mut state: u64 = 0x2545_f491_4f6c_dd1d;
    let mut v: Vec<u64> = Vec::with_capacity(n);
    for _ in 0..n {
        state = state.wrapping_mul(6364136223846793005).wrapping_add(1442695040888963407);
        v.push((state >> 33) % modulus);
    }
    v
}

fn is_sorted(v: &[u64]) -> bool {
    v.windows(2).all(|w| w[0] <= w[1])
}

#[test]
fn five_elements_sort_under_every_policy() {
    for policy in all_policies(2) {
        let mut v: Vec<u64> = vec![5, 3, 1, 4, 2];
        adaptive_sort_with_policies(&mut v, policy, Policy::Join(2));
        assert_eq!(v, vec![1, 2, 3, 4, 5]);
    }
    let mut v: Vec<u64> = vec![5, 3, 1, 4, 2];
    adaptive_sort(&mut v);
    assert_eq!(v, vec![1, 2, 3, 4, 5]);
    let mut v: Vec<u64> = vec![5, 3, 1, 4, 2];
    adaptive_sort_join2(&mut v, 2, 2);
    assert_eq!(v, vec![1, 2, 3, 4, 5]);
    let mut v: Vec<u64> = vec![5, 3, 1, 4, 2];
    adaptive_sort_join3(&mut v, 2, 2);
    assert_eq!(v, vec![1, 2, 3, 4, 5]);
}

#[test]
fn every_policy_agrees_with_reference_sort() {
    let input = pseudo_random_vec(500, 1_000_000);
    let mut expected = input.clone();
    expected.sort();
    for block in [1usize, 7, 64] {
        for policy in all_policies(block) {
            let mut v = input.clone();
            adaptive_sort_with_policies(&mut v, policy, Policy::Join(block));
            assert_eq!(v, expected, "block {}", block);
        }
    }
}

#[test]
fn join2_and_join3_agree_with_reference_sort() {
    let input = pseudo_random_vec(300, u64::MAX);
    let mut expected = input.clone();
    expected.sort();
    for (block, fuse) in [(1usize, 1usize), (5, 3), (50, 8), (500, 500)] {
        let mut v = input.clone();
        adaptive_sort_join2(&mut v, block, fuse);
        assert_eq!(v, expected, "join2 block {} fuse {}", block, fuse);
        let mut v = input.clone();
        adaptive_sort_join3(&mut v, block, fuse);
        assert_eq!(v, expected, "join3 block {} fuse {}", block, fuse);
    }
}

#[test]
fn sorting_sorted_input_is_identity() {
    let input: Vec<u64> = (0..200).collect();
    for policy in all_policies(16) {
        let mut v = input.clone();
        adaptive_sort_with_policies(&mut v, policy, Policy::Join(16));
        assert_eq!(v, input);
    }
}

#[test]
fn reversed_input_sorts() {
    let mut v: Vec<u64> = (0..100).rev().collect();
    adaptive_sort_join2(&mut v, 10, 10);
    let expected: Vec<u64> = (0..100).collect();
    assert_eq!(v, expected);
}

#[test]
fn empty_and_singleton_inputs() {
    let mut v: Vec<u64> = vec![];
    adaptive_sort(&mut v);
    assert_eq!(v, Vec::<u64>::new());
    let mut v: Vec<u64> = vec![42];
    adaptive_sort_join3(&mut v, 1, 1);
    assert_eq!(v, vec![42]);
}

#[test]
fn heavy_duplicates_grouped_by_value() {
    let input = pseudo_random_vec(10_000, 4);
    let mut counts = [0usize; 4];
    for &x in &input {
        counts[x as usize] += 1;
    }
    let mut v = input.clone();
    adaptive_sort_with_policies(&mut v, Policy::Join(100), Policy::Join(100));
    assert!(is_sorted(&v));
    let mut offset = 0;
    for value in 0..4u64 {
        assert!(v[offset..offset + counts[value as usize]].iter().all(|&x| x == value));
        offset += counts[value as usize];
    }
    assert_eq!(offset, v.len());
}

#[test]
fn context_variants_agree_with_reference_sort() {
    let input = pseudo_random_vec(400, 10_000);
    let mut expected = input.clone();
    expected.sort();
    for (block, fuse) in [(1usize, 1usize), (3, 7), (64, 16), (512, 512)] {
        let mut v = input.clone();
        adaptive_sort_join_context_join(&mut v, block, fuse);
        assert_eq!(v, expected, "context_join block {} fuse {}", block, fuse);
        let mut v = input.clone();
        adaptive_sort_join_context3(&mut v, block, fuse);
        assert_eq!(v, expected, "context3 block {} fuse {}", block, fuse);
    }
}

#[test]
fn context_variants_small_inputs() {
    let mut v: Vec<u64> = vec![];
    adaptive_sort_join_context_join(&mut v, 1, 1);
    assert_eq!(v, Vec::<u64>::new());
    let mut v: Vec<u64> = vec![2, 1];
    adaptive_sort_join_context3(&mut v, 1, 1);
    assert_eq!(v, vec![1, 2]);
}
