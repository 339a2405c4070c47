use rayon_adaptive::algorithms::adaptive_sort::SortWork;
use rayon_adaptive::algorithms::merge2join::SortingSlices;
use rayon_adaptive::scheduling::schedule;
use rayon_adaptive::scheduling::schedule_adaptive;
use rayon_adaptive::scheduling::AdaptiveWorker;
use rayon_adaptive::scheduling::NeverStolen;
use rayon_adaptive::scheduling::Policy;
use rayon_adaptive::scheduling::SchedulingContext;
use rayon_adaptive::scheduling::StealAfter;
use rayon_adaptive::scheduling::StealSignal;

fn sort_work_of(data: Vec<u64>, fuse_block: usize) -> SortWork {
    let n = data.len();
    let slices = SortingSlices { s: (data, vec![0; n], vec![0; n]), i: 0 };
    SortWork { slices, done: 0, fuse_block }
}

fn pseudo_random_vec(n: usize, modulus: u64) -> Vec<u64> {
    let mut state: u64 = 0x9e37_79b9_7f4a_7c15;
    let mut v: Vec<u64> = Vec::with_capacity(n);
    for _ in 0..n {
        state = state.wrapping_mul(2862933555777941757).wrapping_add(3037000493);
        v.push((state >> 31) % modulus);
    }
    v
}

#[test]
fn forced_steal_yields_same_output_as_no_steal() {
    let input = pseudo_random_vec(100, 1000);
    let mut expected = input.clone();
    expected.sort();

    let work = sort_work_of(input.clone(), 4);
    let mut signal = NeverStolen {};
    let unstolen = schedule_adaptive(work, &mut signal, 4);
    assert_eq!(unstolen.slices.into_first_buffer(), expected);

    for countdown in [0usize, 1, 2, 5, 10] {
        let work = sort_work_of(input.clone(), 4);
        let mut signal = StealAfter { countdown };
        let stolen = schedule_adaptive(work, &mut signal, 4);
        assert_eq!(stolen.slices.into_first_buffer(), expected, "countdown {}", countdown);
    }
}

#[test]
fn schedule_dispatches_every_policy() {
    let input = pseudo_random_vec(64, 50);
    let mut expected = input.clone();
    expected.sort();
    let policies = vec![
        Policy::Sequential,
        Policy::Join(8),
        Policy::JoinContext(8),
        Policy::DepJoin(8),
        Policy::Adaptive(8),
    ];
    for policy in policies {
        let work = sort_work_of(input.clone(), 8);
        let ctx = SchedulingContext::new();
        let mut signal = NeverStolen {};
        let out = schedule(work, policy, &ctx, &mut signal);
        assert_eq!(out.slices.into_first_buffer(), expected);
    }
}

#[test]
fn forced_sequential_context_still_sorts() {
    let input = pseudo_random_vec(40, 9);
    let mut expected = input.clone();
    expected.sort();
    let work = sort_work_of(input, 4);
    let ctx = SchedulingContext { sequential_forced: true };
    let mut signal = NeverStolen {};
    let out = schedule(work, Policy::Adaptive(4), &ctx, &mut signal);
    assert_eq!(out.slices.into_first_buffer(), expected);
}

#[test]
fn adaptive_worker_block_size_adjustment_is_positive() {
    for len in [0usize, 1, 2, 10, 100, 1023, 1024, 1025] {
        let work = sort_work_of(vec![1; len], 4);
        let worker = AdaptiveWorker::new(work, 4);
        assert!(worker.current_block_size >= 1, "len {}", len);
    }
}

#[test]
fn steal_after_counts_down_then_fires() {
    let mut signal = StealAfter { countdown: 3 };
    assert!(!signal.is_stolen());
    assert!(!signal.is_stolen());
    assert!(!signal.is_stolen());
    assert!(signal.is_stolen());
    assert!(signal.is_stolen());
}

#[test]
fn never_stolen_never_fires() {
    let mut signal = NeverStolen {};
    for _ in 0..10 {
        assert!(!signal.is_stolen());
    }
}
