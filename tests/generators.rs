use hardware_mental_model::cache::associativity::iter_with_step;
use hardware_mental_model::cache::basic;
use hardware_mental_model::cache::cacheline::{increase, increase_2, AlignAtomicUsize};
use hardware_mental_model::cache::matrix::is_square;
use hardware_mental_model::cache::prefetcher;
use hardware_mental_model::data_dependency::{dependent, independent};
use hardware_mental_model::unaligned_memory_access::{
    aligned_access, unaligned_access, PackedRecords,
};
use std::sync::atomic::{AtomicUsize, Ordering};

const N: usize = 100000;

fn zero_matrix(n: usize) -> Vec<Vec<usize>> {
    vec![vec![0; n]; n]
}

#[test]
fn stride_power_of_two_hits_few_cells() {
    let mut arr = vec![0usize; 16];
    iter_with_step(&mut arr, 4);
    for (x, v) in arr.iter().enumerate() {
        if x % 4 == 0 {
            assert_eq!(*v, 250000);
        } else {
            assert_eq!(*v, 0);
        }
    }
    assert_eq!(arr.iter().sum::<usize>(), 1000000);
}

#[test]
fn stride_coprime_spreads_over_all_cells() {
    let mut arr = vec![0usize; 16];
    iter_with_step(&mut arr, 3);
    assert!(arr.iter().all(|v| *v == 62500));
}

#[test]
fn stride_with_remainder_counts_exactly() {
    // 1,000,000 = 7 * 142857 + 1: the first index of the cycle gets one more.
    let mut arr = vec![10usize; 7];
    iter_with_step(&mut arr, 2);
    assert_eq!(arr[0], 10 + 142858);
    for x in 1..7 {
        assert_eq!(arr[x], 10 + 142857);
    }
    assert_eq!(arr.iter().sum::<usize>(), 70 + 1000000);
}

#[test]
fn row_major_on_zero_matrix_gives_column_index() {
    let mut arr = zero_matrix(5);
    basic::row_major_traversal(&mut arr);
    for i in 0..5 {
        for j in 0..5 {
            assert_eq!(arr[i][j], j);
        }
    }
}

#[test]
fn column_major_on_zero_matrix_gives_column_index() {
    let mut arr = zero_matrix(5);
    basic::column_major_traversal(&mut arr);
    for i in 0..5 {
        for j in 0..5 {
            assert_eq!(arr[i][j], j);
        }
    }
    let mut three = zero_matrix(3);
    basic::column_major_traversal(&mut three);
    assert_eq!(three, vec![vec![0, 1, 2], vec![0, 1, 2], vec![0, 1, 2]]);
}

#[test]
fn both_traversal_orders_give_the_same_matrix() {
    let start: Vec<Vec<usize>> = (0..7).map(|i| (0..7).map(|j| i * 10 + j * 3).collect()).collect();
    let mut a = start.clone();
    basic::row_major_traversal(&mut a);
    let mut b = start.clone();
    basic::column_major_traversal(&mut b);
    assert_eq!(a, b);
}

#[test]
fn traversals_keep_initial_values() {
    let mut a = vec![vec![1, 2], vec![3, 4]];
    basic::row_major_traversal(&mut a);
    assert_eq!(a, vec![vec![1, 3], vec![3, 5]]);
    let mut b = vec![vec![1, 2], vec![3, 4]];
    basic::column_major_traversal(&mut b);
    assert_eq!(b, vec![vec![1, 3], vec![3, 5]]);
}

#[test]
fn traversals_of_empty_and_single_matrix() {
    let mut e: Vec<Vec<usize>> = Vec::new();
    basic::row_major_traversal(&mut e);
    basic::column_major_traversal(&mut e);
    assert!(e.is_empty());
    let mut one = vec![vec![7]];
    basic::row_major_traversal(&mut one);
    basic::column_major_traversal(&mut one);
    assert_eq!(one, vec![vec![7]]);
}

#[test]
fn ragged_second_row_is_not_square() {
    let arr = vec![vec![0usize; 3], vec![0usize; 2], vec![0usize; 3]];
    assert!(!is_square(&arr));
    assert!(is_square(&zero_matrix(3)));
    assert!(is_square(&Vec::new()));
    assert!(!is_square(&vec![vec![0usize; 3], vec![0usize; 3]]));
}

#[test]
fn prefetcher_traversals_match_plain_ones() {
    let mut a = zero_matrix(6);
    prefetcher::row_major_traversal(&mut a);
    let mut b = zero_matrix(6);
    basic::row_major_traversal(&mut b);
    assert_eq!(a, b);
    let mut c = zero_matrix(6);
    prefetcher::column_major_traversal(&mut c);
    let mut d = zero_matrix(6);
    basic::column_major_traversal(&mut d);
    assert_eq!(c, d);
    assert_eq!(c, b);
}

#[test]
fn random_access_adds_row_index_n_times_per_row() {
    let n = 8;
    let mut arr = zero_matrix(n);
    prefetcher::random_access(&mut arr);
    assert_eq!(arr.len(), n);
    for j in 0..n {
        assert_eq!(arr[j].len(), n);
        assert_eq!(arr[j].iter().sum::<usize>(), n * j);
        assert!(arr[j].iter().all(|v| *v % j.max(1) == 0 && *v <= n * j));
    }
}

#[test]
fn random_access_step_wraps_the_draw() {
    let mut arr = zero_matrix(3);
    prefetcher::random_access_step(&mut arr, 2, 7);
    assert_eq!(arr, vec![vec![0, 0, 0], vec![0, 0, 0], vec![0, 2, 0]]);
    prefetcher::random_access_step(&mut arr, 1, 3);
    assert_eq!(arr, vec![vec![0, 0, 0], vec![1, 0, 0], vec![0, 2, 0]]);
}

#[test]
fn each_worker_issues_ten_thousand_increments() {
    let v = AtomicUsize::new(0);
    assert_eq!(increase(&v), 10000);
    assert_eq!(v.load(Ordering::Relaxed), 10000);
}

#[test]
fn four_workers_on_one_counter_total_forty_thousand() {
    let v = AtomicUsize::new(0);
    let issued: usize = (0..4).map(|_| increase(&v)).sum();
    assert_eq!(issued, 40000);
    assert_eq!(v.load(Ordering::Relaxed), 40000);
}

#[test]
fn four_separate_counters_total_forty_thousand() {
    let counters = [
        AtomicUsize::new(0),
        AtomicUsize::new(0),
        AtomicUsize::new(0),
        AtomicUsize::new(0),
    ];
    for c in counters.iter() {
        increase(c);
    }
    let total: usize = counters.iter().map(|c| c.load(Ordering::Relaxed)).sum();
    assert_eq!(total, 40000);
}

#[test]
fn padded_counters_total_forty_thousand() {
    let counters = [
        AlignAtomicUsize::new(0),
        AlignAtomicUsize::new(0),
        AlignAtomicUsize::new(0),
        AlignAtomicUsize::new(5),
    ];
    for c in counters.iter() {
        assert_eq!(increase_2(c), 10000);
    }
    let total: usize = counters.iter().map(|c| c.counter().load(Ordering::Relaxed)).sum();
    assert_eq!(total, 40005);
    assert_eq!(std::mem::size_of::<AlignAtomicUsize>(), 64);
}

#[test]
fn dependent_and_independent_agree_on_ones() {
    let (mut a1, mut b1, c) = (vec![1i32; N], vec![1i32; N], vec![1i32; N]);
    let (mut a2, mut b2) = (a1.clone(), b1.clone());
    dependent(&mut a1, &mut b1, &c);
    independent(&mut a2, &mut b2, &c);
    assert_eq!(b1, b2);
    assert_eq!(a1, a2);
    assert_eq!(b1[0], 1);
    assert!(b1[1..].iter().all(|v| *v == 2));
    assert_eq!(a1[0], 2);
    assert!(a1[1..].iter().all(|v| *v == 3));
}

#[test]
fn dependent_chain_from_zero_buffers() {
    let (mut a, mut b, c) = (vec![0i32; N], vec![0i32; N], vec![1i32; N]);
    dependent(&mut a, &mut b, &c);
    assert_eq!(b[0], 0);
    assert!(b[1..].iter().all(|v| *v == 1));
    assert_eq!(a, b);
    assert_eq!(a[9999], 1);
    assert_eq!(a[99999], 1);
}

#[test]
fn dependent_and_independent_agree_on_mixed_values() {
    let mut a1: Vec<i32> = (0..N as i32).collect();
    let mut b1: Vec<i32> = (0..N as i32).map(|x| x % 17 - 8).collect();
    let mut c: Vec<i32> = (0..N as i32).map(|x| x % 13).collect();
    c[0] = 5;
    c[99998] = i32::MAX;
    let (mut a2, mut b2) = (a1.clone(), b1.clone());
    dependent(&mut a1, &mut b1, &c);
    independent(&mut a2, &mut b2, &c);
    assert_eq!(a1, a2);
    assert_eq!(b1, b2);
}

#[test]
fn chain_additions_wrap() {
    let mut a = vec![0i32; N];
    let mut b = vec![0i32; N];
    let mut c = vec![0i32; N];
    a[0] = i32::MAX;
    b[0] = 1;
    b[1] = i32::MAX;
    c[0] = 1;
    independent(&mut a, &mut b, &c);
    assert_eq!(a[0], i32::MIN);
    assert_eq!(b[1], i32::MIN);
    assert_eq!(a[1], i32::MIN);
}

#[test]
fn aligned_records_all_become_one() {
    let r = aligned_access();
    assert_eq!(r.len(), 10000);
    assert!(r.iter().all(|f| f.quan == 1 && f.byte == 0));
}

#[test]
fn packed_records_all_become_one() {
    let r = unaligned_access();
    assert_eq!(r.len(), 10000);
    for k in 0..10000 {
        assert_eq!(r.word(k), 1);
        assert_eq!(r.padding(k), 0);
    }
}

#[test]
fn packed_increment_touches_one_record() {
    let mut r = PackedRecords::new_zeroed(3);
    assert_eq!(r.len(), 3);
    r.increment(1);
    r.increment(1);
    for _ in 0..300 {
        r.increment(2);
    }
    assert_eq!(r.word(0), 0);
    assert_eq!(r.word(1), 2);
    assert_eq!(r.word(2), 300);
    for k in 0..3 {
        assert_eq!(r.padding(k), 0);
    }
}
