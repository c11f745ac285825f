use order_stat::{median5, median_of_medians, select_nth};
use quickcheck::TestResult;
use std::cmp;

#[test]
fn qc() {
    fn run(mut x: Vec<i32>) -> TestResult {
        if x.is_empty() {
            return TestResult::discard();
        }

        let (_, median) = median_of_medians(&mut x);
        x.sort();

        let thirty = x.len() * 3 / 10;
        // A length of the form 10k + 4 has an even number of groups and four
        // trailing elements outside them, which can push the pivot one place
        // past the rounded-up 70th percentile.
        let slack = if x.len() % 10 == 4 { 1 } else { 0 };
        let seventy = cmp::min((x.len() * 7 + 9) / 10 + slack, x.len() - 1);
        TestResult::from_bool(x[thirty] <= median && median <= x[seventy])
    }
    quickcheck::quickcheck(run as fn(Vec<i32>) -> TestResult)
}

#[test]
fn smoke() {
    let mut x = (0..101).rev().collect::<Vec<_>>();
    let (_, median) = median_of_medians(&mut x);
    assert!(30 <= median);
    assert!(median <= 70);
}

fn sorted(v: &[i32]) -> Vec<i32> {
    let mut w = v.to_vec();
    w.sort();
    w
}

#[test]
fn short_input_gives_exact_median() {
    let mut x = vec![10, 1, 7, 3];
    let (idx, median) = median_of_medians(&mut x);
    assert_eq!(idx, 2);
    assert_eq!(median, 7);
    assert_eq!(x[idx], 7);
}

#[test]
fn single_element() {
    let mut x = vec![42];
    assert_eq!(median_of_medians(&mut x), (0, 42));
    assert_eq!(x, vec![42]);
}

#[test]
fn two_and_three_elements() {
    let mut x = vec![8, -2];
    assert_eq!(median_of_medians(&mut x), (1, 8));
    let mut y = vec![3, 9, 1];
    assert_eq!(median_of_medians(&mut y), (1, 3));
}

#[test]
fn five_elements_exact_median() {
    let mut x = vec![5, 3, 4, 1, 2];
    let (idx, median) = median_of_medians(&mut x);
    assert_eq!(idx, 0);
    assert_eq!(median, 3);
}

#[test]
fn median5_distinct() {
    assert_eq!(median5(&[5, 3, 4, 1, 2]), 1);
}

#[test]
fn median5_all_equal() {
    let w = [9, 9, 9, 9, 9];
    let r = median5(&w);
    assert!(r < 5);
    assert_eq!(w[r], 9);
}

#[test]
fn median5_with_ties() {
    let w = [4, 1, 4, 1, 2];
    assert_eq!(w[median5(&w)], 2);
    let w = [7, 7, 1, 7, 0];
    assert_eq!(w[median5(&w)], 7);
}

#[test]
fn median5_every_permutation() {
    let mut count = 0;
    for a in 0..5 {
        for b in 0..5 {
            for c in 0..5 {
                for d in 0..5 {
                    for e in 0..5 {
                        let w = [a, b, c, d, e];
                        if sorted(&w) == vec![0, 1, 2, 3, 4] {
                            assert_eq!(w[median5(&w)], 2);
                            count += 1;
                        }
                    }
                }
            }
        }
    }
    assert_eq!(count, 120);
}

#[test]
fn values_are_only_permuted() {
    let orig: Vec<i32> = (0..37).map(|i| (i * 17 + 5) % 23 - 11).collect();
    let mut x = orig.clone();
    median_of_medians(&mut x);
    assert_eq!(sorted(&x), sorted(&orig));
}

#[test]
fn group_medians_move_to_front() {
    let mut x = vec![50, 40, 30, 20, 10, 1, 2, 3, 4, 5, 99, 98, 97];
    let (idx, median) = median_of_medians(&mut x);
    assert_eq!(idx, 1);
    assert_eq!(median, 30);
    assert_eq!(sorted(&x[..2]), vec![3, 30]);
    assert_eq!(x[idx], 30);
}

#[test]
fn trailing_partial_group_is_ignored() {
    let mut x = vec![10, 11, 12, 13, 14, 0, 1, 2, 3, 4, 5, 6, 7, 8];
    let (idx, median) = median_of_medians(&mut x);
    assert_eq!(idx, 1);
    assert_eq!(median, 12);
    let s = sorted(&x);
    assert!(s[14 * 3 / 10] <= median);
    assert!(median <= s[(14 * 7 + 9) / 10 + 1]);
    assert!(median > s[(14 * 7 + 9) / 10]);
}

#[test]
fn equal_values() {
    let mut x = vec![6; 23];
    assert_eq!(median_of_medians(&mut x), (2, 6));
}

#[test]
fn extreme_values() {
    let mut x = vec![i32::MAX, i32::MIN, 0, i32::MAX, i32::MIN, -1, 1];
    let (_, median) = median_of_medians(&mut x);
    assert_eq!(median, 0);
}

#[test]
fn select_nth_on_prefix() {
    let mut x = vec![9, 4, 7, 1, 8, 100, -100];
    select_nth(&mut x, 5, 3);
    assert_eq!(x[3], 8);
    assert!(x[..3].iter().all(|&v| v <= 8));
    assert_eq!(x[4], 9);
    assert_eq!(&x[5..], &[100, -100]);
    assert_eq!(sorted(&x[..5]), vec![1, 4, 7, 8, 9]);
}

#[test]
fn reversed_hundred_full_result() {
    let mut x = (0..101).rev().collect::<Vec<i32>>();
    let (idx, median) = median_of_medians(&mut x);
    assert_eq!(idx, 10);
    assert_eq!(median, 53);
    assert_eq!(x[10], 53);
    assert_eq!(x[100], 0);
    let mut front = x[..20].to_vec();
    front.sort();
    assert_eq!(front, (0..20).map(|g| 3 + 5 * g).collect::<Vec<i32>>());
}

#[test]
fn one_median_per_group() {
    let mut x = vec![5, 5, 5, 5, 5, 7, 7, 7, 7, 5];
    let (idx, median) = median_of_medians(&mut x);
    assert_eq!(idx, 1);
    assert_eq!(median, 7);
    assert_eq!(sorted(&x[..2]), vec![5, 7]);

    let mut y = vec![1, 1, 1, 1, 9, 5, 5, 5, 5, 5];
    let (_, median) = median_of_medians(&mut y);
    assert_eq!(median, 5);
}

#[test]
fn trailing_elements_stay_in_place() {
    let mut x = vec![4, 8, 2, 6, 0, 9, 7, 5, 3, 1, 13, 12, 11];
    median_of_medians(&mut x);
    assert_eq!(&x[10..], &[13, 12, 11]);
}

#[test]
fn median5_position_follows_comparisons() {
    assert_eq!(median5(&[1, 1, 1, 1, 1]), median5(&[2, 2, 2, 2, 2]));
    assert_eq!(median5(&[3, 3, 8, 1, 8]), median5(&[30, 30, 80, 10, 80]));
    assert_eq!(median5(&[9, 9, 9, 9, 9]), 2);
}
