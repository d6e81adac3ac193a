use std::collections::VecDeque;

use sorted_insert::{
    SortedInsert, SortedInsertBinary, SortedInsertBinaryBy, SortedInsertBinaryByKey,
    SortedInsertBy, SortedInsertByKey,
};

#[test]
fn asc_linear_examples() {
    let mut v: Vec<isize> = Vec::new();
    assert_eq!(0, v.sorted_insert_asc(1));
    assert_eq!([1], v.as_slice());

    let mut v: Vec<isize> = vec![1, 5];
    assert_eq!(1, v.sorted_insert_asc(2));
    assert_eq!([1, 2, 5], v.as_slice());

    let mut v: Vec<isize> = vec![0, 1, 2];
    assert_eq!(2, v.sorted_insert_asc(1));
    assert_eq!([0, 1, 1, 2], v.as_slice());
}

#[test]
fn desc_binary_example() {
    let mut v: Vec<isize> = vec![5, 1];
    assert_eq!(1, v.sorted_insert_desc_binary(2));
    assert_eq!([5, 2, 1], v.as_slice());
}

#[test]
fn by_key_second_field() {
    let mut v: Vec<(isize, isize)> = vec![(1, 10), (2, 20)];
    assert_eq!(1, v.sorted_insert_asc_by_key((1, 15), |e: &(isize, isize)| e.1));
    assert_eq!([(1, 10), (1, 15), (2, 20)], v.as_slice());

    let mut v: Vec<(isize, isize)> = vec![(2, 20), (1, 10)];
    assert_eq!(1, v.sorted_insert_desc_by_key((1, 15), |e: &(isize, isize)| e.1));
    assert_eq!([(2, 20), (1, 15), (1, 10)], v.as_slice());

    let mut v: Vec<(isize, isize)> = vec![(1, 10), (2, 20)];
    assert_eq!(
        1,
        v.sorted_insert_binary_asc_by_key((1, 15), |e: &(isize, isize)| e.1)
    );
    assert_eq!([(1, 10), (1, 15), (2, 20)], v.as_slice());

    let mut v: Vec<(isize, isize)> = vec![(2, 20), (1, 10)];
    assert_eq!(
        1,
        v.sorted_insert_binary_desc_by_key((1, 15), |e: &(isize, isize)| e.1)
    );
    assert_eq!([(2, 20), (1, 15), (1, 10)], v.as_slice());
}

#[test]
fn by_comparator() {
    let mut v: Vec<isize> = vec![1, 5];
    assert_eq!(1, v.sorted_insert_by(2, |a: &isize, b: &isize| *a <= *b));
    assert_eq!([1, 2, 5], v.as_slice());

    let mut v: Vec<isize> = vec![1, 5];
    assert_eq!(1, v.sorted_insert_binary_by(2, |a: &isize, b: &isize| a.cmp(b)));
    assert_eq!([1, 2, 5], v.as_slice());
}

/// The binary strategy places a tied element directly after some tied
/// element — any adjacent-to-a-tie position is valid, not one fixed index.
#[test]
fn binary_tie_placement() {
    let mut v: Vec<isize> = vec![1, 1, 1];
    let index = v.sorted_insert_asc_binary(1);
    assert!(1 <= index && index <= 3);
    assert_eq!([1, 1, 1, 1], v.as_slice());

    let mut v: Vec<isize> = vec![0, 1, 1, 2];
    let index = v.sorted_insert_asc_binary(1);
    assert!(2 <= index && index <= 3);
    assert_eq!([0, 1, 1, 1, 2], v.as_slice());
}

#[test]
fn empty_sequence_all_variants() {
    let mut v: Vec<isize> = Vec::new();
    assert_eq!(0, v.sorted_insert_asc(7));
    let mut v: Vec<isize> = Vec::new();
    assert_eq!(0, v.sorted_insert_desc(7));
    let mut v: Vec<isize> = Vec::new();
    assert_eq!(0, v.sorted_insert_asc_binary(7));
    let mut v: Vec<isize> = Vec::new();
    assert_eq!(0, v.sorted_insert_desc_binary(7));

    let mut d: VecDeque<isize> = VecDeque::new();
    assert_eq!(0, d.sorted_insert_asc(7));
    let mut d: VecDeque<isize> = VecDeque::new();
    assert_eq!(0, d.sorted_insert_desc(7));
    let mut d: VecDeque<isize> = VecDeque::new();
    assert_eq!(0, d.sorted_insert_asc_binary(7));
    let mut d: VecDeque<isize> = VecDeque::new();
    assert_eq!(0, d.sorted_insert_desc_binary(7));
}

#[test]
fn deque_insertions() {
    let mut d: VecDeque<isize> = VecDeque::new();
    assert_eq!(0, d.sorted_insert_asc(3));
    assert_eq!(0, d.sorted_insert_asc(1));
    assert_eq!(1, d.sorted_insert_asc(2));
    assert_eq!(3, d.sorted_insert_asc(9));
    assert_eq!(vec![1, 2, 3, 9], d.iter().copied().collect::<Vec<isize>>());

    let mut d: VecDeque<isize> = VecDeque::new();
    assert_eq!(0, d.sorted_insert_desc_binary(3));
    assert_eq!(1, d.sorted_insert_desc_binary(1));
    assert_eq!(1, d.sorted_insert_desc_binary(2));
    assert_eq!(0, d.sorted_insert_desc_binary(9));
    assert_eq!(vec![9, 3, 2, 1], d.iter().copied().collect::<Vec<isize>>());
}

/// The linear scan keeps ties stable: a new element equal to existing ones
/// lands right after the last of them, in every layer.
#[test]
fn linear_stability() {
    let mut v: Vec<isize> = vec![1, 1, 1];
    assert_eq!(3, v.sorted_insert_asc(1));

    let mut v: Vec<isize> = vec![5, 5];
    assert_eq!(2, v.sorted_insert_desc(5));

    let mut v: Vec<(isize, isize)> = vec![(1, 7), (2, 7)];
    assert_eq!(2, v.sorted_insert_asc_by_key((3, 7), |e: &(isize, isize)| e.1));
    assert_eq!([(1, 7), (2, 7), (3, 7)], v.as_slice());
}
