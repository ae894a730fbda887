use dish::iter::{min_max_pipe, product, sum, Iter};
use dish::num::NumberOps;

#[test]
fn min_max_of_values() {
    let v: Vec<i32> = vec![3, -7, 12, 0, 5];
    assert_eq!(v.min_max(), Some((-7, 12)));
}

#[test]
fn min_max_of_single_value() {
    let v: Vec<u8> = vec![9];
    assert_eq!(v.min_max(), Some((9, 9)));
}

#[test]
fn min_max_of_empty_is_none() {
    let v: Vec<u64> = Vec::new();
    assert_eq!(v.min_max(), None);
}

#[test]
fn min_max_pipe_applies_function() {
    let v: Vec<i64> = vec![4, 10, -2];
    assert_eq!(min_max_pipe(&v, |lo, hi| hi - lo), Some(12));
    let e: Vec<i64> = Vec::new();
    assert_eq!(min_max_pipe(&e, |lo, hi| hi - lo), None);
}

#[test]
fn collect_into_array_copies_leading_elements() {
    let v: Vec<u16> = vec![1, 2, 3, 4, 5];
    let mut a = [0u16; 3];
    v.collect_into_array(&mut a);
    assert_eq!(a, [1, 2, 3]);
}

#[test]
fn collect_into_array_leaves_extra_slots() {
    let v: Vec<u16> = vec![7, 8];
    let mut a = [9u16; 4];
    v.collect_into_array(&mut a);
    assert_eq!(a, [7, 8, 9, 9]);
}

#[test]
fn collect_array_takes_leading_elements() {
    let v: Vec<i8> = vec![5, 6, 7, 8];
    let a: Option<[i8; 3]> = v.collect_array();
    assert_eq!(a, Some([5, 6, 7]));
}

#[test]
fn collect_array_of_too_few_is_none() {
    let v: Vec<i8> = vec![5, 6];
    let a: Option<[i8; 3]> = v.collect_array();
    assert_eq!(a, None);
}

#[test]
fn digits_as_sequence() {
    let d = 40721u32.digits();
    assert_eq!(d.min_max(), Some((0, 7)));
    let a: Option<[u8; 3]> = d.collect_array();
    assert_eq!(a, Some([4, 0, 7]));
    let mut arr = [9u8; 7];
    d.collect_into_array(&mut arr);
    assert_eq!(arr, [4, 0, 7, 2, 1, 9, 9]);
    assert_eq!(d.to_vec(), vec![4, 0, 7, 2, 1]);
}

#[test]
fn sums_and_products() {
    let v: Vec<i32> = vec![3, -7, 12];
    assert_eq!(sum(&v), 8);
    assert_eq!(product(&v), -252);
    let e: Vec<u8> = Vec::new();
    assert_eq!(sum(&e), 0);
    assert_eq!(product(&e), 1);
}
