use geoprim::base::Vector;
use geoprim::base::utils::HeapArray;

#[test]
fn round_trip_components() {
    let coords = vec![5i64, -7, 123456789, 0, i64::MAX, i64::MIN];
    let v = Vector::new(coords.clone());
    for i in 0..coords.len() {
        assert_eq!(v.coords[i], coords[i]);
    }
}

#[test]
fn dot_concrete() {
    let a = Vector::new(vec![1i64, 2]);
    let b = Vector::new(vec![3i64, 4]);
    assert_eq!(a.dot(&b), 11);
}

#[test]
fn dot_commutative() {
    let a = Vector::new(vec![3i64, -5, 7]);
    let b = Vector::new(vec![-2i64, 4, 9]);
    assert_eq!(a.dot(&b), b.dot(&a));
}

#[test]
fn magnitude_perfect_square() {
    let v = Vector::new(vec![3i64, 4]);
    assert_eq!(v.magnitude(), 5);
}

#[test]
fn magnitude_rounds_down() {
    let v = Vector::new(vec![1i64, 1]);
    assert_eq!(v.magnitude(), 1);
}

#[test]
fn magnitude_nonnegative() {
    let v = Vector::new(vec![-3i64, -4]);
    assert_eq!(v.magnitude(), 5);
    let zero = Vector::new(vec![0i64, 0, 0]);
    assert_eq!(zero.magnitude(), 0);
}

#[test]
fn normalized_axis() {
    let v = Vector::new(vec![10i64, 0]);
    let u = v.normalized();
    assert_eq!(u.coords, vec![1i64, 0]);
}

#[test]
fn normalized_truncates() {
    let v = Vector::new(vec![3i64, 4]);
    let u = v.normalized();
    assert_eq!(u.coords, vec![0i64, 0]);
}

#[test]
fn distance_to_self_is_zero() {
    let a = Vector::new(vec![17i64, -42, 1000]);
    assert_eq!(a.distance(&a), 0);
}

#[test]
fn distance_concrete() {
    let a = Vector::new(vec![0i64, 0]);
    let b = Vector::new(vec![3i64, 4]);
    assert_eq!(a.distance(&b), 5);
    assert_eq!(b.distance(&a), 5);
}

#[test]
fn component_wise_add_sub() {
    let a = Vector::new(vec![1i64, -2, 3]);
    let b = Vector::new(vec![10i64, 20, -30]);
    assert_eq!(a.add(&b).coords, vec![11i64, 18, -27]);
    assert_eq!(a.sub(&b).coords, vec![-9i64, -22, 33]);
}

#[test]
fn component_wise_mul() {
    let a = Vector::new(vec![2i64, -3]);
    let b = Vector::new(vec![5i64, 7]);
    assert_eq!(a.mul(&b).coords, vec![10i64, -21]);
}

#[test]
fn component_wise_div_truncates_toward_zero() {
    let a = Vector::new(vec![7i64, -7, 8]);
    let b = Vector::new(vec![2i64, 2, -3]);
    assert_eq!(a.div(&b).coords, vec![3i64, -3, -2]);
}

#[test]
fn heap_array_default_fill() {
    let arr: HeapArray<i64> = HeapArray::new(5);
    assert_eq!(arr.size(), 5);
    for i in 0..5 {
        assert_eq!(*arr.index(i), 0);
    }
}

#[test]
fn heap_array_from_vec() {
    let arr = HeapArray::new_with_vec(vec![4u32, 5, 6]);
    assert_eq!(arr.size(), 3);
    assert_eq!(*arr.index(1), 5);
}

#[test]
fn heap_array_from_slice() {
    let data = [9i64, 8, 7];
    let arr = HeapArray::new_with_slice(&data);
    assert_eq!(arr.size(), 3);
    assert_eq!(*arr.index(0), 9);
    assert_eq!(*arr.index(2), 7);
}

#[test]
fn heap_array_from_boxed_slice() {
    let boxed: Box<[i64]> = vec![1i64, 2, 3].into_boxed_slice();
    let arr = HeapArray::new_with_boxed_slice(boxed);
    assert_eq!(arr.size(), 3);
    assert_eq!(*arr.index(2), 3);
}

#[test]
fn heap_array_set_replaces() {
    let mut arr = HeapArray::new_with_vec(vec![1i64, 2, 3]);
    arr.set(1, 42);
    assert_eq!(*arr.index(0), 1);
    assert_eq!(*arr.index(1), 42);
    assert_eq!(*arr.index(2), 3);
}
