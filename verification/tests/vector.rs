use cantor::vector::Vector;

#[test]
fn dot_product_values() {
    let a: Vector<u64, 3> = Vector::new(vec![1, 2, 3]);
    let b: Vector<u64, 3> = Vector::new(vec![4, 5, 6]);
    assert_eq!(a.dot(&b), 32);
}

#[test]
fn zero_vector_values() {
    let z: Vector<u64, 4> = Vector::zero();
    for i in 0..4 {
        assert_eq!(z.get(i), 0);
    }
}

#[test]
fn fill_replicates_value() {
    let v: Vector<u64, 3> = Vector::fill(7);
    assert!(v == Vector::new(vec![7, 7, 7]));
}

#[test]
fn vector_add_values() {
    let a: Vector<u64, 3> = Vector::new(vec![1, 2, 3]);
    let b: Vector<u64, 3> = Vector::new(vec![10, 20, 30]);
    assert!(a.add(&b) == Vector::new(vec![11, 22, 33]));
}

#[test]
fn vector_sub_values() {
    let a: Vector<u64, 3> = Vector::new(vec![11, 22, 33]);
    let b: Vector<u64, 3> = Vector::new(vec![1, 2, 3]);
    assert!(a.sub(&b) == Vector::new(vec![10, 20, 30]));
}

#[test]
fn vector_scale_values() {
    let a: Vector<u64, 3> = Vector::new(vec![1, 2, 3]);
    assert!(a.scale(5) == Vector::new(vec![5, 10, 15]));
}

#[test]
fn dot_with_zero_vector_is_zero() {
    let a: Vector<u64, 3> = Vector::new(vec![9, 8, 7]);
    let z: Vector<u64, 3> = Vector::zero();
    assert_eq!(a.dot(&z), 0);
}
