use cantor::matrix::Matrix;

#[test]
fn matrix_addition() {
    let a: Matrix<u64, 3, 3> = Matrix::zeroes();
    let b: Matrix<u64, 3, 3> = Matrix::new(vec![2, 3, 4, 4, 5, 6, 5, 7, 9]);

    assert!(a.matmul(&b) == a)
}

#[test]
fn matrix_subtraction() {}

#[test]
fn add_zeroes_keeps_matrix() {
    let a: Matrix<u64, 2, 3> = Matrix::new(vec![1, 2, 3, 4, 5, 6]);
    let z: Matrix<u64, 2, 3> = Matrix::zeroes();
    assert!(a.add(&z) == a);
}

#[test]
fn add_then_sub_cancels() {
    let a: Matrix<u64, 2, 2> = Matrix::new(vec![10, 20, 30, 40]);
    let b: Matrix<u64, 2, 2> = Matrix::new(vec![7, 5, 3, 1]);
    assert!(a.add(&b).sub(&b) == a);
}

#[test]
fn add_values() {
    let a: Matrix<u64, 2, 2> = Matrix::new(vec![1, 2, 3, 4]);
    let b: Matrix<u64, 2, 2> = Matrix::new(vec![10, 20, 30, 40]);
    assert!(a.add(&b) == Matrix::new(vec![11, 22, 33, 44]));
}

#[test]
fn sub_values() {
    let a: Matrix<u64, 2, 2> = Matrix::new(vec![11, 22, 33, 44]);
    let b: Matrix<u64, 2, 2> = Matrix::new(vec![1, 2, 3, 4]);
    assert!(a.sub(&b) == Matrix::new(vec![10, 20, 30, 40]));
}

#[test]
fn add_wraps_at_the_top() {
    let a: Matrix<u64, 1, 1> = Matrix::new(vec![u64::MAX]);
    let b: Matrix<u64, 1, 1> = Matrix::new(vec![1]);
    assert!(a.add(&b) == Matrix::new(vec![0]));
}

#[test]
fn add_assign_matches_add() {
    let mut a: Matrix<u64, 2, 2> = Matrix::new(vec![1, 2, 3, 4]);
    let b: Matrix<u64, 2, 2> = Matrix::new(vec![5, 6, 7, 8]);
    a.add_assign(&b);
    assert!(a == Matrix::new(vec![6, 8, 10, 12]));
}

#[test]
fn sub_assign_matches_sub() {
    let mut a: Matrix<u64, 2, 2> = Matrix::new(vec![6, 8, 10, 12]);
    let b: Matrix<u64, 2, 2> = Matrix::new(vec![5, 6, 7, 8]);
    a.sub_assign(&b);
    assert!(a == Matrix::new(vec![1, 2, 3, 4]));
}

#[test]
fn matmul_2x2_values() {
    let a: Matrix<u64, 2, 2> = Matrix::new(vec![1, 2, 3, 4]);
    let b: Matrix<u64, 2, 2> = Matrix::new(vec![5, 6, 7, 8]);
    assert!(a.matmul(&b) == Matrix::new(vec![19, 22, 43, 50]));
}

#[test]
fn matmul_rectangular_shapes() {
    let a: Matrix<u64, 2, 3> = Matrix::new(vec![1, 2, 3, 4, 5, 6]);
    let b: Matrix<u64, 3, 2> = Matrix::new(vec![7, 8, 9, 10, 11, 12]);
    let r: Matrix<u64, 2, 2> = a.matmul(&b);
    assert!(r == Matrix::new(vec![58, 64, 139, 154]));
}

#[test]
fn matmul_is_associative() {
    let a: Matrix<u64, 2, 3> = Matrix::new(vec![1, 2, 3, 4, 5, 6]);
    let b: Matrix<u64, 3, 2> = Matrix::new(vec![7, 8, 9, 10, 11, 12]);
    let c: Matrix<u64, 2, 2> = Matrix::new(vec![2, 0, 1, 3]);
    assert!(a.matmul(&b).matmul(&c) == a.matmul(&b.matmul(&c)));
}

#[test]
fn mul_assign_matches_matmul() {
    let mut a: Matrix<u64, 2, 2> = Matrix::new(vec![1, 2, 3, 4]);
    let b: Matrix<u64, 2, 2> = Matrix::new(vec![5, 6, 7, 8]);
    let expected = a.matmul(&b);
    a.mul_assign(&b);
    assert!(a == expected);
}

#[test]
fn identity_values() {
    let e: Matrix<u64, 3, 3> = Matrix::identity();
    assert!(e == Matrix::new(vec![1, 0, 0, 0, 1, 0, 0, 0, 1]));
}

#[test]
fn identity_is_neutral_for_matmul() {
    let a: Matrix<u64, 3, 3> = Matrix::new(vec![2, 3, 4, 5, 6, 7, 8, 9, 10]);
    let e: Matrix<u64, 3, 3> = Matrix::identity();
    assert!(a.matmul(&e) == a);
    assert!(e.matmul(&a) == a);
}

#[test]
fn ones_values() {
    let a: Matrix<u64, 2, 2> = Matrix::ones();
    assert!(a == Matrix::new(vec![1, 1, 1, 1]));
}

#[test]
fn transpose_2x2_values() {
    let a: Matrix<u64, 2, 2> = Matrix::new(vec![1, 2, 3, 4]);
    assert!(a.transpose() == Matrix::new(vec![1, 3, 2, 4]));
}

#[test]
fn transpose_swaps_dimensions() {
    let a: Matrix<u64, 2, 3> = Matrix::new(vec![1, 2, 3, 4, 5, 6]);
    let t: Matrix<u64, 3, 2> = a.transpose();
    for i in 0..2 {
        for j in 0..3 {
            assert_eq!(t.get(j, i), a.get(i, j));
        }
    }
}

#[test]
fn transpose_twice_gives_original() {
    let a: Matrix<u64, 2, 3> = Matrix::new(vec![1, 2, 3, 4, 5, 6]);
    assert!(a.transpose().transpose() == a);
}

#[test]
fn transpose_in_place_matches_transpose() {
    let mut a: Matrix<u64, 3, 3> = Matrix::new(vec![1, 2, 3, 4, 5, 6, 7, 8, 9]);
    let t: Matrix<u64, 3, 3> = a.transpose();
    a.transpose_in_place();
    assert!(a == t);
}

#[test]
fn set_then_get_round_trip() {
    let mut a: Matrix<u64, 2, 2> = Matrix::zeroes();
    for r in 0..2 {
        for c in 0..2 {
            let v = (10 * r + c) as u64;
            a.set(r, c, v);
            assert_eq!(a.get(r, c), v);
        }
    }
    assert!(a == Matrix::new(vec![0, 1, 10, 11]));
}

#[test]
fn scale_multiplies_every_element() {
    let mut a: Matrix<u64, 2, 2> = Matrix::new(vec![1, 2, 3, 4]);
    a.scale(3);
    assert!(a == Matrix::new(vec![3, 6, 9, 12]));
}

#[test]
fn equals_agrees_with_eq() {
    let a: Matrix<u64, 2, 2> = Matrix::new(vec![1, 2, 3, 4]);
    let b: Matrix<u64, 2, 2> = Matrix::new(vec![1, 2, 3, 4]);
    let c: Matrix<u64, 2, 2> = Matrix::new(vec![1, 2, 3, 5]);
    assert!(a.equals(&b));
    assert!(!a.equals(&c));
    assert!(a == b);
    assert!(a != c);
}

#[test]
fn render_2x2() {
    let a: Matrix<u64, 2, 2> = Matrix::new(vec![1, 2, 3, 4]);
    assert_eq!(a.render(), "[1 2]\n[3 4]");
}

#[test]
fn render_multi_digit_elements() {
    let a: Matrix<u64, 1, 3> = Matrix::new(vec![0, 10, 305]);
    assert_eq!(a.render(), "[0 10 305]");
}

#[test]
fn zero_sized_matrix() {
    let a: Matrix<u64, 0, 0> = Matrix::zeroes();
    let b: Matrix<u64, 0, 0> = Matrix::new(vec![]);
    assert!(a == b);
    assert_eq!(a.render(), "");
}
