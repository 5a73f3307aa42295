use laplace::algebra::{Matrix, MatrixError, Tensor, Vector};

#[test]
fn transpose() {
    let mat = Matrix::from([[1, 2], [3, 4]]);

    assert_eq!(mat.transpose(), Matrix::from([[1, 3], [2, 4]]));
}

#[test]
fn matrix_mult() {
    let a = Matrix::from([[1, 2], [3, 4]]);
    let b = Matrix::from([[5, 6], [7, 8]]);

    assert_eq!(a * b, Matrix::from([[19, 22], [43, 50]]))
}

#[test]
fn flattening() {
    // 3 x 3 matrix
    let ts = Tensor::<i32>::new().reshape(&[3, 3]);

    assert_eq!(ts.flat_index(&[0, 1]), 1);
    assert_eq!(ts.flat_index(&[2, 2]), 8);
}

#[test]
fn sum() {
    let v1 = Vector::from([1, 2, 3]);
    let v2 = Vector::from([1, 2, 3]);

    assert_eq!(v1 + v2, Vector::from([2, 4, 6]));
}

#[test]
fn scalar_mult() {
    let v = Vector::from([1, 2, 3]);
    assert_eq!(v * 3, Vector::from([3, 6, 9]));
}

#[test]
fn dot_product() {
    let v1 = Vector::from([1, 2, 3]);
    let v2 = Vector::from([1, 2, 3]);

    assert_eq!(v1 * v2, 14);
}

#[test]
fn non_square_product() {
    // (2 x 3) * (3 x 2) = 2 x 2
    let a = Matrix::from([[1, 2, 3], [4, 5, 6]]);
    let b = Matrix::from([[7, 8], [9, 10], [11, 12]]);
    assert_eq!(a * b, Matrix::from([[58, 64], [139, 154]]));

    // (2 x 1) * (1 x 3) = 2 x 3
    let c = Matrix::from([[2], [3]]);
    let d = Matrix::from([[1, 10, 100]]);
    assert_eq!(c * d, Matrix::from([[2, 20, 200], [3, 30, 300]]));
}

#[test]
fn matrix_add_sub_and_scale() {
    let a = Matrix::from([[1, 2], [3, 4]]);
    let b = Matrix::from([[10, 20], [30, 40]]);
    assert_eq!(a.clone() + b.clone(), Matrix::from([[11, 22], [33, 44]]));
    assert_eq!(b.clone() - a.clone(), Matrix::from([[9, 18], [27, 36]]));
    assert_eq!((a.clone() + b.clone()) - b, a.clone());
    assert_eq!(a * -2, Matrix::from([[-2, -4], [-6, -8]]));
}

#[test]
fn matrix_access() {
    let mut m = Matrix::from([[1, 2, 3], [4, 5, 6]]);
    assert_eq!(m.shape(), (2, 3));
    assert_eq!(m.at(1, 2), Ok(&6));
    assert_eq!(m.at(2, 0), Err(MatrixError::MismatchingDimensions));
    assert_eq!(m.at(0, 3), Err(MatrixError::MismatchingDimensions));
    assert_eq!(m.at_clone(0, 1), Ok(2));
    assert_eq!(m.at_clone(5, 5), Err(MatrixError::MismatchingDimensions));

    m.set(0, 0, 9);
    assert_eq!(m.at(0, 0), Ok(&9));
    if let Ok(e) = m.at_mut(1, 1) {
        *e = 50;
    }
    assert_eq!(m.at_clone(1, 1), Ok(50));
    assert!(m.at_mut(3, 0).is_err());
    assert_eq!(m, Matrix::from([[9, 2, 3], [4, 50, 6]]));
}

#[test]
fn matrix_rows_and_columns() {
    let mut m = Matrix::from([[1, 2, 3], [4, 5, 6]]);
    assert_eq!(m.get_row(1).unwrap(), Vector::from([4, 5, 6]));
    assert!(m.get_row(2).is_err());
    assert_eq!(m.get_column(2).unwrap(), Vector::from([3, 6]));
    assert!(matches!(m.get_column(3), Err(MatrixError::MismatchingDimensions)));

    m.set_row(0, Vector::from([7, 8, 9]));
    assert_eq!(m, Matrix::from([[7, 8, 9], [4, 5, 6]]));

    // column j of a matrix is row j of its transpose
    let t = m.transpose();
    assert_eq!(t.get_row(1).unwrap(), m.get_column(1).unwrap());
    assert_eq!(t.transpose(), m);
}

#[test]
fn matrix_default_and_equality() {
    let z: Matrix<i64, 2, 3> = Matrix::default();
    assert_eq!(z, Matrix::from([[0, 0, 0], [0, 0, 0]]));

    let a = Matrix::from([[1, 2], [3, 4]]);
    let b = Matrix::from([[1, 2], [3, 5]]);
    assert!(a != b);
    assert!(!(a == b));
    assert!(a == a.clone());
}

#[test]
fn vector_access() {
    let mut v = Vector::from([1, 2, 3]);
    assert_eq!(v.at(0), Some(&1));
    assert_eq!(v.at(3), None);
    assert_eq!(v.at_clone(2), Some(3));
    assert_eq!(v.at_clone(7), None);
    if let Some(x) = v.at_mut(1) {
        *x = 20;
    }
    assert!(v.at_mut(3).is_none());
    let arr: [i32; 3] = v.into();
    assert_eq!(arr, [1, 20, 3]);
}

#[test]
fn vector_arithmetic() {
    let a = Vector::from([5, -2, 7]);
    let b = Vector::from([1, 2, 3]);
    assert_eq!(a - b, Vector::from([4, -4, 4]));
    assert_eq!(-Vector::from([5, -2, 7]), Vector::from([-5, 2, -7]));
    assert_eq!(Vector::from([1, 2, 3]) * Vector::from([4, 5, 6]), 32);
    assert_eq!(Vector::from([4, 5, 6]) * Vector::from([1, 2, 3]), 32);

    let z: Vector<i32, 4> = Vector::default();
    assert_eq!(z, Vector::from([0, 0, 0, 0]));
    let empty: Vector<i32, 0> = Vector::default();
    assert_eq!(empty * Vector::from([]), 0);
    assert!(Vector::from([1, 2]) != Vector::from([1, 3]));
}

#[test]
fn tensor_shape_and_validity() {
    let ts = Tensor::<i32>::new();
    assert_eq!(ts.rank(), 0);
    let ts = ts.reshape(&[2, 3, 4]);
    assert_eq!(ts.rank(), 3);
    assert!(ts.is_valid(&[1, 2, 3]));
    assert!(!ts.is_valid(&[2, 0, 0]));
    assert!(!ts.is_valid(&[0, 0]));
    // row-major: ((1 * 3) + 2) * 4 + 3
    assert_eq!(ts.flat_index(&[1, 2, 3]), 23);
    assert_eq!(ts.flat_index(&[0, 0, 0]), 0);
    assert_eq!(ts.flat_index(&[0, 1, 0]), 4);
}

#[test]
fn transpose_of_product() {
    let a = Matrix::from([[1, 2, 3], [4, 5, 6]]);
    let b = Matrix::from([[7, 8], [9, 10], [11, 12]]);
    let ab = a.clone() * b.clone();
    assert_eq!(ab.transpose(), b.transpose() * a.transpose());
}

#[test]
fn vector_add_then_sub() {
    let a = Vector::from([3i64, -4, 9]);
    let b = Vector::from([10i64, 20, -30]);
    let s = a + b;
    assert_eq!(s - Vector::from([10i64, 20, -30]), Vector::from([3i64, -4, 9]));
}
