use auto_tiler::Matrix;

#[test]
fn test_matrix_creation() {
    let mat = Matrix::new(3, 4, 0);
    assert_eq!(mat.rows(), 4);
    assert_eq!(mat.cols(), 3);
}

#[test]
fn test_matrix_access() {
    let mut mat = Matrix::new(2, 3, 0);
    mat.set(1, 2, 42).unwrap();
    assert_eq!(mat.get(1, 2), Some(&42));
    assert_eq!(mat[(1, 2)], 42);
}

#[test]
fn test_matrix_indexing() {
    let mut mat = Matrix::new(2, 2, 0);
    *mat.get_mut(0, 0).unwrap() = 1;
    *mat.get_mut(0, 1).unwrap() = 2;
    *mat.get_mut(1, 0).unwrap() = 3;
    *mat.get_mut(1, 1).unwrap() = 4;

    assert_eq!(mat[(0, 0)], 1);
    assert_eq!(mat[(1, 1)], 4);
}

#[test]
fn matrix_from_vec_checks_length() {
    assert!(Matrix::from_vec(vec![1, 2, 3], 2, 2).is_err());
    assert!(Matrix::from_vec(vec![1, 2, 3], usize::MAX, 2).is_err());
    let mat = Matrix::from_vec(vec![1, 2, 3, 4, 5, 6], 3, 2).unwrap();
    assert_eq!(mat.size(), (3, 2));
    assert_eq!(mat.get(2, 0), Some(&3));
    assert_eq!(mat.get(0, 1), Some(&4));
    assert_eq!(mat[(2, 1)], 6);
}

#[test]
fn matrix_error_messages() {
    let err = Matrix::from_vec(vec![1, 2, 3], 2, 2).err().unwrap();
    assert_eq!(err, "Data length 3 doesn't match dimensions 2x2");
    let mut mat = Matrix::new(2, 3, 0);
    let err = mat.set(2, 1, 7).err().unwrap();
    assert_eq!(err, "Index (1, 2) out of bounds");
}

#[test]
fn matrix_out_of_bounds_is_none() {
    let mut mat = Matrix::new(2, 3, 5);
    assert_eq!(mat.get(2, 0), None);
    assert_eq!(mat.get(0, 3), None);
    assert!(mat.get_mut(2, 2).is_none());
    assert!(mat.set(0, 3, 1).is_err());
    assert_eq!(mat.iter().copied().collect::<Vec<i32>>(), vec![5; 6]);
    assert_eq!(mat.row(3), None);
}

#[test]
fn matrix_rows_and_keys() {
    let mut mat = Matrix::from_vec(vec![1, 2, 3, 4, 5, 6], 2, 3).unwrap();
    assert_eq!(mat.row(1), Some(&[3, 4][..]));
    assert_eq!(
        mat.keys(),
        vec![(0, 0), (1, 0), (0, 1), (1, 1), (0, 2), (1, 2)]
    );
    for cell in mat.iter_mut() {
        *cell *= 10;
    }
    assert_eq!(mat.iter().copied().collect::<Vec<i32>>(), vec![10, 20, 30, 40, 50, 60]);
}

#[test]
fn matrix_empty_dimensions() {
    let mat: Matrix<u8> = Matrix::new(0, 4, 1);
    assert_eq!(mat.size(), (0, 4));
    assert_eq!(mat.keys(), vec![]);
    assert_eq!(mat.row(2), Some(&[][..]));
    assert_eq!(mat.get(0, 0), None);
}
