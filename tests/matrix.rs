use ray_tracer::matrix::{Matrix, NonInvertibleError};

fn identity() -> Matrix<f32, 4> {
    Matrix::from([
        [1.0, 0.0, 0.0, 0.0],
        [0.0, 1.0, 0.0, 0.0],
        [0.0, 0.0, 1.0, 0.0],
        [0.0, 0.0, 0.0, 1.0],
    ])
}

#[test]
fn matrices_constructed_from_rows() {
    let _ = Matrix::from([
        [1.0, 2.0, 3.0, 4.0],
        [5.5, 6.5, 7.5, 8.5],
        [9.0, 10.0, 11.0, 12.0],
        [13.5, 14.5, 15.5, 16.5],
    ]);
}

#[test]
fn matrices_indexed_by_row_col() {
    let m = Matrix::from([
        [1.0, 2.0, 3.0, 4.0],
        [5.5, 6.5, 7.5, 8.5],
        [9.0, 10.0, 11.0, 12.0],
        [13.5, 14.5, 15.5, 16.5],
    ]);

    assert_eq!(m.row(0)[0], 1.0);
    assert_eq!(m.row(0)[3], 4.0);
    assert_eq!(m.row(1)[0], 5.5);
    assert_eq!(m.row(1)[2], 7.5);
    assert_eq!(m.row(2)[2], 11.0);
    assert_eq!(m.row(3)[0], 13.5);
    assert_eq!(m.row(3)[2], 15.5);
}

#[test]
fn matrices_with_the_same_values_are_equal() {
    let m1 = Matrix::from([
        [1.0, 2.0, 3.0, 4.0],
        [5.0, 6.0, 7.0, 8.0],
        [9.0, 8.0, 8.0, 6.0],
        [5.0, 4.0, 3.0, 2.0],
    ]);
    let m2 = Matrix::from([
        [1.0, 2.0, 3.0, 4.0],
        [5.0, 6.0, 7.0, 8.0],
        [9.0, 8.0, 8.0, 6.0],
        [5.0, 4.0, 3.0, 2.0],
    ]);

    assert_eq!(m1, m2);
}

#[test]
fn matrices_with_the_different_values_are_not_equal() {
    let m1: Matrix<f32, 4> = Matrix::from([
        [1.0, 2.0, 3.0, 4.0],
        [5.0, 6.0, 7.0, 8.0],
        [9.0, 8.0, 8.0, 6.0],
        [5.0, 4.0, 3.0, 2.0],
    ]);
    let m2: Matrix<f32, 4> = Matrix::from([
        [2.0, 3.0, 4.0, 5.0],
        [6.0, 7.0, 8.0, 9.0],
        [8.0, 7.0, 6.0, 5.0],
        [4.0, 3.0, 2.0, 1.0],
    ]);

    assert_ne!(m1, m2);
}

#[test]
fn transposing_a_matrix() {
    let a = Matrix::from([
        [0.0, 9.0, 3.0, 0.0],
        [9.0, 8.0, 0.0, 8.0],
        [1.0, 8.0, 5.0, 3.0],
        [0.0, 0.0, 5.0, 8.0],
    ]);
    let b = Matrix::from([
        [0.0, 9.0, 1.0, 0.0],
        [9.0, 8.0, 8.0, 0.0],
        [3.0, 0.0, 5.0, 5.0],
        [0.0, 8.0, 3.0, 8.0],
    ]);

    assert_eq!(a.transpose(), b);
}

#[test]
fn transposing_the_identity_matrix_return_identity() {
    let a = identity();

    assert_eq!(a.transpose(), a);
}

#[test]
fn transposing_twice_gives_the_matrix_back() {
    let a = Matrix::from([
        [1, 2, 3, 4],
        [5, 6, 7, 8],
        [9, 10, 11, 12],
        [13, 14, 15, 16],
    ]);

    assert_eq!(a.transpose().transpose(), a);
    assert_ne!(a.transpose(), a);
}

#[test]
fn transposing_a_two_by_two_matrix() {
    let a = Matrix::from([[1, 2], [3, 4]]);

    assert_eq!(a.transpose(), Matrix::from([[1, 3], [2, 4]]));
}

#[test]
fn a_submatrix_of_a_3x3_matrix_is_a_2x2_matrix() {
    let a = Matrix::from([[1.0, 5.0, 0.0], [-3.0, 2.0, 7.0], [0.0, 6.0, -3.0]]);

    assert_eq!(a.submatrix(0, 2), Matrix::from([[-3.0, 2.0], [0.0, 6.0]]));
}

#[test]
fn a_submatrix_of_a_4x4_matrix_is_a_3x3_matrix() {
    let a = Matrix::from([
        [-6.0, 1.0, 1.0, 6.0],
        [-8.0, 5.0, 8.0, 6.0],
        [-1.0, 0.0, 8.0, 2.0],
        [-7.0, 1.0, -1.0, 1.0],
    ]);

    assert_eq!(
        a.submatrix(2, 1),
        Matrix::from([[-6.0, 1.0, 6.0], [-8.0, 8.0, 6.0], [-7.0, -1.0, 1.0]])
    );
}

#[test]
fn cutting_the_last_row_and_column_keeps_the_top_left() {
    let a = Matrix::from([
        [1, 2, 3, 4],
        [5, 6, 7, 8],
        [9, 10, 11, 12],
        [13, 14, 15, 16],
    ]);

    assert_eq!(a.submatrix(3, 3), Matrix::from([[1, 2, 3], [5, 6, 7], [9, 10, 11]]));
    assert_eq!(a.submatrix(0, 0), Matrix::from([[6, 7, 8], [10, 11, 12], [14, 15, 16]]));
}

#[test]
fn a_new_matrix_holds_its_fill_everywhere() {
    let m: Matrix<f32, 4> = Matrix::new(0.0);

    assert_eq!(m.len(), 4);
    for row in 0..4 {
        for col in 0..4 {
            assert_eq!(m.get(row, col), 0.0);
        }
    }
}

#[test]
fn setting_an_entry_changes_only_that_entry() {
    let mut m: Matrix<i32, 3> = Matrix::new(7);

    m.set(1, 2, -4);

    assert_eq!(m.get(1, 2), -4);
    assert_eq!(m.get(2, 1), 7);
    assert_eq!(m, Matrix::from([[7, 7, 7], [7, 7, -4], [7, 7, 7]]));
}

#[test]
fn non_invertible_error_describes_itself() {
    assert_eq!(
        NonInvertibleError.message(),
        "matrix is non-invertible, but `inv()` was called"
    );
}
