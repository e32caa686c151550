use denon_control::matrix::Matrix;

/// Build a matrix from row-major entries.
fn build(rows: u32, cols: u32, entries: &[i64]) -> Matrix {
    assert_eq!((rows * cols) as usize, entries.len());
    let mut m = Matrix::new(rows, cols);
    let mut i = 0;
    for row in 0..rows {
        for col in 0..cols {
            m.set(row, col, entries[i]);
            i += 1;
        }
    }
    m
}

#[test]
fn new() {
    let m = Matrix::new(3, 4);
    assert_eq!(3, m.rows());
    assert_eq!(4, m.cols());
    for i in 0..3 {
        for j in 0..4 {
            assert_eq!(0, m.get(i, j));
        }
    }
}

#[test]
fn set_get() {
    let mut m = Matrix::new(4, 4);
    m.set(0, 0, 3);
    assert_eq![3, m.get(0, 0)];
    m.set(1, 1, 6);
    assert_eq![6, m.get(1, 1)];
    m.set(2, 2, 8);
    assert_eq![8, m.get(2, 2)];
    m.set(3, 3, -10);
    assert_eq![-10, m.get(3, 3)];
    m.set(0, 3, -100);
    assert_eq![-100, m.get(0, 3)];
    m.set(3, 0, -400);
    assert_eq![-400, m.get(3, 0)];
}

#[test]
fn mmatrix() {
    let m1 = build(1, 1, &[3]);
    assert_eq![1, m1.rows()];
    assert_eq![1, m1.cols()];
    assert_eq![3, m1.get(0, 0)];

    let m2 = build(1, 3, &[1, 2, 3]);
    assert_eq![1, m2.rows()];
    assert_eq![3, m2.cols()];
    assert_eq![1, m2.get(0, 0)];
    assert_eq![2, m2.get(0, 1)];
    assert_eq![3, m2.get(0, 2)];

    let m3 = build(3, 1, &[1, 2, 3]);
    assert_eq![3, m3.rows()];
    assert_eq![1, m3.cols()];
    assert_eq![1, m3.get(0, 0)];
    assert_eq![2, m3.get(1, 0)];
    assert_eq![3, m3.get(2, 0)];

    let m4 = build(2, 3, &[1, 2, 3, 4, 5, 6]);
    assert_eq![2, m4.rows()];
    assert_eq![3, m4.cols()];
    assert_eq![1, m4.get(0, 0)];
    assert_eq![2, m4.get(0, 1)];
    assert_eq![3, m4.get(0, 2)];
    assert_eq![4, m4.get(1, 0)];
    assert_eq![5, m4.get(1, 1)];
    assert_eq![6, m4.get(1, 2)];
}

#[test]
fn mmatrix_brackets() {
    let m = build(3, 3, &[1, 2, 3, 4, 5, 6, 7, 8, 9]);
    let mm = build(3, 3, &[1, 2, 3, 4, 5, 6, 7, 8, 9]);
    assert_eq!(m, mm);
}

#[test]
fn eq() {
    let m0 = build(1, 2, &[1, 2]);
    let m1 = build(1, 2, &[2, 3]);
    let m2 = build(2, 1, &[2, 3]);
    let m3 = build(2, 3, &[1, 3, 3, 4, 7, 7]);
    let m4 = build(2, 3, &[2, 3, 3, 4, 7, 7]);
    assert_eq!(m0, m0);
    assert_eq!(m1, m1);
    assert_eq!(m2, m2);
    assert_eq!(m3, m3);
    assert_eq!(m4, m4);
    assert!(m0 != m1);
    assert!(m0 != m2);
    assert!(m0 != m3);
    assert!(m0 != m4);
    assert!(m1 != m2);
    assert!(m1 != m3);
    assert!(m1 != m4);
    assert!(m2 != m3);
    assert!(m2 != m4);
    assert!(m3 != m4);
}

#[test]
fn scale() {
    let m0 = build(2, 2, &[1, 2, 3, 4]);
    let m1 = build(2, 2, &[2, 0, 0, 2]);
    let result = m0.mul(m1);
    assert_eq!(build(2, 2, &[2, 4, 6, 8]), result);
}

#[test]
fn mult_4x4_matrix() {
    assert_eq!(
        build(2, 2, &[19, 22, 43, 50]),
        build(2, 2, &[1, 2, 3, 4]).mul(build(2, 2, &[5, 6, 7, 8]))
    );
}

#[test]
fn select_vector_from_matrix() {
    assert_eq!(
        build(2, 1, &[1, 3]),
        build(2, 2, &[1, 2, 3, 4]).mul(build(2, 1, &[1, 0]))
    );
}
