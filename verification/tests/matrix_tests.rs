use river::matrix::{pivot_row, Matrix};
use river::scalar::Scalar;

fn num(x: f64) -> Scalar {
    Scalar::from_bits(x.to_bits())
}

fn matrix(values: &[f64], rows: usize, cols: usize) -> Matrix {
    assert_eq!(values.len(), rows * cols);
    Matrix::new(values.iter().map(|x| num(*x)).collect(), (rows, cols))
}

fn column(values: &[f64]) -> Vec<Scalar> {
    values.iter().map(|x| num(*x)).collect()
}

#[test]
fn scratchpad() {
    let t = matrix(
        &[
            1.0, -1.0, -1.0, 1.0, //
            2.0, 0.0, 2.0, 0.0, //
            0.0, -1.0, -2.0, 0.0, //
            3.0, -3.0, -2.0, 4.0,
        ],
        4,
        4,
    );
    assert!(t.is_well_formed());
    assert!(t.is_square());
    assert_eq!(t.get_pivot_row_idx(0), 0);
    assert_eq!(t.get_pivot_row_idx(1), 0);
    assert_eq!(t.get_pivot_row_idx(2), 0);
    assert_eq!(t.get_pivot_row_idx(3), 0);
}

#[test]
fn new_keeps_entries_and_dimensions() {
    let m = matrix(&[1.0, 2.0, 3.0, 4.0, 5.0, 6.0], 2, 3);
    assert_eq!(m.dimensions, (2, 3));
    assert_eq!(m.rows(), 2);
    assert_eq!(m.cols(), 3);
    assert_eq!(m.elements.len(), 6);
    assert!(m.is_well_formed());
    assert!(!m.is_square());
}

#[test]
fn is_well_formed_compares_count_and_dimensions() {
    let short = Matrix { elements: column(&[1.0, 2.0, 3.0]), dimensions: (2, 2) };
    assert!(!short.is_well_formed());
    let huge = Matrix { elements: Vec::new(), dimensions: (usize::MAX, 2) };
    assert!(!huge.is_well_formed());
    let none = Matrix { elements: Vec::new(), dimensions: (0, 5) };
    assert!(none.is_well_formed());
}

#[test]
fn get_element_is_row_major() {
    let m = matrix(&[1.0, 2.0, 3.0, 4.0, 5.0, 6.0], 2, 3);
    assert_eq!(m.get_element(0, 0), num(1.0));
    assert_eq!(m.get_element(0, 2), num(3.0));
    assert_eq!(m.get_element(1, 0), num(4.0));
    assert_eq!(m.get_element(1, 2), num(6.0));
}

#[test]
fn get_row_and_get_column() {
    let m = matrix(&[1.0, 2.0, 3.0, 4.0, 5.0, 6.0], 2, 3);
    assert_eq!(m.get_row(0), column(&[1.0, 2.0, 3.0]));
    assert_eq!(m.get_row(1), column(&[4.0, 5.0, 6.0]));
    assert_eq!(m.get_column(0), column(&[1.0, 4.0]));
    assert_eq!(m.get_column(2), column(&[3.0, 6.0]));
}

#[test]
fn pivot_is_first_entry_of_least_nonzero_magnitude() {
    assert_eq!(pivot_row(&column(&[3.0, -2.0, 5.0])), 1);
    assert_eq!(pivot_row(&column(&[3.0, -2.0, 2.0, 5.0])), 1);
    assert_eq!(pivot_row(&column(&[0.0, 4.0, -0.5, 0.0, 0.5])), 2);
    assert_eq!(pivot_row(&column(&[1.0])), 0);
    assert_eq!(pivot_row(&column(&[2.0, f64::INFINITY, 1.0])), 2);
    assert_eq!(pivot_row(&column(&[f64::INFINITY, 7.0])), 1);
}

#[test]
fn pivot_skips_zeros() {
    assert_eq!(pivot_row(&column(&[0.0, -0.0, 9.0, 0.0])), 2);
    assert_eq!(pivot_row(&column(&[9.0, 0.0, 0.0])), 0);
}

#[test]
fn pivot_of_a_zero_column_is_the_last_row() {
    assert_eq!(pivot_row(&column(&[0.0, -0.0, 0.0])), 2);
    assert_eq!(pivot_row(&column(&[0.0])), 0);
}

#[test]
fn pivot_with_nan() {
    assert_eq!(pivot_row(&column(&[f64::NAN, 1.0, 0.5])), 0);
    assert_eq!(pivot_row(&column(&[0.0, f64::NAN, 1.0])), 1);
    assert_eq!(pivot_row(&column(&[2.0, f64::NAN, 1.0])), 2);
    assert_eq!(pivot_row(&column(&[1.0, f64::NAN, 2.0])), 0);
}

#[test]
fn get_pivot_row_idx_scans_the_column() {
    let m = matrix(
        &[
            4.0, 0.0, 0.0, //
            -1.0, 0.0, 6.0, //
            2.0, 0.0, -3.0,
        ],
        3,
        3,
    );
    assert_eq!(m.get_pivot_row_idx(0), 1);
    assert_eq!(m.get_pivot_row_idx(1), 2);
    assert_eq!(m.get_pivot_row_idx(2), 2);
}

fn scan_on_numbers(column: &[f64]) -> usize {
    let mut pivot = 0;
    let mut least = column[0].abs();
    for idx in 1..column.len() {
        if (column[idx].abs() < least && column[idx] != 0.0) || least == 0.0 {
            pivot = idx;
            least = column[idx].abs();
        }
    }
    pivot
}

#[test]
fn pivot_row_agrees_with_a_scan_on_the_numbers() {
    let palette = [
        0.0,
        -0.0,
        1.0,
        -1.0,
        0.5,
        -0.25,
        3.0,
        1e-310,
        -5e-324,
        f64::MAX,
        f64::INFINITY,
        f64::NEG_INFINITY,
        f64::NAN,
    ];
    let mut state: u64 = 0x9e37_79b9_7f4a_7c15;
    for round in 0..4000 {
        let len = 1 + round % 6;
        let mut values = Vec::new();
        for _ in 0..len {
            state = state.wrapping_mul(6364136223846793005).wrapping_add(1442695040888963407);
            values.push(palette[((state >> 33) % palette.len() as u64) as usize]);
        }
        assert_eq!(pivot_row(&column(&values)), scan_on_numbers(&values), "{:?}", values);
    }
}
