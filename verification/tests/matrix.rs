use nn_rust::error::Error;
use nn_rust::matrix::Matrix;
use nn_rust::scalar::{scale, sigmoid, sigmoid_slope, Scalar};
use std::cell::Cell;

#[derive(Clone, Copy, Debug, PartialEq)]
struct Real(f32);

impl Scalar for Real {
    fn zero() -> Self {
        Real(0.0)
    }

    fn one() -> Self {
        Real(1.0)
    }

    fn from_count(n: usize) -> Self {
        Real(n as f32)
    }

    fn plus(self, rhs: Self) -> Self {
        Real(self.0 + rhs.0)
    }

    fn minus(self, rhs: Self) -> Self {
        Real(self.0 - rhs.0)
    }

    fn times(self, rhs: Self) -> Self {
        Real(self.0 * rhs.0)
    }

    fn over(self, rhs: Self) -> Self {
        Real(self.0 / rhs.0)
    }

    fn negated(self) -> Self {
        Real(-self.0)
    }

    fn exp(self) -> Self {
        Real(self.0.exp())
    }
}

fn reals(rows: &[&[f32]]) -> Matrix<Real> {
    let rows: Vec<Vec<Real>> = rows.iter().map(|r| r.iter().map(|&x| Real(x)).collect()).collect();
    Matrix::from_rows(&rows).unwrap()
}

fn cells(m: &Matrix<Real>) -> Vec<Vec<f32>> {
    (0..m.rows()).map(|i| (0..m.cols()).map(|j| m.get(i, j).0).collect()).collect()
}

/// A small linear congruential generator of numbers in `[0, 1)`.
fn unit_draws(seed: u64) -> impl Fn() -> Real {
    let state = Cell::new(seed);
    move || {
        let next = state.get().wrapping_mul(6364136223846793005).wrapping_add(1442695040888963407);
        state.set(next);
        Real(((next >> 40) as f32) / ((1u64 << 24) as f32))
    }
}

#[test]
fn new_is_zero_filled() {
    let m: Matrix<Real> = Matrix::new(2, 3);
    assert_eq!(m.rows(), 2);
    assert_eq!(m.cols(), 3);
    assert_eq!(cells(&m), vec![vec![0.0; 3]; 2]);
}

#[test]
fn new_may_be_empty() {
    let m: Matrix<Real> = Matrix::new(0, 5);
    assert_eq!((m.rows(), m.cols()), (0, 5));
    let m: Matrix<Real> = Matrix::new(4, 0);
    assert_eq!((m.rows(), m.cols()), (4, 0));
    assert_eq!(cells(&m), vec![Vec::<f32>::new(); 4]);
}

#[test]
fn from_rows_keeps_the_values() {
    let m = reals(&[&[1.0, 2.0, 3.0], &[4.0, 5.0, 6.0]]);
    assert_eq!((m.rows(), m.cols()), (2, 3));
    assert_eq!(cells(&m), vec![vec![1.0, 2.0, 3.0], vec![4.0, 5.0, 6.0]]);
    assert_eq!(m.get(1, 0), Real(4.0));
}

#[test]
fn from_rows_refuses_ragged_rows() {
    let rows = vec![vec![Real(1.0), Real(2.0)], vec![Real(3.0)]];
    assert_eq!(Matrix::from_rows(&rows).err(), Some(Error::DimensionMismatch));
    let rows = vec![vec![], vec![Real(3.0)]];
    assert_eq!(Matrix::from_rows(&rows).err(), Some(Error::DimensionMismatch));
    let rows = vec![vec![Real(1.0)], vec![Real(2.0)], vec![Real(3.0), Real(4.0)]];
    assert_eq!(Matrix::from_rows(&rows).err(), Some(Error::DimensionMismatch));
}

#[test]
fn from_rows_takes_no_rows() {
    let rows: Vec<Vec<Real>> = Vec::new();
    let m = Matrix::from_rows(&rows).unwrap();
    assert_eq!((m.rows(), m.cols()), (0, 0));
    let rows: Vec<Vec<Real>> = vec![vec![], vec![]];
    let m = Matrix::from_rows(&rows).unwrap();
    assert_eq!((m.rows(), m.cols()), (2, 0));
}

#[test]
fn set_changes_one_cell() {
    let mut m = reals(&[&[1.0, 2.0], &[3.0, 4.0], &[5.0, 6.0]]);
    m.set(1, 1, Real(9.0));
    assert_eq!(cells(&m), vec![vec![1.0, 2.0], vec![3.0, 9.0], vec![5.0, 6.0]]);
    m.set(2, 0, Real(-1.0));
    assert_eq!(cells(&m), vec![vec![1.0, 2.0], vec![3.0, 9.0], vec![-1.0, 6.0]]);
}

#[test]
fn multiply_gives_the_product() {
    let a = reals(&[&[1.0, 2.0, 3.0], &[4.0, 5.0, 6.0]]);
    let b = reals(&[&[7.0, 8.0], &[9.0, 10.0], &[11.0, 12.0]]);
    let c = a.multiply(&b).unwrap();
    assert_eq!((c.rows(), c.cols()), (2, 2));
    assert_eq!(cells(&c), vec![vec![58.0, 64.0], vec![139.0, 154.0]]);
    let d = b.multiply(&a).unwrap();
    assert_eq!(
        cells(&d),
        vec![vec![39.0, 54.0, 69.0], vec![49.0, 68.0, 87.0], vec![59.0, 82.0, 105.0]]
    );
}

#[test]
fn multiply_of_no_columns_is_zero() {
    let a: Matrix<Real> = Matrix::new(2, 0);
    let b: Matrix<Real> = Matrix::new(0, 3);
    let c = a.multiply(&b).unwrap();
    assert_eq!(cells(&c), vec![vec![0.0; 3]; 2]);
}

#[test]
fn multiply_refuses_other_shapes() {
    let a = reals(&[&[1.0, 2.0, 3.0], &[4.0, 5.0, 6.0]]);
    let b = reals(&[&[1.0, 2.0], &[3.0, 4.0]]);
    assert_eq!(a.multiply(&b).err(), Some(Error::DimensionMismatch));
    assert_eq!(a.multiply(&a).err(), Some(Error::DimensionMismatch));
    assert!(b.multiply(&a).is_ok());
}

#[test]
fn multiply_fails_exactly_on_a_mismatch() {
    for rows in 0..4usize {
        for inner in 0..4usize {
            for other_rows in 0..4usize {
                for cols in 0..4usize {
                    let a: Matrix<Real> = Matrix::new(rows, inner);
                    let b: Matrix<Real> = Matrix::new(other_rows, cols);
                    match a.multiply(&b) {
                        Ok(c) => {
                            assert_eq!(inner, other_rows);
                            assert_eq!((c.rows(), c.cols()), (rows, cols));
                        }
                        Err(e) => {
                            assert_ne!(inner, other_rows);
                            assert_eq!(e, Error::DimensionMismatch);
                        }
                    }
                }
            }
        }
    }
}

#[test]
fn multiply_transposed_takes_rows_of_both() {
    let a = reals(&[&[1.0, 2.0, 3.0]]);
    let b = reals(&[&[1.0, 0.0, 0.0], &[4.0, 5.0, 6.0]]);
    let c = a.multiply_transposed(&b).unwrap();
    assert_eq!(cells(&c), vec![vec![1.0, 32.0]]);
    let narrow = reals(&[&[1.0, 2.0]]);
    assert_eq!(a.multiply_transposed(&narrow).err(), Some(Error::DimensionMismatch));
}

#[test]
fn add_row_adds_to_every_row() {
    let mut m = reals(&[&[1.0, 2.0], &[3.0, 4.0], &[5.0, 6.0]]);
    let row = reals(&[&[10.0, 20.0]]);
    assert_eq!(m.add_row(&row), Ok(()));
    assert_eq!(cells(&m), vec![vec![11.0, 22.0], vec![13.0, 24.0], vec![15.0, 26.0]]);
}

#[test]
fn add_row_refuses_other_shapes() {
    let mut m = reals(&[&[1.0, 2.0], &[3.0, 4.0]]);
    let wide = reals(&[&[1.0, 2.0, 3.0]]);
    assert_eq!(m.add_row(&wide), Err(Error::DimensionMismatch));
    let narrow = reals(&[&[1.0]]);
    assert_eq!(m.add_row(&narrow), Err(Error::DimensionMismatch));
    let two = reals(&[&[1.0, 2.0], &[3.0, 4.0]]);
    assert_eq!(m.add_row(&two), Err(Error::DimensionMismatch));
    let none: Matrix<Real> = Matrix::new(0, 2);
    assert_eq!(m.add_row(&none), Err(Error::DimensionMismatch));
    assert_eq!(cells(&m), vec![vec![1.0, 2.0], vec![3.0, 4.0]]);
}

#[test]
fn add_outer_adds_the_products() {
    let mut m = reals(&[&[1.0, 1.0, 1.0], &[2.0, 2.0, 2.0]]);
    let a = reals(&[&[2.0, 3.0]]);
    let d = reals(&[&[1.0, 10.0, 100.0]]);
    assert_eq!(m.add_outer(&a, &d), Ok(()));
    assert_eq!(cells(&m), vec![vec![3.0, 21.0, 201.0], vec![5.0, 32.0, 302.0]]);
    assert_eq!(m.add_outer(&d, &a), Err(Error::DimensionMismatch));
    assert_eq!(m.add_outer(&a, &a), Err(Error::DimensionMismatch));
    assert_eq!(cells(&m), vec![vec![3.0, 21.0, 201.0], vec![5.0, 32.0, 302.0]]);
}

#[test]
fn map_applies_to_every_cell() {
    let mut m = reals(&[&[1.0, 2.0], &[3.0, 4.0]]);
    m.map(|x: Real| Real(x.0 * x.0 + 1.0));
    assert_eq!(cells(&m), vec![vec![2.0, 5.0], vec![10.0, 17.0]]);
}

#[test]
fn map_with_the_logistic_function() {
    let mut m = reals(&[&[0.0, 100.0, -100.0]]);
    m.map(sigmoid::<Real>);
    assert_eq!(m.get(0, 0), Real(0.5));
    assert_eq!(m.get(0, 1), Real(1.0));
    assert!(m.get(0, 2).0 >= 0.0 && m.get(0, 2).0 < 1e-30);
}

#[test]
fn combine_pairs_the_cells() {
    let mut m = reals(&[&[1.0, 2.0], &[3.0, 4.0]]);
    let other = reals(&[&[10.0, 20.0], &[30.0, 40.0]]);
    assert_eq!(m.combine(&other, |x: Real, y: Real| Real(y.0 - x.0)), Ok(()));
    assert_eq!(cells(&m), vec![vec![9.0, 18.0], vec![27.0, 36.0]]);
    let row = reals(&[&[1.0, 2.0]]);
    assert_eq!(m.combine(&row, |x: Real, _y: Real| x), Err(Error::DimensionMismatch));
}

#[test]
fn row_and_duplicate_copy() {
    let m = reals(&[&[1.0, 2.0], &[3.0, 4.0], &[5.0, 6.0]]);
    assert_eq!(cells(&m.row(1)), vec![vec![3.0, 4.0]]);
    assert_eq!(cells(&m.row(2)), vec![vec![5.0, 6.0]]);
    let mut copy = m.duplicate();
    assert_eq!(cells(&copy), cells(&m));
    copy.set(0, 0, Real(7.0));
    assert_eq!(m.get(0, 0), Real(1.0));
}

#[test]
fn scale_maps_the_unit_range() {
    assert_eq!(scale(Real(0.0), Real(-1.0), Real(1.0)), Real(-1.0));
    assert_eq!(scale(Real(0.5), Real(-1.0), Real(1.0)), Real(0.0));
    assert_eq!(scale(Real(1.0), Real(-1.0), Real(1.0)), Real(1.0));
    assert_eq!(scale(Real(0.25), Real(2.0), Real(6.0)), Real(3.0));
}

#[test]
fn sigmoid_and_its_slope() {
    assert_eq!(sigmoid(Real(0.0)), Real(0.5));
    assert!((sigmoid(Real(1.0)).0 - 0.731_058_6).abs() < 1e-6);
    assert!((sigmoid(Real(-2.0)).0 - 0.119_202_92).abs() < 1e-6);
    assert_eq!(sigmoid_slope(Real(0.5)), Real(0.25));
    assert_eq!(sigmoid_slope(Real(1.0)), Real(0.0));
    assert_eq!(sigmoid_slope(Real(0.25)), Real(0.1875));
}

#[test]
fn randomize_fills_the_range() {
    let mut m: Matrix<Real> = Matrix::new(20, 30);
    let draw = unit_draws(1);
    m.randomize(Real(-2.0), Real(3.0), &draw);
    let all: Vec<f32> = cells(&m).concat();
    assert!(all.iter().all(|&x| (-2.0..=3.0).contains(&x)));
    assert!(all.iter().any(|&x| x < -1.0));
    assert!(all.iter().any(|&x| x > 2.0));
    let first = all[0];
    assert!(all.iter().any(|&x| x != first));
}

#[test]
fn randomize_takes_the_draws_row_after_row() {
    let mut m: Matrix<Real> = Matrix::new(2, 2);
    let next = Cell::new(0.0f32);
    let draw = || {
        let u = next.get();
        next.set(u + 0.25);
        Real(u)
    };
    m.randomize(Real(0.0), Real(4.0), &draw);
    assert_eq!(cells(&m), vec![vec![0.0, 1.0], vec![2.0, 3.0]]);
}

#[test]
fn randomize_repeats_with_the_same_draws() {
    let mut a: Matrix<Real> = Matrix::new(3, 4);
    let mut b: Matrix<Real> = Matrix::new(3, 4);
    a.randomize(Real(-1.0), Real(1.0), &unit_draws(42));
    b.randomize(Real(-1.0), Real(1.0), &unit_draws(42));
    assert_eq!(cells(&a), cells(&b));
    b.randomize(Real(-1.0), Real(1.0), &unit_draws(43));
    assert_ne!(cells(&a), cells(&b));
}

#[test]
fn errors_describe_themselves() {
    assert_eq!(Error::DimensionMismatch.describe(), "dimension mismatch");
    assert_eq!(Error::ConfigurationError.describe(), "configuration error");
    assert_eq!(Error::ConcurrencyFailure.describe(), "concurrency failure");
}
