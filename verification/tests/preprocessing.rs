use laplace::models::{DistanceMethod, ModelError};
use laplace::preprocessing::{PolynomialTransformation, PreprocessingError};
use laplace::stats::{Column, Dataset};

#[test]
fn polynomial_fit_checks_column_count() {
    let mut ds = Dataset::new();
    ds.add_column("1".to_string(), Column::Float(vec![1f64.to_bits(), 2f64.to_bits()]))
        .unwrap();

    let mut pt = PolynomialTransformation::new(&vec![2]);
    assert_eq!(pt.column_exponents(), &vec![2]);
    assert_eq!(pt.fit(&ds), Ok(()));

    let mut too_many = PolynomialTransformation::new(&[1, 3]);
    assert_eq!(too_many.fit(&ds), Err(PreprocessingError::MismatchedColumnCount));
}

#[test]
fn error_kinds() {
    assert_ne!(ModelError::EmptyData, ModelError::ModelUntrained);
    assert_eq!(DistanceMethod::Euclidean, DistanceMethod::Euclidean);
}
