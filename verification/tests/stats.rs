use std::cmp::Ordering;
use laplace::stats::{eda, max, min, range, Column, ColumnError, Dataset, DatasetError, EDAError, Value};

#[test]
fn central_tendency_simple_min_and_max() {
    let arr = [1, 2, 3];

    let m = min(&arr).unwrap();
    assert_eq!(m, 1);

    let m = max(&arr).unwrap();
    assert_eq!(m, 3);
}

#[test]
fn small_and_large_ranges() {
    // small
    let arr = [1, 6, 100, 193];

    let rn = range(&arr).unwrap();
    assert_eq!(rn, 192);

    // really large and really small
    let arr = [5e-11, 5e-10, 5e-12, 5e12, 5e15, 5e10];
    let rn = range(&arr).unwrap();
    assert_eq!(rn, 5e15 - 5e-12);
}

#[test]
fn eda_simple_min_and_max() {
    let arr = [1, 2, 3];

    let m = eda::min(&arr).unwrap();
    assert_eq!(m, 1);

    let m = eda::max(&arr).unwrap();
    assert_eq!(m, 3);
}

#[test]
fn empty_statistics() {
    let empty: [i64; 0] = [];
    assert_eq!(min(&empty), Err(EDAError::EmptyData));
    assert_eq!(max(&empty), Err(EDAError::EmptyData));
    assert_eq!(range(&empty), Err(EDAError::EmptyData));
    assert_eq!(eda::min(&empty), Err(ColumnError::Empty));
    assert_eq!(eda::max(&empty), Err(ColumnError::Empty));
}

#[test]
fn min_max_of_unsorted_data() {
    let arr = [4, -7, 12, 0, -7, 12, 3];
    assert_eq!(min(&arr), Ok(-7));
    assert_eq!(max(&arr), Ok(12));
    assert_eq!(range(&arr), Ok(19));
    let one = [42u8];
    assert_eq!(range(&one), Ok(0));
}

#[test]
fn lengths() {
    let col1 = Column::Int(vec![1, 2, 3]);
    let col2 = Column::Float(vec![1f64.to_bits(), 2f64.to_bits(), 3f64.to_bits()]);
    let col3 = Column::String(vec!["1".to_string(), "2".to_string(), "3".to_string()]);

    assert_eq!(col1.len(), 3);
    assert_eq!(col2.len(), 3);
    assert_eq!(col3.len(), 3);
}

#[test]
fn sorting() {
    // integers
    let col1 = Column::Int(vec![0, 2, 1, 3]).sort();

    match col1 {
        Column::Int(v) => assert_eq!(v, vec![0, 1, 2, 3]),
        _ => panic!("Impossible"),
    }

    // floats
    let col2 = Column::Float(vec![3.13f64.to_bits(), 3.14f64.to_bits(), 3f64.to_bits()]).sort();

    match col2 {
        Column::Float(v) => assert_eq!(v, vec![3f64.to_bits(), 3.13f64.to_bits(), 3.14f64.to_bits()]),
        _ => panic!("Impossible"),
    }
}

#[test]
fn float_sort_follows_total_order() {
    let values = vec![
        2.5f64,
        -0.0,
        f64::INFINITY,
        0.0,
        -1.5,
        f64::NEG_INFINITY,
        f64::NAN,
        -f64::NAN,
        1e-300,
        -7.0,
    ];
    let mut expected = values.clone();
    expected.sort_by(|a, b| a.total_cmp(b));

    let col = Column::Float(values.iter().map(|x| x.to_bits()).collect()).sort();
    match col {
        Column::Float(v) => {
            let want: Vec<u64> = expected.iter().map(|x| x.to_bits()).collect();
            assert_eq!(v, want);
        }
        _ => panic!("Impossible"),
    }
}

#[test]
fn string_column_sort_keeps_order() {
    let col = Column::String(vec!["b".to_string(), "a".to_string()]).sort();
    assert_eq!(col, Column::String(vec!["b".to_string(), "a".to_string()]));
}

#[test]
fn column_cells() {
    let col = Column::Int(vec![5, 6]);
    assert!(matches!(col.get(1), Ok(Value::Int(6))));
    assert_eq!(col.get(2).err(), Some(ColumnError::NonNumerical));

    let col = Column::Float(vec![0.5f64.to_bits()]);
    assert!(matches!(col.get(0), Ok(Value::Float(b)) if b == 0.5f64.to_bits()));

    let col = Column::String(vec!["x".to_string()]);
    assert!(matches!(col.get(0), Ok(Value::String(s)) if s == "x"));
    assert_eq!(col.get(1).err(), Some(ColumnError::NonNumerical));
}

#[test]
fn single_column() {
    let mut ds = Dataset::new();

    // add a column and check if it was added successfully
    assert_eq!(ds.add_column("Hi".to_string(), Column::Int(vec![6, 7])), Ok(()));

    // add a column with the same index and check if its an error
    assert_eq!(
        ds.add_column("Hi".to_string(), Column::Int(vec![6, 7, 8])),
        Err(DatasetError::IndexInUse)
    );

    // check the column's value
    assert_eq!(ds.get_column("Hi"), Ok(&Column::Int(vec![6, 7])));

    // mutate column and check new value
    match ds.get_column_mut("Hi") {
        Ok(Column::Int(v)) => v.push(8),
        _ => panic!("Getting mutable ref failed."),
    }
    assert_eq!(ds.get_column("Hi"), Ok(&Column::Int(vec![6, 7, 8])));
}

fn sample() -> Dataset {
    let mut ds = Dataset::new();
    ds.add_column("a".to_string(), Column::Int(vec![1, 2])).unwrap();
    ds.add_column("b".to_string(), Column::Float(vec![0.5f64.to_bits(), 1.5f64.to_bits()]))
        .unwrap();
    ds.add_column("c".to_string(), Column::String(vec!["x".to_string(), "y".to_string()]))
        .unwrap();
    ds
}

#[test]
fn dataset_drop() {
    let ds = sample();
    assert_eq!(ds.len(), 3);

    let kept = ds.clone().drop(&["b"]).unwrap();
    let names: Vec<&str> = kept.get_columns().iter().map(|(n, _)| n.as_str()).collect();
    assert_eq!(names, vec!["a", "c"]);

    let none = ds.clone().drop(&["a", "c", "b"]).unwrap();
    assert_eq!(none.len(), 0);

    let same = ds.clone().drop(&[]).unwrap();
    assert_eq!(same.len(), 3);

    assert_eq!(ds.clone().drop(&["z"]).err(), Some(DatasetError::IndexInexistent));
    // a name may only be dropped once
    assert_eq!(ds.drop(&["a", "a"]).err(), Some(DatasetError::IndexInexistent));
}

#[test]
fn dataset_lookup_and_rows() {
    let mut ds = sample();
    assert_eq!(ds.get_column("nope"), Err(DatasetError::IndexInexistent));
    assert!(ds.get_column_mut("nope").is_err());
    assert_eq!(ds.get_column("a"), Ok(&Column::Int(vec![1, 2])));

    let row = ds.get_row(1).unwrap();
    assert_eq!(row.len(), 3);
    assert!(matches!(row[0], Value::Int(2)));
    assert!(matches!(row[1], Value::Float(b) if b == 1.5f64.to_bits()));
    assert!(matches!(&row[2], Value::String(s) if s == "y"));
}

#[test]
fn csv_text_into_columns() {
    let (headers, columns) = laplace::stats::read_csv_columns("a,b,c\n1,2,3\n4,5,6").unwrap();
    assert_eq!(headers, vec!["a", "b", "c"]);
    assert_eq!(columns, vec![vec!["1", "4"], vec!["2", "5"], vec!["3", "6"]]);
}

#[test]
fn csv_text_errors() {
    // unterminated string entry: the record has fewer fields than the header
    assert_eq!(
        laplace::stats::read_csv_columns("a,b\n\"unterminated").err(),
        Some(DatasetError::CSVError)
    );
    assert_eq!(laplace::stats::read_csv_columns("a,b\n1,2,3").err(), Some(DatasetError::CSVError));
}

#[test]
fn column_type_inference() {
    let cells = vec!["1".to_string(), "-2".to_string()];
    let col = laplace::stats::infer_column(cells, &vec![Some(1), Some(-2)], &vec![Some(1f64.to_bits()), Some((-2f64).to_bits())]);
    assert_eq!(col, Column::Int(vec![1, -2]));

    let cells = vec!["1".to_string(), "2.5".to_string()];
    let col = laplace::stats::infer_column(cells, &vec![Some(1), None], &vec![Some(1f64.to_bits()), Some(2.5f64.to_bits())]);
    assert_eq!(col, Column::Float(vec![1f64.to_bits(), 2.5f64.to_bits()]));

    let cells = vec!["1".to_string(), "x".to_string()];
    let col = laplace::stats::infer_column(cells.clone(), &vec![Some(1), None], &vec![Some(1f64.to_bits()), None]);
    assert_eq!(col, Column::String(cells));
}

#[test]
fn rows_from_columns() {
    let rows = laplace::stats::columns_to_rows(&vec![vec![1, 2, 3], vec![4, 5, 6]]);
    assert_eq!(rows, vec![vec![1, 4], vec![2, 5], vec![3, 6]]);
}

fn float_readings(columns: &Vec<Vec<String>>) -> Vec<Vec<Option<u64>>> {
    columns
        .iter()
        .map(|cells| cells.iter().map(|c| c.parse::<f64>().ok().map(f64::to_bits)).collect())
        .collect()
}

#[test]
fn dataset_from_csv_text() {
    let (headers, columns) = laplace::stats::read_csv_columns("a,b,c\n1,2.5,x\n4,5,6").unwrap();
    let as_float = float_readings(&columns);
    let ds = laplace::stats::dataset_from_columns(headers, columns, &as_float).unwrap();

    assert_eq!(ds.len(), 3);
    assert_eq!(ds.get_column("a"), Ok(&Column::Int(vec![1, 4])));
    assert_eq!(ds.get_column("b"), Ok(&Column::Float(vec![2.5f64.to_bits(), 5f64.to_bits()])));
    assert_eq!(
        ds.get_column("c"),
        Ok(&Column::String(vec!["x".to_string(), "6".to_string()]))
    );
}

#[test]
fn dataset_from_csv_text_duplicate_header() {
    let (headers, columns) = laplace::stats::read_csv_columns("a,b,b\n0,1,1").unwrap();
    let as_float = float_readings(&columns);
    assert_eq!(
        laplace::stats::dataset_from_columns(headers, columns, &as_float).err(),
        Some(DatasetError::IndexInUse)
    );
}

#[test]
fn integer_cells_follow_rust_integer_text() {
    let cells = |v: &[&str]| v.iter().map(|s| s.to_string()).collect::<Vec<String>>();
    let columns = vec![
        cells(&["+7", "-0012", "-9223372036854775808", "9223372036854775807"]),
        cells(&["1", "9223372036854775808"]),
        cells(&["1", " 2"]),
        cells(&["1", "1_000"]),
        cells(&["-", "3"]),
    ];
    let headers = cells(&["a", "b", "c", "d", "e"]);
    let as_float = float_readings(&columns);
    let ds = laplace::stats::dataset_from_columns(headers, columns, &as_float).unwrap();

    assert_eq!(ds.get_column("a"), Ok(&Column::Int(vec![7, -12, i64::MIN, i64::MAX])));
    // out of range: read as floating point
    assert_eq!(
        ds.get_column("b"),
        Ok(&Column::Float(vec![1f64.to_bits(), 9223372036854775808f64.to_bits()]))
    );
    // neither integers nor floating-point values everywhere: text
    assert_eq!(ds.get_column("c"), Ok(&Column::String(cells(&["1", " 2"]))));
    assert_eq!(ds.get_column("d"), Ok(&Column::String(cells(&["1", "1_000"]))));
    assert_eq!(ds.get_column("e"), Ok(&Column::String(cells(&["-", "3"]))));
}

#[test]
fn column_equality_follows_f64() {
    let col = |v: &[f64]| Column::Float(v.iter().map(|x| x.to_bits()).collect());
    assert_eq!(col(&[0.0, 1.5]), col(&[-0.0, 1.5]));
    assert_ne!(col(&[f64::NAN]), col(&[f64::NAN]));
    assert_ne!(col(&[1.0]), col(&[1.0, 2.0]));
    assert_ne!(Column::Int(vec![1]), col(&[1.0]));
    assert_eq!(Column::Int(vec![1, 2]), Column::Int(vec![1, 2]));
    assert_ne!(
        Column::String(vec!["a".to_string()]),
        Column::String(vec!["b".to_string()])
    );
}

#[test]
fn column_order_follows_f64_and_kinds() {
    let col = |v: &[f64]| Column::Float(v.iter().map(|x| x.to_bits()).collect());
    let cases: Vec<(Vec<f64>, Vec<f64>)> = vec![
        (vec![-1.0], vec![1.0]),
        (vec![-2.0], vec![-1.0]),
        (vec![0.0], vec![-0.0]),
        (vec![1.0, f64::NAN], vec![1.0, 2.0]),
        (vec![1.0, 2.0], vec![1.0]),
        (vec![f64::NEG_INFINITY, 5.0], vec![-3.0, 0.0]),
    ];
    for (a, b) in cases {
        assert_eq!(col(&a).partial_cmp(&col(&b)), a.partial_cmp(&b));
    }
    assert_eq!(Column::Int(vec![3, 1]).partial_cmp(&Column::Int(vec![3, 2])), Some(Ordering::Less));
    assert_eq!(Column::Int(vec![9]).partial_cmp(&col(&[0.0])), Some(Ordering::Less));
    let text = |v: &[&str]| Column::String(v.iter().map(|s| s.to_string()).collect());
    for (a, b) in [(vec!["b"], vec!["ab"]), (vec!["é"], vec!["z"]), (vec!["a", "b"], vec!["a"])] {
        let (sa, sb): (Vec<String>, Vec<String>) =
            (a.iter().map(|s| s.to_string()).collect(), b.iter().map(|s| s.to_string()).collect());
        assert_eq!(text(&a).partial_cmp(&text(&b)), sa.partial_cmp(&sb));
    }
    assert_eq!(text(&["a"]).partial_cmp(&col(&[1.0])), Some(Ordering::Greater));
}

#[test]
fn numeric_check_of_datasets() {
    assert_eq!(Dataset::new().check_numeric(), Err(DatasetError::NoColumns));
    assert_eq!(sample().check_numeric(), Err(DatasetError::InconsistentColumns));
    assert_eq!(sample().drop(&["c"]).unwrap().check_numeric(), Ok(()));
}
