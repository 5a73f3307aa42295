use laplace::models::nearest_indices;

fn bits(values: &[f64]) -> Vec<u64> {
    values.iter().map(|x| x.to_bits()).collect()
}

#[test]
fn nearest_neighbours_without_tie() {
    // one input x, one output; query point 4.5
    let x = [1., 2., 6., 10.];
    let y = [1., 3., 2., 5.];
    let distances: Vec<f64> = x.iter().map(|v: &f64| ((v - 4.5f64).powi(2)).sqrt()).collect();

    let nearest = nearest_indices(&bits(&distances), 2);
    assert_eq!(nearest, vec![2, 1]);

    let pred = nearest.iter().map(|&i| y[i]).sum::<f64>() / 2.;
    assert_eq!(pred, 2.5);
}

#[test]
fn nearest_neighbours_keep_ties_in_order() {
    let distances = [2.0, 1.0, 2.0, 0.5, 1.0];
    assert_eq!(nearest_indices(&bits(&distances), 5), vec![3, 1, 4, 0, 2]);
    assert_eq!(nearest_indices(&bits(&distances), 0), Vec::<usize>::new());
    assert_eq!(nearest_indices(&bits(&[f64::INFINITY, 0.0, -0.0]), 3), vec![2, 1, 0]);
}
