use rustnet::matrix::{
    divide, dot_product, get_nth_column, linear_op, matrix_avg, matrix_max, matrix_min,
    matrix_multiply, matrix_subtract, multiply, row_sum, split_matrix, transpose, zeroes,
    Operation,
};
use rustnet::network::{
    back_propagation, forward_propagation, get_accuracy, get_predictions, predict, prepare_data,
    relu, relu_derivative, softmax, train, train_iteration, transform_labels_to_network_output,
};
use rustnet::numpy_vec::NumpyVec;
use rustnet::params::{create_network_params, ResultFiles};
use rustnet::rng::{rand_matrix, shuffle_matrix, SeededRng};
use rustnet::scalar::Scalar;
use rustnet::MatrixError;

#[derive(Clone, Copy, Debug, PartialEq)]
struct F(f32);

impl Scalar for F {
    fn zero_spec() -> F {
        F(0.0)
    }
    fn one_spec() -> F {
        F(1.0)
    }
    fn add_spec(self, other: F) -> F {
        F(self.0 + other.0)
    }
    fn sub_spec(self, other: F) -> F {
        F(self.0 - other.0)
    }
    fn mul_spec(self, other: F) -> F {
        F(self.0 * other.0)
    }
    fn div_spec(self, other: F) -> F {
        F(self.0 / other.0)
    }
    fn exp_spec(self) -> F {
        F(self.0.exp())
    }
    fn lt_spec(self, other: F) -> bool {
        self.0 < other.0
    }
    fn from_count_spec(n: usize) -> F {
        F(n as f32)
    }
    fn index_spec(self) -> usize {
        self.0 as usize
    }
    fn unit_range_spec(self) -> bool {
        -0.5 <= self.0 && self.0 < 0.5
    }
    fn zero() -> F {
        F(0.0)
    }
    fn one() -> F {
        F(1.0)
    }
    fn add(self, other: F) -> F {
        F(self.0 + other.0)
    }
    fn sub(self, other: F) -> F {
        F(self.0 - other.0)
    }
    fn mul(self, other: F) -> F {
        F(self.0 * other.0)
    }
    fn div(self, other: F) -> F {
        F(self.0 / other.0)
    }
    fn exp(self) -> F {
        F(self.0.exp())
    }
    fn lt(self, other: F) -> bool {
        self.0 < other.0
    }
    fn from_count(n: usize) -> F {
        F(n as f32)
    }
    fn to_index(self) -> usize {
        self.0 as usize
    }
    fn from_random(bits: u64) -> F {
        F((bits as f64 / 18446744073709551616.0 - 0.5) as f32)
    }
}

fn fm(v: Vec<Vec<f32>>) -> Vec<Vec<F>> {
    v.into_iter()
        .map(|row| row.into_iter().map(F).collect())
        .collect()
}

fn unf(v: Vec<Vec<F>>) -> Vec<Vec<f32>> {
    v.into_iter()
        .map(|row| row.into_iter().map(|c| c.0).collect())
        .collect()
}

#[test]
fn test_dot_product() {
    let matrix1 = fm(vec![vec![1.0, 2.0, 3.0], vec![4.0, 5.0, 6.0]]);
    let matrix2 = fm(vec![vec![7.0, 8.0], vec![9.0, 10.0], vec![11.0, 12.0]]);
    let expected = vec![vec![58.0, 64.0], vec![139.0, 154.0]];
    assert_eq!(unf(dot_product(&matrix1, &matrix2).unwrap()), expected);

    let matrix3 = fm(vec![vec![1.0, 2.0], vec![-0.1, 0.2]]);
    let matrix4 = fm(vec![vec![1.0, 2.0], vec![3.0, 4.0]]);
    assert_eq!(
        unf(dot_product(&matrix3, &matrix4).unwrap()),
        vec![vec![7., 10.], vec![0.5, 0.6]]
    );
}

#[test]
fn test_dot_product_integer_exact() {
    let matrix1: Vec<Vec<i64>> = vec![vec![1, 2, 3], vec![4, 5, 6]];
    let matrix2: Vec<Vec<i64>> = vec![vec![7, 8], vec![9, 10], vec![11, 12]];
    let expected: Vec<Vec<i64>> = vec![vec![58, 64], vec![139, 154]];
    assert_eq!(dot_product(&matrix1, &matrix2).unwrap(), expected);
}

#[test]
fn test_dot_product_invalid_dimensions_is_error() {
    let matrix1 = fm(vec![vec![1.0, 2.0, 3.0], vec![4.0, 5.0, 6.0]]);
    let matrix2 = fm(vec![
        vec![7.0, 8.0],
        vec![9.0, 10.0],
        vec![11.0, 12.0],
        vec![13.0, 14.0],
    ]);
    assert_eq!(
        dot_product(&matrix1, &matrix2),
        Err(MatrixError::DimensionMismatch)
    );
}

#[test]
fn test_transpose() {
    let matrix = fm(vec![
        vec![1.0, 2.0, 3.0],
        vec![4.0, 5.0, 6.0],
        vec![7.0, 8.0, 9.0],
    ]);
    let expected = vec![
        vec![1.0, 4.0, 7.0],
        vec![2.0, 5.0, 8.0],
        vec![3.0, 6.0, 9.0],
    ];
    let result = unf(transpose(&matrix));
    assert_eq!(result, expected);

    let matrix2 = fm(vec![vec![1.0, 2.0, 3.0]]);
    let expected2 = vec![vec![1.0], vec![2.0], vec![3.0]];
    let result2 = transpose(&matrix2);
    assert_eq!(unf(result2.clone()), expected2);

    let result3 = unf(transpose(&result2));
    assert_eq!(result3, vec![vec![1.0, 2.0, 3.0]]);
}

#[test]
fn test_transpose_involution() {
    let matrix: Vec<Vec<i64>> = vec![vec![3, 1, 4], vec![1, 5, 9]];
    assert_eq!(transpose(&transpose(&matrix)), matrix);
}

#[test]
fn test_get_nth_column() {
    let x = fm(vec![vec![1.0, 2.0, 3.0], vec![4.0, 5.0, 6.0]]);
    let result = get_nth_column(&x, 0).unwrap();
    assert_eq!(result, vec![F(1.0), F(4.0)]);
}

#[test]
fn test_get_nth_column_out_of_range_is_error() {
    let x: Vec<Vec<i64>> = vec![vec![1, 2], vec![3, 4]];
    assert_eq!(get_nth_column(&x, 2), Err(MatrixError::DimensionMismatch));
}

#[test]
fn test_softmax() {
    let x = fm(vec![vec![1.0, 2.0, 3.0], vec![4.0, 5.0, 6.0]]);
    let result = unf(softmax(&x).unwrap());
    assert_eq!(
        result,
        vec![
            vec![0.047425874, 0.047425874, 0.047425874],
            vec![0.95257413, 0.95257413, 0.95257413]
        ]
    );

    let y = fm(vec![
        vec![-5.0, -9.0, -1.0],
        vec![-0.5, -0.1, -0.9],
        vec![1.0, 5.0, 9.0],
    ]);

    assert_eq!(
        unf(softmax(&y).unwrap()),
        vec![
            vec![0.002022466, 8.264891e-7, 4.539559e-5],
            vec![0.18205658, 0.006059794, 5.0169907e-5],
            vec![0.815921, 0.9939394, 0.9999044]
        ]
    );
}

#[test]
fn test_softmax_columns_sum_to_one() {
    let x = fm(vec![
        vec![0.3, -2.0, 7.5],
        vec![1.1, 0.0, -0.4],
        vec![-3.0, 2.5, 0.9],
        vec![0.0, 0.1, 0.2],
    ]);
    let result = unf(softmax(&x).unwrap());
    for j in 0..3 {
        let mut sum = 0.0f32;
        for row in &result {
            assert!(row[j] > 0.0 && row[j] <= 1.0);
            sum += row[j];
        }
        assert!((sum - 1.0).abs() < 1e-5);
    }
}

#[test]
fn test_softmax_empty_is_error() {
    let x: Vec<Vec<i64>> = vec![];
    assert_eq!(softmax(&x), Err(MatrixError::EmptyInput));
}

#[test]
fn test_get_predictions() {
    let x = fm(vec![vec![1.0, 7.0, 3.0], vec![4.0, 5.0, 6.0]]);
    let result = get_predictions(&x).unwrap();
    assert_eq!(result, vec![1, 0, 1]);

    let matrix = fm(vec![
        vec![1.0, 5.0, 3.0],
        vec![4.0, 6.0, 2.0],
        vec![7.0, 2.0, 9.0],
    ]);
    assert_eq!(get_predictions(&matrix).unwrap(), vec![2, 1, 2]);
}

#[test]
fn test_linear_op() {
    let x = fm(vec![vec![1.0, 2.0, 3.0], vec![4.0, 5.0, 6.0]]);
    let b = fm(vec![vec![1.0], vec![2.0]]);
    let result = unf(linear_op(Operation::Add, &x, &b).unwrap());

    assert_eq!(result, vec![vec![2.0, 3.0, 4.0], vec![6.0, 7.0, 8.0]]);
}

#[test]
fn test_linear_op_subtract() {
    let x: Vec<Vec<i64>> = vec![vec![10, 20], vec![30, 40]];
    let b: Vec<Vec<i64>> = vec![vec![1], vec![2]];
    let result = linear_op(Operation::Subtract, &x, &b).unwrap();
    assert_eq!(result, vec![vec![9, 19], vec![28, 38]]);
}

#[test]
fn test_linear_op_empty_is_error() {
    let x: Vec<Vec<i64>> = vec![];
    let b: Vec<Vec<i64>> = vec![];
    assert_eq!(linear_op(Operation::Add, &x, &b), Err(MatrixError::EmptyInput));
}

#[test]
fn test_linear_op_wide_bias_is_error() {
    let x: Vec<Vec<i64>> = vec![vec![1, 2], vec![3, 4]];
    let b: Vec<Vec<i64>> = vec![vec![1, 1], vec![2, 2]];
    assert_eq!(
        linear_op(Operation::Add, &x, &b),
        Err(MatrixError::DimensionMismatch)
    );
}

#[test]
fn test_matrix_subtract() {
    let x = fm(vec![vec![1.0, 2.0, 3.0], vec![4.0, 5.0, 6.0]]);
    let y = fm(vec![vec![0.1, 0.2, 0.3], vec![0.4, 0.5, 0.6]]);
    let result = unf(matrix_subtract(&x, &y).unwrap());

    assert_eq!(result, vec![vec![0.9, 1.8, 2.7], vec![3.6, 4.5, 5.4]]);
}

#[test]
fn test_transform_labels_to_network_output() {
    let x = fm(vec![vec![1.0, 2.0, 3.0]]);
    let result = unf(transform_labels_to_network_output(&x, 10).unwrap());

    assert_eq!(
        result,
        vec![
            vec![0.0, 0.0, 0.0],
            vec![1.0, 0.0, 0.0],
            vec![0.0, 1.0, 0.0],
            vec![0.0, 0.0, 1.0],
            vec![0.0, 0.0, 0.0],
            vec![0.0, 0.0, 0.0],
            vec![0.0, 0.0, 0.0],
            vec![0.0, 0.0, 0.0],
            vec![0.0, 0.0, 0.0],
            vec![0.0, 0.0, 0.0],
        ]
    );
}

#[test]
fn test_one_hot_identity_round_trip() {
    let labels: Vec<Vec<i64>> = vec![vec![0, 1, 2]];
    let result = transform_labels_to_network_output(&labels, 3).unwrap();
    assert_eq!(result, vec![vec![1, 0, 0], vec![0, 1, 0], vec![0, 0, 1]]);
}

#[test]
fn test_one_hot_label_out_of_range_is_error() {
    let labels: Vec<Vec<i64>> = vec![vec![0, 5, 2]];
    assert_eq!(
        transform_labels_to_network_output(&labels, 3),
        Err(MatrixError::LabelOutOfRange)
    );
    let negative: Vec<Vec<i64>> = vec![vec![-1, 0, 1]];
    assert_eq!(
        transform_labels_to_network_output(&negative, 3),
        Err(MatrixError::LabelOutOfRange)
    );
}

#[test]
fn test_row_sum() {
    let x = fm(vec![vec![1.0, 2.0, 3.0], vec![4.0, 5.0, 6.0]]);
    let result = unf(row_sum(&x));

    assert_eq!(result, vec![vec![6.0], vec![15.0]]);
}

#[test]
fn test_matrix_multiply() {
    let x = fm(vec![vec![1.0, 2.0, 3.0], vec![4.0, 5.0, 6.0]]);
    let result = unf(matrix_multiply(&x, &x).unwrap());

    assert_eq!(result, vec![vec![1.0, 4.0, 9.0], vec![16.0, 25.0, 36.0]]);
}

#[test]
fn test_relu() {
    let x = fm(vec![
        vec![-1.0, -2.0, -3.0],
        vec![-0.1, -0.2, -0.3],
        vec![1.0, 2.0, 3.0],
        vec![0.1, 0.2, 0.3],
    ]);
    let result = unf(relu(&x));

    assert_eq!(
        result,
        vec![
            vec![0.0, 0.0, 0.0],
            vec![0.0, 0.0, 0.0],
            vec![1.0, 2.0, 3.0],
            vec![0.1, 0.2, 0.3]
        ]
    );
}

#[test]
fn test_relu_derivative() {
    let x: Vec<Vec<i64>> = vec![vec![-3, 0, 2], vec![5, -1, 0]];
    let result = relu_derivative(&x);
    assert_eq!(result, vec![vec![0, 0, 1], vec![1, 0, 0]]);
}

#[test]
fn test_matrix_avg() {
    let x = fm(vec![
        vec![5.0, 9.0, 13.0],
        vec![14.0, 10.0, 12.0],
        vec![11.0, 15.0, 19.0],
    ]);
    let result = matrix_avg(&x).unwrap();

    assert_eq!(result.0, 12.0);
}

#[test]
fn test_matrix_min_max_and_empty() {
    let x: Vec<Vec<i64>> = vec![vec![4, -2, 9], vec![0, 7, -5]];
    assert_eq!(matrix_max(&x).unwrap(), 9);
    assert_eq!(matrix_min(&x).unwrap(), -5);
    let empty: Vec<Vec<i64>> = vec![];
    assert_eq!(matrix_max(&empty), Err(MatrixError::EmptyInput));
    assert_eq!(matrix_avg(&empty), Err(MatrixError::EmptyInput));
}

#[test]
fn test_operator_overload() {
    let x = NumpyVec(fm(vec![vec![1.0, 2.0, 3.0], vec![4.0, 5.0, 6.0]]));
    let y = NumpyVec(fm(vec![vec![1.0, 2.0, 3.0], vec![4.0, 5.0, 6.0]]));

    let result = unf(x.add(y).unwrap());

    assert_eq!(result, vec![vec![2.0, 4.0, 6.0], vec![8.0, 10.0, 12.0]]);
}

#[test]
fn test_single_column_addition_operator_overload() {
    let x = NumpyVec(fm(vec![vec![1.0, 2.0, 3.0], vec![4.0, 5.0, 6.0]]));
    let y = NumpyVec(fm(vec![vec![1.0], vec![2.0]]));

    let result = unf(x.add(y).unwrap());

    assert_eq!(result, vec![vec![2.0, 3.0, 4.0], vec![6.0, 7.0, 8.0]]);
}

#[test]
fn test_numpy_vec_sub_and_mul() {
    let x = NumpyVec(vec![vec![5i64, 6], vec![7, 8]]);
    let y = NumpyVec(vec![vec![1i64], vec![2]]);
    assert_eq!(x.sub(y).unwrap(), vec![vec![4, 5], vec![5, 6]]);

    let a = NumpyVec(vec![vec![2i64, 3], vec![4, 5]]);
    let b = NumpyVec(vec![vec![10i64, 100], vec![1000, 10000]]);
    assert_eq!(a.mul(b).unwrap(), vec![vec![20, 300], vec![4000, 50000]]);
}

#[test]
fn test_numpy_vec_mismatch_is_error() {
    let x = NumpyVec(vec![vec![1i64, 2], vec![3, 4]]);
    let y = NumpyVec(vec![vec![1i64, 2, 3], vec![4, 5, 6]]);
    assert_eq!(x.add(y), Err(MatrixError::DimensionMismatch));
}

#[test]
fn test_multiply_and_divide_scale() {
    let x = fm(vec![vec![1.0, 2.0], vec![3.0, 4.0]]);
    assert_eq!(
        unf(multiply(&x, F(2.0))),
        vec![vec![2.0, 4.0], vec![6.0, 8.0]]
    );
    let y = fm(vec![vec![510.0, 255.0], vec![0.0, 127.5]]);
    assert_eq!(
        unf(divide(&y, F(255.0))),
        vec![vec![2.0, 1.0], vec![0.0, 0.5]]
    );
}

#[test]
fn test_zeroes_and_split() {
    let z: Vec<Vec<i64>> = zeroes(2, 3);
    assert_eq!(z, vec![vec![0, 0, 0], vec![0, 0, 0]]);

    let m: Vec<Vec<i64>> = vec![vec![1, 2], vec![3, 4], vec![5, 6]];
    let (first, rest) = split_matrix(&m, 1).unwrap();
    assert_eq!(first, vec![vec![1, 2]]);
    assert_eq!(rest, vec![vec![3, 4], vec![5, 6]]);
    assert_eq!(split_matrix(&m, 4), Err(MatrixError::DimensionMismatch));
}

#[test]
fn test_get_accuracy() {
    let labels = fm(vec![vec![1.0, 0.0, 2.0, 1.0]]);
    let prediction: Vec<usize> = vec![1, 0, 0, 1];
    assert_eq!(get_accuracy(&labels, prediction).unwrap(), F(75.0));
}

#[test]
fn test_shuffle_matrix_keeps_rows() {
    let mut m: Vec<Vec<i64>> = vec![vec![1, 2], vec![3, 4], vec![5, 6], vec![7, 8], vec![9, 10]];
    let original = m.clone();
    let mut rng = SeededRng::new(11);
    shuffle_matrix(&mut m, &mut rng);
    assert_eq!(m.len(), original.len());
    let mut sorted = m.clone();
    sorted.sort();
    assert_eq!(sorted, original);

    let mut again = original.clone();
    let mut rng_again = SeededRng::new(11);
    shuffle_matrix(&mut again, &mut rng_again);
    assert_eq!(again, m);
}

#[test]
fn test_shuffle_matrix_moves_rows_for_some_seed() {
    let original: Vec<Vec<i64>> = (0..8).map(|r| vec![r, r + 100]).collect();
    let mut moved = false;
    for seed in 0..20 {
        let mut m = original.clone();
        let mut rng = SeededRng::new(seed);
        shuffle_matrix(&mut m, &mut rng);
        if m != original {
            moved = true;
        }
    }
    assert!(moved);
}

#[test]
fn test_rand_matrix_shape_and_determinism() {
    let mut rng_a = SeededRng::new(3);
    let a: Vec<Vec<F>> = rand_matrix(4, 5, &mut rng_a);
    assert_eq!(a.len(), 4);
    for row in &a {
        assert_eq!(row.len(), 5);
        for cell in row {
            assert!(cell.0 >= -0.5 && cell.0 <= 0.5);
        }
    }
    let mut rng_b = SeededRng::new(3);
    let b: Vec<Vec<F>> = rand_matrix(4, 5, &mut rng_b);
    assert_eq!(unf(a), unf(b));
}

#[test]
fn test_create_network_params_shapes() {
    let mut rng = SeededRng::new(1);
    let (w_1, b_1, w_2, b_2): (Vec<Vec<F>>, Vec<Vec<F>>, Vec<Vec<F>>, Vec<Vec<F>>) =
        create_network_params(&mut rng);
    assert_eq!((w_1.len(), w_1[0].len()), (10, 784));
    assert_eq!((b_1.len(), b_1[0].len()), (10, 1));
    assert_eq!((w_2.len(), w_2[0].len()), (10, 10));
    assert_eq!((b_2.len(), b_2[0].len()), (10, 1));
}

#[test]
fn test_result_files_names() {
    assert_eq!(ResultFiles::B1.as_str(), "b_1");
    assert_eq!(ResultFiles::B2.as_str(), "b_2");
    assert_eq!(ResultFiles::W1.as_str(), "w_1");
    assert_eq!(ResultFiles::W2.as_str(), "w_2");
}

#[test]
fn test_integer_scalar_operations() {
    assert_eq!(3i64.exp(), 8);
    assert_eq!(0i64.exp(), 1);
    assert_eq!((-2i64).exp(), 0);
    assert_eq!(i64::MAX.add(1), i64::MAX);
    assert_eq!(i64::MIN.sub(1), i64::MIN);
    assert_eq!((-7i64).div(2), -3);
    assert_eq!(7i64.div(-2), -3);
    assert_eq!(5i64.div(0), 0);
    assert_eq!(<i64 as Scalar>::from_count(42), 42);
    assert_eq!((-3i64).to_index(), 0);
}

fn synthetic_training_set() -> (Vec<Vec<F>>, Vec<Vec<F>>) {
    let labels = fm(vec![vec![0.0, 1.0, 0.0, 1.0]]);
    let mut rows: Vec<Vec<f32>> = Vec::new();
    for r in 0..784 {
        let mut row: Vec<f32> = Vec::new();
        for example in 0..4 {
            let class: usize = example % 2;
            let bright = if class == 0 { r == 3 } else { r == 400 };
            row.push(if bright { 1.0 } else { 0.0 });
        }
        rows.push(row);
    }
    (labels, fm(rows))
}

#[test]
fn test_forward_propagation_shapes() {
    let (_labels, data) = synthetic_training_set();
    let mut rng = SeededRng::new(5);
    let params = create_network_params(&mut rng);
    let (z_1, a_1, z_2, a_2) = forward_propagation(params, &data).unwrap();
    assert_eq!((z_1.len(), z_1[0].len()), (10, 4));
    assert_eq!((a_1.len(), a_1[0].len()), (10, 4));
    assert_eq!((z_2.len(), z_2[0].len()), (10, 4));
    assert_eq!((a_2.len(), a_2[0].len()), (10, 4));
    for j in 0..4 {
        let mut sum = 0.0f32;
        for i in 0..10 {
            assert!(a_2[i][j].0 > 0.0 && a_2[i][j].0 <= 1.0);
            sum += a_2[i][j].0;
        }
        assert!((sum - 1.0).abs() < 1e-5);
    }
}

#[test]
fn test_back_propagation_shapes() {
    let (labels, data) = synthetic_training_set();
    let mut rng = SeededRng::new(5);
    let params = create_network_params(&mut rng);
    let w_2 = params.2.clone();
    let cache = forward_propagation(params, &data).unwrap();
    let (d_w1, d_b1, d_w2, d_b2) = back_propagation(cache, w_2, labels, &data).unwrap();
    assert_eq!((d_w1.len(), d_w1[0].len()), (10, 784));
    assert_eq!((d_b1.len(), d_b1[0].len()), (10, 1));
    assert_eq!((d_w2.len(), d_w2[0].len()), (10, 10));
    assert_eq!((d_b2.len(), d_b2[0].len()), (10, 1));
}

#[test]
fn test_train_accuracy_improves() {
    let (labels, data) = synthetic_training_set();
    let mut rng = SeededRng::new(7);
    let (params, accuracies) = train(labels, data, 100, F(1.0), &mut rng).unwrap();
    assert_eq!(accuracies.len(), 100);
    for acc in &accuracies {
        assert!(acc.0 >= 0.0 && acc.0 <= 100.0);
    }
    let first = accuracies[0].0;
    let last = accuracies[99].0;
    assert!(last >= first);
    assert!(
        last >= 75.0,
        "accuracies: {:?}",
        accuracies.iter().map(|a| a.0).collect::<Vec<f32>>()
    );
    assert_eq!((params.0.len(), params.0[0].len()), (10, 784));
}

#[test]
fn test_train_iteration_rejects_bad_labels() {
    let (_labels, data) = synthetic_training_set();
    let bad_labels = fm(vec![vec![0.0, 11.0, 0.0, 1.0]]);
    let mut rng = SeededRng::new(7);
    let params = create_network_params(&mut rng);
    assert_eq!(
        train_iteration(&params, &bad_labels, &data, F(0.5)),
        Err(MatrixError::LabelOutOfRange)
    );
}

#[test]
fn test_prepare_data_splits_labels() {
    let dev_set = fm(vec![
        vec![3.0, 255.0, 0.0],
        vec![7.0, 0.0, 255.0],
        vec![1.0, 510.0, 255.0],
    ]);
    let mut rng = SeededRng::new(2);
    let (labels, data) = prepare_data(dev_set, &mut rng).unwrap();
    assert_eq!(labels.len(), 1);
    assert_eq!(labels[0].len(), 3);
    assert_eq!(data.len(), 2);
    assert_eq!(data[0].len(), 3);
    let mut seen: Vec<f32> = labels[0].iter().map(|c| c.0).collect();
    seen.sort_by(f32::total_cmp);
    assert_eq!(seen, vec![1.0, 3.0, 7.0]);
    for row in &data {
        for cell in row {
            assert!(cell.0 >= 0.0 && cell.0 <= 2.0);
        }
    }
}

#[test]
fn test_predict_returns_class_in_range() {
    let mut rng = SeededRng::new(9);
    let params = create_network_params(&mut rng);
    let mut image: Vec<Vec<f32>> = Vec::new();
    for r in 0..28 {
        let mut row: Vec<f32> = Vec::new();
        for c in 0..28 {
            row.push(if (r + c) % 3 == 0 { 200.0 } else { 0.0 });
        }
        image.push(row);
    }
    let class = predict(params, fm(image)).unwrap();
    assert!(class < 10);
}
