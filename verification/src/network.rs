use vstd::prelude::*;

use crate::matrix::{
    col_of, col_sum, copy_matrix, divide, dot_product, get_nth_column, is_rect, linear_op,
    mat_ew_mul, mat_ew_sub, mat_flatten_col, mat_linear, mat_max_spec, mat_product, mat_row_sum,
    mat_scale, mat_scale_div, mat_transpose, matrix_max, matrix_multiply, matrix_subtract,
    multiply, mview, row_sum, rows_view, scols, split_matrix, sum_prefix, transpose, Operation,
};
use crate::params::{shaped, NetworkParams, HIDDEN_UNITS, INPUT_FEATURES, OUTPUT_CLASSES};
use crate::rng::{entries_unit_range, shuffle_matrix, SeededRng};
use crate::scalar::Scalar;
use crate::MatrixError;

verus! {

/// ReLU applied to every entry: an entry strictly above zero is kept,
/// any other becomes zero.
pub open spec fn mat_relu<T: Scalar>(m: Seq<Seq<T>>) -> Seq<Seq<T>> {
    Seq::new(
        m.len(),
        |i: int|
            Seq::new(
                scols(m),
                |j: int|
                    if T::zero_spec().lt_spec(m[i][j]) {
                        m[i][j]
                    } else {
                        T::zero_spec()
                    },
            ),
    )
}

/// The derivative of ReLU at every entry: one where the entry is
/// strictly above zero, zero elsewhere (zero at zero itself, by
/// convention).
pub open spec fn mat_relu_deriv<T: Scalar>(m: Seq<Seq<T>>) -> Seq<Seq<T>> {
    Seq::new(
        m.len(),
        |i: int|
            Seq::new(
                scols(m),
                |j: int|
                    if T::zero_spec().lt_spec(m[i][j]) {
                        T::one_spec()
                    } else {
                        T::zero_spec()
                    },
            ),
    )
}

/// The one-hot matrix of a label row: column `j` holds a one in the
/// row given by label `j`'s class index and zeroes elsewhere.
pub open spec fn one_hot<T: Scalar>(labels: Seq<T>, classes: nat) -> Seq<Seq<T>> {
    Seq::new(
        classes,
        |c: int|
            Seq::new(
                labels.len(),
                |j: int|
                    if labels[j].index_spec() == c {
                        T::one_spec()
                    } else {
                        T::zero_spec()
                    },
            ),
    )
}

/// Whether every entry of the label row names a class below `classes`
/// and is not negative.
pub open spec fn labels_valid<T: Scalar>(labels: Seq<T>, classes: nat) -> bool {
    forall|j: int|
        0 <= j < labels.len() ==> !(#[trigger] labels[j]).lt_spec(T::zero_spec())
            && labels[j].index_spec() < classes
}

/// The index of the greatest entry among the first `n` of a column,
/// earliest on ties: a later entry replaces the running best only when
/// it is strictly greater.
pub open spec fn argmax_prefix<T: Scalar>(col: Seq<T>, n: int) -> int
    decreases n,
{
    if n <= 1 {
        0
    } else {
        let prev = argmax_prefix(col, n - 1);
        if col[prev].lt_spec(col[n - 1]) {
            n - 1
        } else {
            prev
        }
    }
}

/// At the integer scalar, where the abstract order is the integer
/// order, the argmax fold reads as the first index attaining the
/// maximum of the first `n` entries: no entry among them is greater,
/// and every earlier entry is strictly smaller.
pub proof fn lemma_i64_argmax_first_max(col: Seq<i64>, n: int)
    requires
        1 <= n <= col.len(),
    ensures
        0 <= argmax_prefix(col, n) < n,
        forall|k: int| 0 <= k < n ==> #[trigger] col[k] <= col[argmax_prefix(col, n)],
        forall|k: int| 0 <= k < argmax_prefix(col, n) ==> #[trigger] col[k] < col[argmax_prefix(
            col,
            n,
        )],
    decreases n,
{
    if n > 1 {
        lemma_i64_argmax_first_max(col, n - 1);
    }
}

/// The predicted class of each column: the row index of its greatest
/// entry, earliest on ties.
pub open spec fn predictions_spec<T: Scalar>(m: Seq<Seq<T>>) -> Seq<int> {
    Seq::new(scols(m), |j: int| argmax_prefix(col_of(m, j), m.len() as int))
}

/// How many of the first `n` predictions name the class of the
/// matching label.
pub open spec fn match_count<T: Scalar>(labels: Seq<T>, preds: Seq<int>, n: int) -> int
    decreases n,
{
    if n <= 0 {
        0
    } else {
        match_count(labels, preds, n - 1) + if labels[n - 1].index_spec() == preds[n - 1] {
            1int
        } else {
            0int
        }
    }
}

/// The share of predictions that match their labels, scaled to
/// percent: the match count over the label count, times one hundred.
pub open spec fn accuracy_spec<T: Scalar>(labels: Seq<T>, preds: Seq<int>) -> T {
    T::from_count_spec(match_count(labels, preds, labels.len() as int) as usize).div_spec(
        T::from_count_spec(labels.len() as usize),
    ).mul_spec(T::from_count_spec(100))
}

/// A sequence of machine indices, as mathematical integers.
pub open spec fn to_ints(s: Seq<usize>) -> Seq<int> {
    Seq::new(s.len(), |j: int| s[j] as int)
}

/// The stabilized exponentials: the global maximum entry is taken off
/// every entry before exponentiating, so no entry exceeds the
/// exponential of zero.
pub open spec fn mat_exp_shift<T: Scalar>(m: Seq<Seq<T>>) -> Seq<Seq<T>> {
    Seq::new(
        m.len(),
        |i: int| Seq::new(scols(m), |j: int| m[i][j].sub_spec(mat_max_spec(m)).exp_spec()),
    )
}

/// Softmax over each column: the stabilized exponential of each entry,
/// divided by the sum of its column's stabilized exponentials.
pub open spec fn mat_softmax<T: Scalar>(m: Seq<Seq<T>>) -> Seq<Seq<T>> {
    let e = mat_exp_shift(m);
    Seq::new(
        m.len(),
        |i: int|
            Seq::new(
                scols(m),
                |j: int| e[i][j].div_spec(sum_prefix(col_of(e, j), e.len() as int)),
            ),
    )
}

/// Rectified linear activation, entry by entry.
pub fn relu<T: Scalar>(input: &Vec<Vec<T>>) -> (r: Vec<Vec<T>>)
    requires
        is_rect(mview(*input)),
    ensures
        mview(r) == mat_relu(mview(*input)),
        is_rect(mview(r)),
        mview(r).len() == input@.len(),
        scols(mview(r)) == scols(mview(*input)),
{
    let ghost vm = mview(*input);
    let rows = input.len();
    let mut output: Vec<Vec<T>> = Vec::new();
    if rows == 0 {
        proof {
            assert(mview(output) =~~= mat_relu(vm));
        }
        return output;
    }
    let cols = input[0].len();
    for i in 0..rows
        invariant
            vm == mview(*input),
            is_rect(vm),
            rows == vm.len(),
            rows > 0,
            cols == scols(vm),
            output@.len() == i,
            forall|p: int| 0 <= p < i ==> #[trigger] output@[p]@ == mat_relu(vm)[p],
    {
        let mut row: Vec<T> = Vec::new();
        for j in 0..cols
            invariant
                vm == mview(*input),
                is_rect(vm),
                0 <= i < vm.len(),
                cols == scols(vm),
                row@.len() == j,
                forall|q: int| 0 <= q < j ==> #[trigger] row@[q] == mat_relu(vm)[i as int][q],
        {
            assert(vm[i as int] == input@[i as int]@);
            let cell = input[i][j];
            let zero = T::zero();
            let entry = if zero.lt(cell) {
                cell
            } else {
                zero
            };
            row.push(entry);
        }
        proof {
            assert(row@ =~= mat_relu(vm)[i as int]);
        }
        output.push(row);
    }
    proof {
        assert(mview(output) =~~= mat_relu(vm));
    }
    output
}

/// The derivative of the rectified linear activation, entry by entry.
pub fn relu_derivative<T: Scalar>(input: &Vec<Vec<T>>) -> (r: Vec<Vec<T>>)
    requires
        is_rect(mview(*input)),
    ensures
        mview(r) == mat_relu_deriv(mview(*input)),
        is_rect(mview(r)),
        mview(r).len() == input@.len(),
        scols(mview(r)) == scols(mview(*input)),
{
    let ghost vm = mview(*input);
    let rows = input.len();
    let mut output: Vec<Vec<T>> = Vec::new();
    if rows == 0 {
        proof {
            assert(mview(output) =~~= mat_relu_deriv(vm));
        }
        return output;
    }
    let cols = input[0].len();
    for i in 0..rows
        invariant
            vm == mview(*input),
            is_rect(vm),
            rows == vm.len(),
            rows > 0,
            cols == scols(vm),
            output@.len() == i,
            forall|p: int| 0 <= p < i ==> #[trigger] output@[p]@ == mat_relu_deriv(vm)[p],
    {
        let mut row: Vec<T> = Vec::new();
        for j in 0..cols
            invariant
                vm == mview(*input),
                is_rect(vm),
                0 <= i < vm.len(),
                cols == scols(vm),
                row@.len() == j,
                forall|q: int| 0 <= q < j ==> #[trigger] row@[q] == mat_relu_deriv(vm)[i as int][q],
        {
            assert(vm[i as int] == input@[i as int]@);
            let cell = input[i][j];
            let zero = T::zero();
            let entry = if zero.lt(cell) {
                T::one()
            } else {
                zero
            };
            row.push(entry);
        }
        proof {
            assert(row@ =~= mat_relu_deriv(vm)[i as int]);
        }
        output.push(row);
    }
    proof {
        assert(mview(output) =~~= mat_relu_deriv(vm));
    }
    output
}

/// Encodes a single-row matrix of class labels as a one-hot matrix
/// whose column `j` encodes label `j`.
///
/// Anything but exactly one label row is rejected; a label that is
/// negative or names a class at or past `num_classes` is rejected.
pub fn transform_labels_to_network_output<T: Scalar>(labels: &Vec<Vec<T>>, num_classes: usize) -> (r:
    Result<Vec<Vec<T>>, MatrixError>)
    ensures
        match r {
            Ok(m) => labels@.len() == 1 && labels_valid(mview(*labels)[0], num_classes as nat)
                && mview(m) == one_hot(mview(*labels)[0], num_classes as nat) && is_rect(mview(m))
                && mview(m).len() == num_classes && (num_classes > 0 ==> scols(mview(m))
                == labels@[0]@.len()),
            Err(e) => (e == MatrixError::DimensionMismatch <==> labels@.len() != 1) && (e
                == MatrixError::LabelOutOfRange <==> (labels@.len() == 1 && !labels_valid(
                mview(*labels)[0],
                num_classes as nat,
            ))) && (e == MatrixError::DimensionMismatch || e == MatrixError::LabelOutOfRange),
        },
{
    let ghost vl = mview(*labels);
    if labels.len() != 1 {
        return Err(MatrixError::DimensionMismatch);
    }
    assert(vl[0] == labels@[0]@);
    let n = labels[0].len();
    let zero = T::zero();
    for j in 0..n
        invariant
            vl == mview(*labels),
            labels@.len() == 1,
            n == vl[0].len(),
            zero == T::zero_spec(),
            forall|q: int|
                0 <= q < j ==> !(#[trigger] vl[0][q]).lt_spec(T::zero_spec()) && vl[0][q].index_spec()
                    < num_classes,
    {
        assert(vl[0] == labels@[0]@);
        let label = labels[0][j];
        if label.lt(zero) || label.to_index() >= num_classes {
            return Err(MatrixError::LabelOutOfRange);
        }
    }
    let mut result: Vec<Vec<T>> = Vec::new();
    for c in 0..num_classes
        invariant
            vl == mview(*labels),
            labels@.len() == 1,
            n == vl[0].len(),
            result@.len() == c,
            forall|p: int|
                0 <= p < c ==> #[trigger] result@[p]@ == one_hot(vl[0], num_classes as nat)[p],
    {
        let mut row: Vec<T> = Vec::new();
        for j in 0..n
            invariant
                vl == mview(*labels),
                labels@.len() == 1,
                n == vl[0].len(),
                0 <= c < num_classes,
                row@.len() == j,
                forall|q: int|
                    0 <= q < j ==> #[trigger] row@[q] == one_hot(vl[0], num_classes as nat)[
                    c as int][q],
        {
            assert(vl[0] == labels@[0]@);
            let label = labels[0][j];
            let entry = if label.to_index() == c {
                T::one()
            } else {
                T::zero()
            };
            row.push(entry);
        }
        proof {
            assert(row@ =~= one_hot(vl[0], num_classes as nat)[c as int]);
        }
        result.push(row);
    }
    proof {
        assert(mview(result) =~~= one_hot(vl[0], num_classes as nat));
    }
    Ok(result)
}

/// Softmax over each column of a non-empty score matrix.
///
/// Stabilized by taking the single greatest entry of the whole matrix
/// off every entry before exponentiating; each column is then
/// normalized by its own sum of exponentials.
pub fn softmax<T: Scalar>(matrix: &Vec<Vec<T>>) -> (r: Result<Vec<Vec<T>>, MatrixError>)
    requires
        is_rect(mview(*matrix)),
    ensures
        match r {
            Ok(a) => matrix@.len() > 0 && scols(mview(*matrix)) > 0 && mview(a) == mat_softmax(
                mview(*matrix),
            ) && is_rect(mview(a)) && mview(a).len() == matrix@.len() && scols(mview(a)) == scols(
                mview(*matrix),
            ),
            Err(e) => e == MatrixError::EmptyInput && (matrix@.len() == 0 || scols(mview(*matrix))
                == 0),
        },
{
    let ghost vm = mview(*matrix);
    let max = match matrix_max(matrix) {
        Ok(v) => v,
        Err(e) => {
            return Err(e);
        },
    };
    let rows = matrix.len();
    let cols = matrix[0].len();
    let mut exps: Vec<Vec<T>> = Vec::new();
    for i in 0..rows
        invariant
            vm == mview(*matrix),
            is_rect(vm),
            rows == vm.len(),
            rows > 0,
            cols == scols(vm),
            cols > 0,
            max == mat_max_spec(vm),
            exps@.len() == i,
            forall|p: int| 0 <= p < i ==> #[trigger] exps@[p]@ == mat_exp_shift(vm)[p],
    {
        let mut row: Vec<T> = Vec::new();
        for j in 0..cols
            invariant
                vm == mview(*matrix),
                is_rect(vm),
                0 <= i < vm.len(),
                cols == scols(vm),
                max == mat_max_spec(vm),
                row@.len() == j,
                forall|q: int| 0 <= q < j ==> #[trigger] row@[q] == mat_exp_shift(vm)[i as int][q],
        {
            assert(vm[i as int] == matrix@[i as int]@);
            let entry = matrix[i][j].sub(max).exp();
            row.push(entry);
        }
        proof {
            assert(row@ =~= mat_exp_shift(vm)[i as int]);
        }
        exps.push(row);
    }
    proof {
        assert(mview(exps) =~~= mat_exp_shift(vm));
    }
    let column_sums = match col_sum(&exps) {
        Ok(v) => v,
        Err(e) => {
            return Err(e);
        },
    };
    let ghost ve = mat_exp_shift(vm);
    let mut result: Vec<Vec<T>> = Vec::new();
    for i in 0..rows
        invariant
            vm == mview(*matrix),
            is_rect(vm),
            rows == vm.len(),
            rows > 0,
            cols == scols(vm),
            ve == mat_exp_shift(vm),
            ve == mview(exps),
            exps@.len() == rows,
            column_sums@.len() == cols,
            forall|q: int|
                0 <= q < cols ==> #[trigger] column_sums@[q] == sum_prefix(
                    col_of(ve, q),
                    rows as int,
                ),
            result@.len() == i,
            forall|p: int| 0 <= p < i ==> #[trigger] result@[p]@ == mat_softmax(vm)[p],
    {
        let mut row: Vec<T> = Vec::new();
        for j in 0..cols
            invariant
                vm == mview(*matrix),
                is_rect(vm),
                rows == vm.len(),
                0 <= i < vm.len(),
                cols == scols(vm),
                ve == mat_exp_shift(vm),
                ve == mview(exps),
                exps@.len() == rows,
                column_sums@.len() == cols,
                forall|q: int|
                    0 <= q < cols ==> #[trigger] column_sums@[q] == sum_prefix(
                        col_of(ve, q),
                        rows as int,
                    ),
                row@.len() == j,
                forall|q: int| 0 <= q < j ==> #[trigger] row@[q] == mat_softmax(vm)[i as int][q],
        {
            assert(ve[i as int] == exps@[i as int]@);
            assert(ve[i as int].len() == cols);
            let entry = exps[i][j].div(column_sums[j]);
            row.push(entry);
        }
        proof {
            assert(row@ =~= mat_softmax(vm)[i as int]);
        }
        result.push(row);
    }
    proof {
        assert(mview(result) =~~= mat_softmax(vm));
    }
    Ok(result)
}

/// The first layer's pre-activation: the weights applied to the
/// input, shifted by the broadcast bias.
pub open spec fn fwd_z1<T: Scalar>(w1: Seq<Seq<T>>, b1: Seq<Seq<T>>, x: Seq<Seq<T>>) -> Seq<
    Seq<T>,
> {
    mat_linear(Operation::Add, mat_product(w1, x), b1)
}

/// The first layer's activation.
pub open spec fn fwd_a1<T: Scalar>(w1: Seq<Seq<T>>, b1: Seq<Seq<T>>, x: Seq<Seq<T>>) -> Seq<
    Seq<T>,
> {
    mat_relu(fwd_z1(w1, b1, x))
}

/// The second layer's pre-activation.
pub open spec fn fwd_z2<T: Scalar>(
    w1: Seq<Seq<T>>,
    b1: Seq<Seq<T>>,
    w2: Seq<Seq<T>>,
    b2: Seq<Seq<T>>,
    x: Seq<Seq<T>>,
) -> Seq<Seq<T>> {
    mat_linear(Operation::Add, mat_product(w2, fwd_a1(w1, b1, x)), b2)
}

/// The network's output: softmax of the second pre-activation.
pub open spec fn fwd_a2<T: Scalar>(
    w1: Seq<Seq<T>>,
    b1: Seq<Seq<T>>,
    w2: Seq<Seq<T>>,
    b2: Seq<Seq<T>>,
    x: Seq<Seq<T>>,
) -> Seq<Seq<T>> {
    mat_softmax(fwd_z2(w1, b1, w2, b2, x))
}

/// Exactly the shape conditions under which one forward pass goes
/// through: each product and broadcast lines up and the batch is not
/// empty.
pub open spec fn forward_shapes_ok<T: Scalar>(
    w1: Seq<Seq<T>>,
    b1: Seq<Seq<T>>,
    w2: Seq<Seq<T>>,
    b2: Seq<Seq<T>>,
    x: Seq<Seq<T>>,
) -> bool {
    &&& w1.len() > 0
    &&& x.len() > 0
    &&& scols(w1) == x.len()
    &&& b1.len() == w1.len()
    &&& scols(b1) == 1
    &&& w2.len() > 0
    &&& scols(w2) == w1.len()
    &&& b2.len() == w2.len()
    &&& scols(b2) == 1
    &&& scols(x) > 0
}

/// One forward pass over the whole batch: the two linear layers with
/// their activations, returning every intermediate the backward pass
/// needs, as the tuple `(Z1, A1, Z2, A2)`.  Neither the parameters nor
/// the input are changed; columns of the input are independent
/// examples.
pub fn forward_propagation<T: Scalar>(
    network_params: NetworkParams<T>,
    input_image: &Vec<Vec<T>>,
) -> (r: Result<NetworkParams<T>, MatrixError>)
    requires
        is_rect(mview(network_params.0)),
        is_rect(mview(network_params.1)),
        is_rect(mview(network_params.2)),
        is_rect(mview(network_params.3)),
        is_rect(mview(*input_image)),
    ensures
        match r {
            Ok(cache) => {
                let w1 = mview(network_params.0);
                let b1 = mview(network_params.1);
                let w2 = mview(network_params.2);
                let b2 = mview(network_params.3);
                let x = mview(*input_image);
                &&& forward_shapes_ok(w1, b1, w2, b2, x)
                &&& mview(cache.0) == fwd_z1(w1, b1, x)
                &&& mview(cache.1) == fwd_a1(w1, b1, x)
                &&& mview(cache.2) == fwd_z2(w1, b1, w2, b2, x)
                &&& mview(cache.3) == fwd_a2(w1, b1, w2, b2, x)
                &&& is_rect(mview(cache.0))
                &&& is_rect(mview(cache.1))
                &&& is_rect(mview(cache.2))
                &&& is_rect(mview(cache.3))
                &&& mview(cache.0).len() == w1.len()
                &&& scols(mview(cache.0)) == scols(x)
                &&& mview(cache.1).len() == w1.len()
                &&& scols(mview(cache.1)) == scols(x)
                &&& mview(cache.2).len() == w2.len()
                &&& scols(mview(cache.2)) == scols(x)
                &&& mview(cache.3).len() == w2.len()
                &&& scols(mview(cache.3)) == scols(x)
            },
            Err(e) => {
                let w1 = mview(network_params.0);
                let w2 = mview(network_params.2);
                let x = mview(*input_image);
                &&& !forward_shapes_ok(
                    w1,
                    mview(network_params.1),
                    w2,
                    mview(network_params.3),
                    x,
                )
                &&& (e == MatrixError::DimensionMismatch || e == MatrixError::EmptyInput)
                &&& (e == MatrixError::EmptyInput ==> (w1.len() == 0 || x.len() == 0 || w2.len()
                    == 0 || scols(x) == 0))
            },
        },
{
    let (w_1, b_1, w_2, b_2) = network_params;
    let weighted_input = dot_product(&w_1, input_image)?;
    let z_1 = linear_op(Operation::Add, &weighted_input, &b_1)?;
    let activation_1 = relu(&z_1);
    let weighted_l1 = dot_product(&w_2, &activation_1)?;
    let z_2 = linear_op(Operation::Add, &weighted_l1, &b_2)?;
    let activation_2 = softmax(&z_2)?;
    Ok((z_1, activation_1, z_2, activation_2))
}

/// The reciprocal of the example count, as the scalar standing for
/// one over the label row's length.
pub open spec fn grad_minv<T: Scalar>(labels: Seq<T>) -> T {
    T::one_spec().div_spec(T::from_count_spec(labels.len() as usize))
}

/// The output-layer error signal: the network output minus the one-hot
/// encoding of the true labels.
pub open spec fn grad_dz2<T: Scalar>(a2: Seq<Seq<T>>, labels: Seq<T>) -> Seq<Seq<T>> {
    mat_ew_sub(a2, one_hot(labels, OUTPUT_CLASSES as nat))
}

/// The second-layer weight gradient: the output error against the
/// first activations, averaged over the batch.
pub open spec fn grad_dw2<T: Scalar>(a1: Seq<Seq<T>>, a2: Seq<Seq<T>>, labels: Seq<T>) -> Seq<
    Seq<T>,
> {
    mat_scale(mat_product(grad_dz2(a2, labels), mat_transpose(a1)), grad_minv(labels))
}

/// The second-layer bias gradient: the output error summed over the
/// batch, averaged.
pub open spec fn grad_db2<T: Scalar>(a2: Seq<Seq<T>>, labels: Seq<T>) -> Seq<Seq<T>> {
    mat_scale(mat_row_sum(grad_dz2(a2, labels)), grad_minv(labels))
}

/// The hidden-layer error signal: the output error carried back
/// through the second weights, gated by the ReLU derivative.
pub open spec fn grad_dz1<T: Scalar>(
    z1: Seq<Seq<T>>,
    a2: Seq<Seq<T>>,
    w2: Seq<Seq<T>>,
    labels: Seq<T>,
) -> Seq<Seq<T>> {
    mat_ew_mul(mat_product(mat_transpose(w2), grad_dz2(a2, labels)), mat_relu_deriv(z1))
}

/// The first-layer weight gradient.
pub open spec fn grad_dw1<T: Scalar>(
    z1: Seq<Seq<T>>,
    a2: Seq<Seq<T>>,
    w2: Seq<Seq<T>>,
    labels: Seq<T>,
    x: Seq<Seq<T>>,
) -> Seq<Seq<T>> {
    mat_scale(mat_product(grad_dz1(z1, a2, w2, labels), mat_transpose(x)), grad_minv(labels))
}

/// The first-layer bias gradient.
pub open spec fn grad_db1<T: Scalar>(
    z1: Seq<Seq<T>>,
    a2: Seq<Seq<T>>,
    w2: Seq<Seq<T>>,
    labels: Seq<T>,
) -> Seq<Seq<T>> {
    mat_scale(mat_row_sum(grad_dz1(z1, a2, w2, labels)), grad_minv(labels))
}

/// Exactly the conditions under which one backward pass goes through:
/// a single non-empty row of valid labels, a cache and weights whose
/// shapes agree with it, and an input of matching batch width.
pub open spec fn backward_shapes_ok<T: Scalar>(
    z1: Seq<Seq<T>>,
    a1: Seq<Seq<T>>,
    a2: Seq<Seq<T>>,
    w2: Seq<Seq<T>>,
    labels: Seq<Seq<T>>,
    x: Seq<Seq<T>>,
) -> bool {
    &&& labels.len() == 1
    &&& labels[0].len() > 0
    &&& labels_valid(labels[0], OUTPUT_CLASSES as nat)
    &&& a2.len() == OUTPUT_CLASSES
    &&& scols(a2) == labels[0].len()
    &&& scols(a1) == labels[0].len()
    &&& w2.len() == OUTPUT_CLASSES
    &&& scols(w2) > 0
    &&& z1.len() == scols(w2)
    &&& scols(z1) == labels[0].len()
    &&& scols(x) == labels[0].len()
}

/// One backward pass: the four parameter gradients computed by the
/// chain rule for the cross-entropy-over-softmax output and the ReLU
/// hidden layer, averaged over the batch, as the tuple
/// `(dW1, db1, dW2, db2)`.  Nothing passed in is changed.
pub fn back_propagation<T: Scalar>(
    network_params: NetworkParams<T>,
    w_2: Vec<Vec<T>>,
    labels: Vec<Vec<T>>,
    input_image: &Vec<Vec<T>>,
) -> (r: Result<NetworkParams<T>, MatrixError>)
    requires
        is_rect(mview(network_params.0)),
        is_rect(mview(network_params.1)),
        is_rect(mview(network_params.3)),
        is_rect(mview(w_2)),
        is_rect(mview(labels)),
        is_rect(mview(*input_image)),
    ensures
        match r {
            Ok(g) => {
                let z1 = mview(network_params.0);
                let a1 = mview(network_params.1);
                let a2 = mview(network_params.3);
                let w2 = mview(w_2);
                let lab = mview(labels);
                let x = mview(*input_image);
                &&& backward_shapes_ok(z1, a1, a2, w2, lab, x)
                &&& mview(g.0) == grad_dw1(z1, a2, w2, lab[0], x)
                &&& mview(g.1) == grad_db1(z1, a2, w2, lab[0])
                &&& mview(g.2) == grad_dw2(a1, a2, lab[0])
                &&& mview(g.3) == grad_db2(a2, lab[0])
                &&& is_rect(mview(g.0))
                &&& is_rect(mview(g.1))
                &&& is_rect(mview(g.2))
                &&& is_rect(mview(g.3))
                &&& mview(g.0).len() == scols(w2)
                &&& scols(mview(g.0)) == x.len()
                &&& mview(g.1).len() == scols(w2)
                &&& scols(mview(g.1)) == 1
                &&& mview(g.2).len() == OUTPUT_CLASSES
                &&& scols(mview(g.2)) == a1.len()
                &&& mview(g.3).len() == OUTPUT_CLASSES
                &&& scols(mview(g.3)) == 1
            },
            Err(e) => {
                let a1 = mview(network_params.1);
                let w2 = mview(w_2);
                let lab = mview(labels);
                let x = mview(*input_image);
                &&& !backward_shapes_ok(mview(network_params.0), a1, mview(network_params.3), w2, lab, x)
                &&& (e == MatrixError::DimensionMismatch || e == MatrixError::LabelOutOfRange || e
                    == MatrixError::EmptyInput)
                &&& (e == MatrixError::LabelOutOfRange <==> (lab.len() == 1 && !labels_valid(
                    lab[0],
                    OUTPUT_CLASSES as nat,
                )))
                &&& (e == MatrixError::EmptyInput ==> (scols(a1) == 0 || scols(w2) == 0 || scols(x)
                    == 0))
            },
        },
{
    let (z_1, activation_1, _z_2, activation_2) = network_params;
    if labels.len() != 1 {
        return Err(MatrixError::DimensionMismatch);
    }
    assert(mview(labels)[0] == labels@[0]@);
    let m = labels[0].len();
    let m_inverse = T::one().div(T::from_count(m));
    let expected_labels = transform_labels_to_network_output(&labels, OUTPUT_CLASSES)?;
    let delta_z_2 = matrix_subtract(&activation_2, &expected_labels)?;
    let transposed_a_1 = transpose(&activation_1);
    let delta_w_2 = multiply(&dot_product(&delta_z_2, &transposed_a_1)?, m_inverse);
    let sum_delta_z_2 = row_sum(&delta_z_2);
    let delta_b_2 = multiply(&sum_delta_z_2, m_inverse);
    let dot_w_2_d_z_2 = dot_product(&transpose(&w_2), &delta_z_2)?;
    let deriv_z_1 = relu_derivative(&z_1);
    let delta_z_1 = matrix_multiply(&dot_w_2_d_z_2, &deriv_z_1)?;
    let delta_w_1 = multiply(&dot_product(&delta_z_1, &transpose(input_image))?, m_inverse);
    let delta_b_1 = multiply(&row_sum(&delta_z_1), m_inverse);
    Ok((delta_w_1, delta_b_1, delta_w_2, delta_b_2))
}

/// The predicted class of each column of a score matrix: the row
/// index of the column's greatest entry, earliest on ties.
pub fn get_predictions<T: Scalar>(matrix: &Vec<Vec<T>>) -> (r: Result<Vec<usize>, MatrixError>)
    requires
        is_rect(mview(*matrix)),
    ensures
        match r {
            Ok(v) => matrix@.len() > 0 && v@.len() == scols(mview(*matrix)) && to_ints(v@)
                == predictions_spec(mview(*matrix)),
            Err(e) => e == MatrixError::EmptyInput && matrix@.len() == 0,
        },
{
    let ghost vm = mview(*matrix);
    let rows = matrix.len();
    if rows == 0 {
        return Err(MatrixError::EmptyInput);
    }
    let ncol = matrix[0].len();
    let mut result: Vec<usize> = Vec::new();
    for i in 0..ncol
        invariant
            vm == mview(*matrix),
            is_rect(vm),
            rows == vm.len(),
            rows > 0,
            ncol == scols(vm),
            result@.len() == i,
            forall|p: int|
                0 <= p < i ==> #[trigger] result@[p] as int == argmax_prefix(
                    col_of(vm, p),
                    vm.len() as int,
                ),
    {
        let ghost column = col_of(vm, i as int);
        let mut max_index: usize = 0;
        assert(vm[0] == matrix@[0]@);
        let mut max_value = matrix[0][i];
        assert(column[0] == vm[0][i as int]);
        for j in 1..rows
            invariant
                vm == mview(*matrix),
                is_rect(vm),
                rows == vm.len(),
                0 <= i < scols(vm),
                column == col_of(vm, i as int),
                1 <= j <= rows,
                max_index as int == argmax_prefix(column, j as int),
                max_index < j,
                max_value == column[max_index as int],
        {
            assert(vm[j as int] == matrix@[j as int]@);
            assert(column[j as int] == vm[j as int][i as int]);
            let cell = matrix[j][i];
            if max_value.lt(cell) {
                max_index = j;
                max_value = cell;
            }
        }
        result.push(max_index);
    }
    proof {
        assert(to_ints(result@) =~= predictions_spec(vm));
    }
    Ok(result)
}

/// The percentage of predictions that match the single row of labels.
///
/// Requires exactly one label row and one prediction per label.
pub fn get_accuracy<T: Scalar>(labels: &Vec<Vec<T>>, prediction: Vec<usize>) -> (r: Result<
    T,
    MatrixError,
>)
    ensures
        match r {
            Ok(a) => labels@.len() == 1 && prediction@.len() == labels@[0]@.len() && a
                == accuracy_spec(mview(*labels)[0], to_ints(prediction@)),
            Err(e) => e == MatrixError::DimensionMismatch && (labels@.len() != 1 || prediction@.len()
                != labels@[0]@.len()),
        },
{
    let ghost vl = mview(*labels);
    if labels.len() != 1 {
        return Err(MatrixError::DimensionMismatch);
    }
    assert(vl[0] == labels@[0]@);
    let n = labels[0].len();
    if prediction.len() != n {
        return Err(MatrixError::DimensionMismatch);
    }
    let mut matches: usize = 0;
    for i in 0..n
        invariant
            vl == mview(*labels),
            labels@.len() == 1,
            n == vl[0].len(),
            prediction@.len() == n,
            matches <= i,
            matches as int == match_count(vl[0], to_ints(prediction@), i as int),
    {
        assert(vl[0] == labels@[0]@);
        assert(to_ints(prediction@)[i as int] == prediction@[i as int] as int);
        let label = labels[0][i];
        if label.to_index() == prediction[i] {
            matches = matches + 1;
        }
    }
    let share = T::from_count(matches).div(T::from_count(n));
    Ok(share.mul(T::from_count(100)))
}

/// Exactly the conditions under which one full training step goes
/// through: the forward shapes line up, the second layer is as wide
/// as the class count, and the labels are one valid row with one
/// label per example column.
pub open spec fn train_shapes_ok<T: Scalar>(
    w1: Seq<Seq<T>>,
    b1: Seq<Seq<T>>,
    w2: Seq<Seq<T>>,
    b2: Seq<Seq<T>>,
    labels: Seq<Seq<T>>,
    x: Seq<Seq<T>>,
) -> bool {
    &&& forward_shapes_ok(w1, b1, w2, b2, x)
    &&& w2.len() == OUTPUT_CLASSES
    &&& labels.len() == 1
    &&& labels[0].len() == scols(x)
    &&& labels_valid(labels[0], OUTPUT_CLASSES as nat)
}

/// One full-batch gradient-descent step: a forward pass, a backward
/// pass, the four parameter updates by `alpha` times the gradients,
/// and the accuracy of the pre-update network on the batch.
///
/// The updated parameters and the accuracy are exact functions of the
/// arguments, stated over the forward- and backward-pass
/// specifications.
pub fn train_iteration<T: Scalar>(
    params: &NetworkParams<T>,
    train_labels: &Vec<Vec<T>>,
    train_data: &Vec<Vec<T>>,
    alpha: T,
) -> (r: Result<(NetworkParams<T>, T), MatrixError>)
    requires
        is_rect(mview(params.0)),
        is_rect(mview(params.1)),
        is_rect(mview(params.2)),
        is_rect(mview(params.3)),
        is_rect(mview(*train_labels)),
        is_rect(mview(*train_data)),
    ensures
        match r {
            Ok(up) => {
                let w1 = mview(params.0);
                let b1 = mview(params.1);
                let w2 = mview(params.2);
                let b2 = mview(params.3);
                let lab = mview(*train_labels);
                let x = mview(*train_data);
                let z1 = fwd_z1(w1, b1, x);
                let a1 = fwd_a1(w1, b1, x);
                let a2 = fwd_a2(w1, b1, w2, b2, x);
                &&& train_shapes_ok(w1, b1, w2, b2, lab, x)
                &&& mview(up.0.0) == mat_ew_sub(w1, mat_scale(grad_dw1(z1, a2, w2, lab[0], x), alpha))
                &&& mview(up.0.1) == mat_ew_sub(b1, mat_scale(grad_db1(z1, a2, w2, lab[0]), alpha))
                &&& mview(up.0.2) == mat_ew_sub(w2, mat_scale(grad_dw2(a1, a2, lab[0]), alpha))
                &&& mview(up.0.3) == mat_ew_sub(b2, mat_scale(grad_db2(a2, lab[0]), alpha))
                &&& up.1 == accuracy_spec(lab[0], predictions_spec(a2))
                &&& is_rect(mview(up.0.0)) && mview(up.0.0).len() == w1.len() && scols(
                    mview(up.0.0),
                ) == scols(w1)
                &&& is_rect(mview(up.0.1)) && mview(up.0.1).len() == b1.len() && scols(
                    mview(up.0.1),
                ) == scols(b1)
                &&& is_rect(mview(up.0.2)) && mview(up.0.2).len() == w2.len() && scols(
                    mview(up.0.2),
                ) == scols(w2)
                &&& is_rect(mview(up.0.3)) && mview(up.0.3).len() == b2.len() && scols(
                    mview(up.0.3),
                ) == scols(b2)
            },
            Err(e) => {
                let w1 = mview(params.0);
                let b1 = mview(params.1);
                let w2 = mview(params.2);
                let b2 = mview(params.3);
                let lab = mview(*train_labels);
                let x = mview(*train_data);
                &&& !train_shapes_ok(w1, b1, w2, b2, lab, x)
                &&& (e == MatrixError::DimensionMismatch || e == MatrixError::LabelOutOfRange || e
                    == MatrixError::EmptyInput)
                &&& (e == MatrixError::LabelOutOfRange <==> (forward_shapes_ok(w1, b1, w2, b2, x)
                    && lab.len() == 1 && !labels_valid(lab[0], OUTPUT_CLASSES as nat)))
                &&& (e == MatrixError::EmptyInput ==> (w1.len() == 0 || x.len() == 0 || w2.len()
                    == 0 || scols(x) == 0))
            },
        },
{
    let w_1 = copy_matrix(&params.0);
    let b_1 = copy_matrix(&params.1);
    let w_2 = copy_matrix(&params.2);
    let b_2 = copy_matrix(&params.3);
    let cache = forward_propagation((w_1, b_1, w_2, b_2), train_data)?;
    let activation_2 = copy_matrix(&cache.3);
    let w_2_again = copy_matrix(&params.2);
    let labels_again = copy_matrix(train_labels);
    let grads = back_propagation(cache, w_2_again, labels_again, train_data)?;
    let w_1_new = matrix_subtract(&params.0, &multiply(&grads.0, alpha))?;
    let b_1_new = matrix_subtract(&params.1, &multiply(&grads.1, alpha))?;
    let w_2_new = matrix_subtract(&params.2, &multiply(&grads.2, alpha))?;
    let b_2_new = matrix_subtract(&params.3, &multiply(&grads.3, alpha))?;
    let prediction = get_predictions(&activation_2)?;
    let accuracy = get_accuracy(train_labels, prediction)?;
    Ok(((w_1_new, b_1_new, w_2_new, b_2_new), accuracy))
}

/// The mathematical value of the four parameter tensors together.
pub type ParamsView<T> = (Seq<Seq<T>>, Seq<Seq<T>>, Seq<Seq<T>>, Seq<Seq<T>>);

/// The views of a parameter tuple.
pub open spec fn params_view<T: Scalar>(p: NetworkParams<T>) -> ParamsView<T> {
    (mview(p.0), mview(p.1), mview(p.2), mview(p.3))
}

/// Whether a parameter view has the fixed architecture's shapes.
pub open spec fn arch_shaped<T: Scalar>(p: ParamsView<T>) -> bool {
    &&& is_rect(p.0) && p.0.len() == HIDDEN_UNITS && scols(p.0) == INPUT_FEATURES
    &&& is_rect(p.1) && p.1.len() == HIDDEN_UNITS && scols(p.1) == 1
    &&& is_rect(p.2) && p.2.len() == OUTPUT_CLASSES && scols(p.2) == HIDDEN_UNITS
    &&& is_rect(p.3) && p.3.len() == OUTPUT_CLASSES && scols(p.3) == 1
}

/// One gradient-descent update of the four tensors: each parameter
/// minus `alpha` times its gradient from one forward/backward pass.
pub open spec fn step_params<T: Scalar>(
    p: ParamsView<T>,
    labels: Seq<Seq<T>>,
    x: Seq<Seq<T>>,
    alpha: T,
) -> ParamsView<T> {
    let z1 = fwd_z1(p.0, p.1, x);
    let a1 = fwd_a1(p.0, p.1, x);
    let a2 = fwd_a2(p.0, p.1, p.2, p.3, x);
    (
        mat_ew_sub(p.0, mat_scale(grad_dw1(z1, a2, p.2, labels[0], x), alpha)),
        mat_ew_sub(p.1, mat_scale(grad_db1(z1, a2, p.2, labels[0]), alpha)),
        mat_ew_sub(p.2, mat_scale(grad_dw2(a1, a2, labels[0]), alpha)),
        mat_ew_sub(p.3, mat_scale(grad_db2(a2, labels[0]), alpha)),
    )
}

/// The accuracy of the network with parameters `p` on the batch,
/// before any update.
pub open spec fn step_accuracy<T: Scalar>(p: ParamsView<T>, labels: Seq<Seq<T>>, x: Seq<Seq<T>>) -> T {
    accuracy_spec(labels[0], predictions_spec(fwd_a2(p.0, p.1, p.2, p.3, x)))
}

/// Exactly the input-side conditions under which training goes
/// through with freshly initialized parameters of the fixed
/// architecture: one valid label per example column, one input
/// feature row per pixel, and a non-empty batch.
pub open spec fn train_inputs_ok<T: Scalar>(labels: Seq<Seq<T>>, x: Seq<Seq<T>>) -> bool {
    &&& x.len() == INPUT_FEATURES
    &&& scols(x) > 0
    &&& labels.len() == 1
    &&& labels[0].len() == scols(x)
    &&& labels_valid(labels[0], OUTPUT_CLASSES as nat)
}

/// Plain full-batch gradient descent for the fixed two-layer
/// architecture: parameters are initialized from the seeded
/// generator, then updated once per iteration; the accuracy of each
/// iteration's pre-update network is collected in order.  There is no
/// early exit: exactly `iterations` steps run, each one the exact
/// step that `train_iteration` states.
pub fn train<T: Scalar>(
    train_labels: Vec<Vec<T>>,
    train_data: Vec<Vec<T>>,
    iterations: usize,
    alpha: T,
    rng: &mut SeededRng,
) -> (r: Result<(NetworkParams<T>, Vec<T>), MatrixError>)
    requires
        is_rect(mview(train_labels)),
        is_rect(mview(train_data)),
    ensures
        match r {
            Ok(out) => {
                &&& out.1@.len() == iterations
                &&& shaped(out.0.0, HIDDEN_UNITS as int, INPUT_FEATURES as int)
                &&& shaped(out.0.1, HIDDEN_UNITS as int, 1)
                &&& shaped(out.0.2, OUTPUT_CLASSES as int, HIDDEN_UNITS as int)
                &&& shaped(out.0.3, OUTPUT_CLASSES as int, 1)
                &&& iterations > 0 ==> train_inputs_ok(mview(train_labels), mview(train_data))
                &&& exists|chain: Seq<ParamsView<T>>|
                    {
                        &&& chain.len() == iterations + 1
                        &&& arch_shaped(chain[0])
                        &&& entries_unit_range(chain[0].0)
                        &&& entries_unit_range(chain[0].1)
                        &&& entries_unit_range(chain[0].2)
                        &&& entries_unit_range(chain[0].3)
                        &&& params_view(out.0) == chain[iterations as int]
                        &&& forall|k: int|
                            0 <= k < iterations ==> #[trigger] chain[k + 1] == step_params(
                                chain[k],
                                mview(train_labels),
                                mview(train_data),
                                alpha,
                            )
                        &&& forall|k: int|
                            0 <= k < iterations ==> #[trigger] out.1@[k] == step_accuracy(
                                chain[k],
                                mview(train_labels),
                                mview(train_data),
                            )
                    }
            },
            Err(e) => {
                let lab = mview(train_labels);
                let x = mview(train_data);
                &&& iterations > 0
                &&& !train_inputs_ok(lab, x)
                &&& (e == MatrixError::DimensionMismatch || e == MatrixError::LabelOutOfRange || e
                    == MatrixError::EmptyInput)
                &&& (e == MatrixError::LabelOutOfRange <==> (x.len() == INPUT_FEATURES && scols(x)
                    > 0 && lab.len() == 1 && !labels_valid(lab[0], OUTPUT_CLASSES as nat)))
                &&& (e == MatrixError::EmptyInput ==> (x.len() == 0 || scols(x) == 0))
            },
        },
{
    let mut params: NetworkParams<T> = crate::params::create_network_params(rng);
    let mut accuracies: Vec<T> = Vec::new();
    let ghost mut chain: Seq<ParamsView<T>> = seq![params_view(params)];
    for i in 0..iterations
        invariant
            is_rect(mview(train_labels)),
            is_rect(mview(train_data)),
            shaped(params.0, HIDDEN_UNITS as int, INPUT_FEATURES as int),
            shaped(params.1, HIDDEN_UNITS as int, 1),
            shaped(params.2, OUTPUT_CLASSES as int, HIDDEN_UNITS as int),
            shaped(params.3, OUTPUT_CLASSES as int, 1),
            accuracies@.len() == i,
            i > 0 ==> train_inputs_ok(mview(train_labels), mview(train_data)),
            chain.len() == i + 1,
            arch_shaped(chain[0]),
            entries_unit_range(chain[0].0),
            entries_unit_range(chain[0].1),
            entries_unit_range(chain[0].2),
            entries_unit_range(chain[0].3),
            chain[i as int] == params_view(params),
            forall|k: int|
                0 <= k < i ==> #[trigger] chain[k + 1] == step_params(
                    chain[k],
                    mview(train_labels),
                    mview(train_data),
                    alpha,
                ),
            forall|k: int|
                0 <= k < i ==> #[trigger] accuracies@[k] == step_accuracy(
                    chain[k],
                    mview(train_labels),
                    mview(train_data),
                ),
    {
        let step = train_iteration(&params, &train_labels, &train_data, alpha)?;
        proof {
            assert(params_view(step.0) == step_params(
                params_view(params),
                mview(train_labels),
                mview(train_data),
                alpha,
            ));
            assert(step.1 == step_accuracy(
                params_view(params),
                mview(train_labels),
                mview(train_data),
            ));
            chain = chain.push(params_view(step.0));
        }
        params = step.0;
        accuracies.push(step.1);
    }
    Ok((params, accuracies))
}

/// Shuffles the example rows, turns them into columns, and splits off
/// the first transposed row as the label row; the remaining rows are
/// scaled down by 255 to the unit interval.  The split-off pieces are
/// exact functions of some permutation of the input's rows.
pub fn prepare_data<T: Scalar>(dev_set: Vec<Vec<T>>, rng: &mut SeededRng) -> (r: Result<
    (Vec<Vec<T>>, Vec<Vec<T>>),
    MatrixError,
>)
    requires
        is_rect(mview(dev_set)),
    ensures
        match r {
            Ok(pair) => scols(mview(dev_set)) >= 1 && exists|s: Seq<Vec<T>>|
                {
                    &&& s.to_multiset() == dev_set@.to_multiset()
                    &&& is_rect(rows_view(s))
                    &&& mview(pair.0) == mat_transpose(rows_view(s)).take(1)
                    &&& mview(pair.1) == mat_scale_div(
                        mat_transpose(rows_view(s)).skip(1),
                        T::from_count_spec(255),
                    )
                },
            Err(e) => e == MatrixError::DimensionMismatch && scols(mview(dev_set)) == 0,
        },
{
    let mut shuffled = dev_set;
    shuffle_matrix(&mut shuffled, rng);
    let ghost s = shuffled@;
    let transposed_dev_matrix = transpose(&shuffled);
    let pieces = split_matrix(&transposed_dev_matrix, 1)?;
    let train_labels = pieces.0;
    let dev_data = pieces.1;
    proof {
        assert(is_rect(mview(dev_data))) by {
            let t = mview(transposed_dev_matrix);
            assert(forall|i: int|
                0 <= i < t.skip(1).len() ==> (#[trigger] t.skip(1)[i]).len() == scols(t));
        }
    }
    let train_data = divide(&dev_data, T::from_count(255));
    Ok((train_labels, train_data))
}

/// Classifies one image: the grid is scaled down by 255 to the unit
/// interval, flattened row-major into a single column, and run
/// through one forward pass; the answer is the row index of the
/// greatest output score, earliest on ties, and always names one of
/// the network's output classes.
pub fn predict<T: Scalar>(network_params: NetworkParams<T>, input: Vec<Vec<T>>) -> (r: Result<
    usize,
    MatrixError,
>)
    requires
        is_rect(mview(network_params.0)),
        is_rect(mview(network_params.1)),
        is_rect(mview(network_params.2)),
        is_rect(mview(network_params.3)),
        is_rect(mview(input)),
    ensures
        match r {
            Ok(idx) => {
                let w1 = mview(network_params.0);
                let b1 = mview(network_params.1);
                let w2 = mview(network_params.2);
                let b2 = mview(network_params.3);
                let flat = mat_flatten_col(
                    mat_scale_div(mview(input), T::from_count_spec(255)),
                );
                &&& forward_shapes_ok(w1, b1, w2, b2, flat)
                &&& idx < w2.len()
                &&& idx as int == argmax_prefix(
                    col_of(fwd_a2(w1, b1, w2, b2, flat), 0),
                    w2.len() as int,
                )
            },
            Err(e) => !forward_shapes_ok(
                mview(network_params.0),
                mview(network_params.1),
                mview(network_params.2),
                mview(network_params.3),
                mat_flatten_col(mat_scale_div(mview(input), T::from_count_spec(255))),
            ) && (e == MatrixError::DimensionMismatch || e == MatrixError::EmptyInput),
        },
{
    let normalized = divide(&input, T::from_count(255));
    let ghost vn = mview(normalized);
    let rows = normalized.len();
    let mut flat: Vec<Vec<T>> = Vec::new();
    if rows > 0 {
        let cols = normalized[0].len();
        proof {
            assert(0int * cols == 0) by (nonlinear_arith);
        }
        for i in 0..rows
            invariant
                vn == mview(normalized),
                is_rect(vn),
                rows == vn.len(),
                cols == scols(vn),
                flat@.len() == i * cols,
                i * cols <= rows * cols,
                forall|k: int|
                    0 <= k < i * cols ==> #[trigger] flat@[k]@ == mat_flatten_col(vn)[k],
        {
            proof {
                assert((i + 1int) * cols == i * cols + cols && (i + 1int) * cols <= rows * cols)
                    by (nonlinear_arith)
                    requires
                        0 <= i < rows,
                        0 <= cols,
                ;
            }
            for j in 0..cols
                invariant
                    vn == mview(normalized),
                    is_rect(vn),
                    rows == vn.len(),
                    0 <= i < rows,
                    cols == scols(vn),
                    i * cols + cols <= rows * cols,
                    flat@.len() == i * cols + j,
                    forall|k: int|
                        0 <= k < i * cols + j ==> #[trigger] flat@[k]@ == mat_flatten_col(vn)[k],
            {
                assert(vn[i as int] == normalized@[i as int]@);
                let mut cell_row: Vec<T> = Vec::new();
                cell_row.push(normalized[i][j]);
                flat.push(cell_row);
                proof {
                    let k0 = i * cols + j;
                    vstd::arithmetic::div_mod::lemma_fundamental_div_mod_converse(
                        k0 as int,
                        cols as int,
                        i as int,
                        j as int,
                    );
                    assert(flat@[k0 as int]@ =~= mat_flatten_col(vn)[k0 as int]);
                }
            }
            proof {
                assert((i + 1int) * cols == i * cols + cols) by (nonlinear_arith);
            }
        }
        proof {
            assert(flat@.len() == rows * cols);
            assert(mview(flat) =~~= mat_flatten_col(vn));
        }
    } else {
        proof {
            assert(mview(flat) =~~= mat_flatten_col(vn));
        }
    }
    let cache = forward_propagation(network_params, &flat)?;
    let ghost va2 = mview(cache.3);
    let col = get_nth_column(&cache.3, 0)?;
    let ghost column = col_of(va2, 0);
    let n = col.len();
    let mut max_index: usize = 0;
    let mut max_value = col[0];
    for j in 1..n
        invariant
            col@ == column,
            n == col@.len(),
            n > 0,
            1 <= j <= n,
            max_index < j,
            max_index as int == argmax_prefix(column, j as int),
            max_value == column[max_index as int],
    {
        let cell = col[j];
        if max_value.lt(cell) {
            max_index = j;
            max_value = cell;
        }
    }
    Ok(max_index)
}

} // verus!
