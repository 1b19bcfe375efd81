use vstd::prelude::*;

use crate::scalar::Scalar;
use crate::MatrixError;

verus! {

/// The mathematical value of a sequence of rows: each row replaced by
/// its own sequence of entries.
pub open spec fn rows_view<T>(s: Seq<Vec<T>>) -> Seq<Seq<T>> {
    Seq::new(s.len(), |i: int| s[i]@)
}

/// A dense matrix is a vector of rows of equal length.  `mview` is the
/// mathematical value of such a matrix: the sequence of its row
/// sequences.
pub open spec fn mview<T>(m: Vec<Vec<T>>) -> Seq<Seq<T>> {
    rows_view(m@)
}

/// The column count, read from the first row; an empty matrix has no
/// columns.
pub open spec fn scols<T>(m: Seq<Seq<T>>) -> nat {
    if m.len() == 0 {
        0
    } else {
        m[0].len()
    }
}

/// Rectangularity: every row has the length of the first.
pub open spec fn is_rect<T>(m: Seq<Seq<T>>) -> bool {
    forall|i: int| 0 <= i < m.len() ==> (#[trigger] m[i]).len() == scols(m)
}

/// Column `j` of a matrix, as a sequence of its entries from top to
/// bottom.
pub open spec fn col_of<T>(m: Seq<Seq<T>>, j: int) -> Seq<T> {
    Seq::new(m.len(), |i: int| m[i][j])
}

/// The running sum of products over the first `n` positions, folded
/// from the left starting at zero, exactly as the executable
/// accumulation performs it.
pub open spec fn dot_prefix<T: Scalar>(a: Seq<T>, b: Seq<T>, n: int) -> T
    decreases n,
{
    if n <= 0 {
        T::zero_spec()
    } else {
        dot_prefix(a, b, n - 1).add_spec(a[n - 1].mul_spec(b[n - 1]))
    }
}

/// The inner product of two equal-length sequences.
pub open spec fn dot<T: Scalar>(a: Seq<T>, b: Seq<T>) -> T {
    dot_prefix(a, b, a.len() as int)
}

/// The matrix product: entry `(i, j)` is the inner product of row `i`
/// of `a` with column `j` of `b`.
pub open spec fn mat_product<T: Scalar>(a: Seq<Seq<T>>, b: Seq<Seq<T>>) -> Seq<Seq<T>> {
    Seq::new(a.len(), |i: int| Seq::new(scols(b), |j: int| dot(a[i], col_of(b, j))))
}

/// The transpose: row `j` of the result is column `j` of the argument.
pub open spec fn mat_transpose<T>(m: Seq<Seq<T>>) -> Seq<Seq<T>> {
    Seq::new(scols(m), |j: int| col_of(m, j))
}

/// The standard matrix product.
///
/// The shapes are checked before any arithmetic: two empty operands are
/// never read, and incompatible shapes are rejected, never truncated.
pub fn dot_product<T: Scalar>(matrix_1: &Vec<Vec<T>>, matrix_2: &Vec<Vec<T>>) -> (r: Result<
    Vec<Vec<T>>,
    MatrixError,
>)
    requires
        is_rect(mview(*matrix_1)),
        is_rect(mview(*matrix_2)),
    ensures
        match r {
            Ok(c) => matrix_1@.len() > 0 && matrix_2@.len() > 0 && scols(mview(*matrix_1))
                == matrix_2@.len() && mview(c) == mat_product(mview(*matrix_1), mview(*matrix_2))
                && is_rect(mview(c)) && mview(c).len() == matrix_1@.len() && scols(mview(c))
                == scols(mview(*matrix_2)),
            Err(e) => (e == MatrixError::EmptyInput <==> (matrix_1@.len() == 0 || matrix_2@.len()
                == 0)) && (e == MatrixError::DimensionMismatch <==> (matrix_1@.len() > 0
                && matrix_2@.len() > 0 && scols(mview(*matrix_1)) != matrix_2@.len())) && (e
                == MatrixError::EmptyInput || e == MatrixError::DimensionMismatch),
        },
{
    let ghost va = mview(*matrix_1);
    let ghost vb = mview(*matrix_2);
    let m1_rows = matrix_1.len();
    if m1_rows == 0 || matrix_2.len() == 0 {
        return Err(MatrixError::EmptyInput);
    }
    let m1_cols = matrix_1[0].len();
    if m1_cols != matrix_2.len() {
        return Err(MatrixError::DimensionMismatch);
    }
    let m2_cols = matrix_2[0].len();
    let mut result: Vec<Vec<T>> = Vec::new();
    for i in 0..m1_rows
        invariant
            va == mview(*matrix_1),
            vb == mview(*matrix_2),
            is_rect(va),
            is_rect(vb),
            m1_rows == va.len(),
            m1_rows > 0,
            m1_cols == scols(va),
            m1_cols == vb.len(),
            m2_cols == scols(vb),
            result@.len() == i,
            forall|p: int| 0 <= p < i ==> #[trigger] result@[p]@ == mat_product(va, vb)[p],
    {
        let mut row: Vec<T> = Vec::new();
        for j in 0..m2_cols
            invariant
                va == mview(*matrix_1),
                vb == mview(*matrix_2),
                is_rect(va),
                is_rect(vb),
                0 <= i < va.len(),
                m1_cols == scols(va),
                m1_cols == vb.len(),
                m2_cols == scols(vb),
                row@.len() == j,
                forall|q: int| 0 <= q < j ==> #[trigger] row@[q] == dot(va[i as int], col_of(vb, q)),
        {
            let mut sum = T::zero();
            for k in 0..m1_cols
                invariant
                    va == mview(*matrix_1),
                    vb == mview(*matrix_2),
                    is_rect(va),
                    is_rect(vb),
                    0 <= i < va.len(),
                    0 <= j < scols(vb),
                    m1_cols == scols(va),
                    m1_cols == vb.len(),
                    sum == dot_prefix(va[i as int], col_of(vb, j as int), k as int),
            {
                assert(va[i as int][k as int] == matrix_1@[i as int]@[k as int]);
                assert(col_of(vb, j as int)[k as int] == vb[k as int][j as int]);
                let term = matrix_1[i][k].mul(matrix_2[k][j]);
                sum = sum.add(term);
            }
            proof {
                assert(va[i as int].len() == m1_cols);
                assert(dot(va[i as int], col_of(vb, j as int)) == dot_prefix(
                    va[i as int],
                    col_of(vb, j as int),
                    m1_cols as int,
                ));
            }
            row.push(sum);
        }
        proof {
            assert(row@ =~= mat_product(va, vb)[i as int]);
        }
        result.push(row);
    }
    proof {
        assert(mview(result) =~~= mat_product(va, vb));
    }
    Ok(result)
}

/// Exchanges rows and columns.
pub fn transpose<T: Scalar>(matrix: &Vec<Vec<T>>) -> (r: Vec<Vec<T>>)
    requires
        is_rect(mview(*matrix)),
    ensures
        mview(r) == mat_transpose(mview(*matrix)),
        is_rect(mview(r)),
        mview(r).len() == scols(mview(*matrix)),
        scols(mview(*matrix)) > 0 ==> scols(mview(r)) == matrix@.len(),
{
    let ghost vm = mview(*matrix);
    let rows = matrix.len();
    let mut result: Vec<Vec<T>> = Vec::new();
    if rows == 0 {
        proof {
            assert(mview(result) =~~= mat_transpose(vm));
        }
        return result;
    }
    let cols = matrix[0].len();
    for j in 0..cols
        invariant
            vm == mview(*matrix),
            is_rect(vm),
            rows == vm.len(),
            rows > 0,
            cols == scols(vm),
            result@.len() == j,
            forall|q: int| 0 <= q < j ==> #[trigger] result@[q]@ == col_of(vm, q),
    {
        let mut row: Vec<T> = Vec::new();
        for i in 0..rows
            invariant
                vm == mview(*matrix),
                is_rect(vm),
                rows == vm.len(),
                cols == scols(vm),
                0 <= j < cols,
                row@.len() == i,
                forall|p: int| 0 <= p < i ==> #[trigger] row@[p] == vm[p][j as int],
        {
            assert(vm[i as int] == matrix@[i as int]@);
            assert(vm[i as int].len() == cols);
            let cell = matrix[i][j];
            row.push(cell);
        }
        proof {
            assert(row@ =~= col_of(vm, j as int));
        }
        result.push(row);
    }
    proof {
        assert(mview(result) =~~= mat_transpose(vm));
    }
    result
}

/// Whether the broadcast term is added to or subtracted from each row.
#[derive(Clone, Copy, Debug, PartialEq, Eq, Structural)]
pub enum Operation {
    Subtract,
    Add,
}

/// The broadcast combination: the single bias entry of row `i` is
/// applied to every entry of row `i`.
pub open spec fn mat_linear<T: Scalar>(op: Operation, m: Seq<Seq<T>>, bias: Seq<Seq<T>>) -> Seq<
    Seq<T>,
> {
    Seq::new(
        m.len(),
        |i: int|
            Seq::new(
                scols(m),
                |j: int|
                    match op {
                        Operation::Add => m[i][j].add_spec(bias[i][0]),
                        Operation::Subtract => m[i][j].sub_spec(bias[i][0]),
                    },
            ),
    )
}

/// The entrywise product of two same-shape matrices.
pub open spec fn mat_ew_mul<T: Scalar>(a: Seq<Seq<T>>, b: Seq<Seq<T>>) -> Seq<Seq<T>> {
    Seq::new(a.len(), |i: int| Seq::new(scols(a), |j: int| a[i][j].mul_spec(b[i][j])))
}

/// The entrywise difference of two same-shape matrices.
pub open spec fn mat_ew_sub<T: Scalar>(a: Seq<Seq<T>>, b: Seq<Seq<T>>) -> Seq<Seq<T>> {
    Seq::new(a.len(), |i: int| Seq::new(scols(a), |j: int| a[i][j].sub_spec(b[i][j])))
}

/// Every entry multiplied by the scalar `k`.
pub open spec fn mat_scale<T: Scalar>(m: Seq<Seq<T>>, k: T) -> Seq<Seq<T>> {
    Seq::new(m.len(), |i: int| Seq::new(scols(m), |j: int| m[i][j].mul_spec(k)))
}

/// Every entry divided by the scalar `k`.
pub open spec fn mat_scale_div<T: Scalar>(m: Seq<Seq<T>>, k: T) -> Seq<Seq<T>> {
    Seq::new(m.len(), |i: int| Seq::new(scols(m), |j: int| m[i][j].div_spec(k)))
}

/// The left-to-right sum of the first `n` entries of a sequence,
/// starting from zero.
pub open spec fn sum_prefix<T: Scalar>(s: Seq<T>, n: int) -> T
    decreases n,
{
    if n <= 0 {
        T::zero_spec()
    } else {
        sum_prefix(s, n - 1).add_spec(s[n - 1])
    }
}

/// Broadcast addition or subtraction of a one-column bias.
///
/// Requires the bias to have exactly one column and as many rows as the
/// matrix; any other pairing is rejected.
pub fn linear_op<T: Scalar>(action: Operation, matrix: &Vec<Vec<T>>, bias: &Vec<Vec<T>>) -> (r:
    Result<Vec<Vec<T>>, MatrixError>)
    requires
        is_rect(mview(*matrix)),
        is_rect(mview(*bias)),
    ensures
        match r {
            Ok(c) => bias@.len() == matrix@.len() && scols(mview(*bias)) == 1 && mview(c)
                == mat_linear(action, mview(*matrix), mview(*bias)) && is_rect(mview(c)) && mview(
                c,
            ).len() == matrix@.len() && scols(mview(c)) == scols(mview(*matrix)),
            Err(e) => (e == MatrixError::EmptyInput <==> (matrix@.len() == 0 && bias@.len() == 0))
                && (e == MatrixError::DimensionMismatch <==> (bias@.len() != matrix@.len() || (
                matrix@.len() > 0 && scols(mview(*bias)) != 1))) && (e == MatrixError::EmptyInput
                || e == MatrixError::DimensionMismatch),
        },
{
    let ghost vm = mview(*matrix);
    let ghost vb = mview(*bias);
    let rows = matrix.len();
    if bias.len() != rows {
        return Err(MatrixError::DimensionMismatch);
    }
    if rows == 0 {
        return Err(MatrixError::EmptyInput);
    }
    if bias[0].len() != 1 {
        return Err(MatrixError::DimensionMismatch);
    }
    let cols = matrix[0].len();
    let mut result: Vec<Vec<T>> = Vec::new();
    for i in 0..rows
        invariant
            vm == mview(*matrix),
            vb == mview(*bias),
            is_rect(vm),
            is_rect(vb),
            rows == vm.len(),
            rows > 0,
            rows == vb.len(),
            scols(vb) == 1,
            cols == scols(vm),
            result@.len() == i,
            forall|p: int| 0 <= p < i ==> #[trigger] result@[p]@ == mat_linear(action, vm, vb)[p],
    {
        assert(vb[i as int] == bias@[i as int]@);
        assert(vb[i as int].len() == 1);
        let bias_term = bias[i][0];
        let mut row: Vec<T> = Vec::new();
        for j in 0..cols
            invariant
                vm == mview(*matrix),
                vb == mview(*bias),
                is_rect(vm),
                is_rect(vb),
                0 <= i < vm.len(),
                rows == vb.len(),
                scols(vb) == 1,
                cols == scols(vm),
                bias_term == vb[i as int][0],
                row@.len() == j,
                forall|q: int|
                    0 <= q < j ==> #[trigger] row@[q] == mat_linear(action, vm, vb)[i as int][q],
        {
            assert(vm[i as int] == matrix@[i as int]@);
            assert(vm[i as int].len() == cols);
            let cell = matrix[i][j];
            let entry = if matches!(action, Operation::Subtract) {
                cell.sub(bias_term)
            } else {
                cell.add(bias_term)
            };
            row.push(entry);
        }
        proof {
            assert(row@ =~= mat_linear(action, vm, vb)[i as int]);
        }
        result.push(row);
    }
    proof {
        assert(mview(result) =~~= mat_linear(action, vm, vb));
    }
    Ok(result)
}

/// The entrywise (Hadamard) product.  The shapes must be identical.
pub fn matrix_multiply<T: Scalar>(matrix_1: &Vec<Vec<T>>, matrix_2: &Vec<Vec<T>>) -> (r: Result<
    Vec<Vec<T>>,
    MatrixError,
>)
    requires
        is_rect(mview(*matrix_1)),
        is_rect(mview(*matrix_2)),
    ensures
        match r {
            Ok(c) => matrix_2@.len() == matrix_1@.len() && scols(mview(*matrix_2)) == scols(
                mview(*matrix_1),
            ) && mview(c) == mat_ew_mul(mview(*matrix_1), mview(*matrix_2)) && is_rect(mview(c))
                && mview(c).len() == matrix_1@.len() && scols(mview(c)) == scols(mview(*matrix_1)),
            Err(e) => e == MatrixError::DimensionMismatch && (matrix_2@.len() != matrix_1@.len()
                || scols(mview(*matrix_2)) != scols(mview(*matrix_1))),
        },
{
    let ghost va = mview(*matrix_1);
    let ghost vb = mview(*matrix_2);
    let rows = matrix_1.len();
    if matrix_2.len() != rows {
        return Err(MatrixError::DimensionMismatch);
    }
    if rows == 0 {
        let result: Vec<Vec<T>> = Vec::new();
        proof {
            assert(mview(result) =~~= mat_ew_mul(va, vb));
        }
        return Ok(result);
    }
    let cols = matrix_1[0].len();
    if matrix_2[0].len() != cols {
        return Err(MatrixError::DimensionMismatch);
    }
    let mut result: Vec<Vec<T>> = Vec::new();
    for i in 0..rows
        invariant
            va == mview(*matrix_1),
            vb == mview(*matrix_2),
            is_rect(va),
            is_rect(vb),
            rows == va.len(),
            rows == vb.len(),
            rows > 0,
            cols == scols(va),
            cols == scols(vb),
            result@.len() == i,
            forall|p: int| 0 <= p < i ==> #[trigger] result@[p]@ == mat_ew_mul(va, vb)[p],
    {
        let mut row: Vec<T> = Vec::new();
        for j in 0..cols
            invariant
                va == mview(*matrix_1),
                vb == mview(*matrix_2),
                is_rect(va),
                is_rect(vb),
                0 <= i < va.len(),
                rows == va.len(),
                rows == vb.len(),
                cols == scols(va),
                cols == scols(vb),
                row@.len() == j,
                forall|q: int| 0 <= q < j ==> #[trigger] row@[q] == mat_ew_mul(va, vb)[i as int][q],
        {
            assert(va[i as int] == matrix_1@[i as int]@);
            assert(vb[i as int] == matrix_2@[i as int]@);
            let entry = matrix_1[i][j].mul(matrix_2[i][j]);
            row.push(entry);
        }
        proof {
            assert(row@ =~= mat_ew_mul(va, vb)[i as int]);
        }
        result.push(row);
    }
    proof {
        assert(mview(result) =~~= mat_ew_mul(va, vb));
    }
    Ok(result)
}

/// The entrywise difference.  The shapes must be identical.
pub fn matrix_subtract<T: Scalar>(matrix_1: &Vec<Vec<T>>, matrix_2: &Vec<Vec<T>>) -> (r: Result<
    Vec<Vec<T>>,
    MatrixError,
>)
    requires
        is_rect(mview(*matrix_1)),
        is_rect(mview(*matrix_2)),
    ensures
        match r {
            Ok(c) => matrix_2@.len() == matrix_1@.len() && scols(mview(*matrix_2)) == scols(
                mview(*matrix_1),
            ) && mview(c) == mat_ew_sub(mview(*matrix_1), mview(*matrix_2)) && is_rect(mview(c))
                && mview(c).len() == matrix_1@.len() && scols(mview(c)) == scols(mview(*matrix_1)),
            Err(e) => e == MatrixError::DimensionMismatch && (matrix_2@.len() != matrix_1@.len()
                || scols(mview(*matrix_2)) != scols(mview(*matrix_1))),
        },
{
    let ghost va = mview(*matrix_1);
    let ghost vb = mview(*matrix_2);
    let rows = matrix_1.len();
    if matrix_2.len() != rows {
        return Err(MatrixError::DimensionMismatch);
    }
    if rows == 0 {
        let result: Vec<Vec<T>> = Vec::new();
        proof {
            assert(mview(result) =~~= mat_ew_sub(va, vb));
        }
        return Ok(result);
    }
    let cols = matrix_1[0].len();
    if matrix_2[0].len() != cols {
        return Err(MatrixError::DimensionMismatch);
    }
    let mut result: Vec<Vec<T>> = Vec::new();
    for i in 0..rows
        invariant
            va == mview(*matrix_1),
            vb == mview(*matrix_2),
            is_rect(va),
            is_rect(vb),
            rows == va.len(),
            rows == vb.len(),
            rows > 0,
            cols == scols(va),
            cols == scols(vb),
            result@.len() == i,
            forall|p: int| 0 <= p < i ==> #[trigger] result@[p]@ == mat_ew_sub(va, vb)[p],
    {
        let mut row: Vec<T> = Vec::new();
        for j in 0..cols
            invariant
                va == mview(*matrix_1),
                vb == mview(*matrix_2),
                is_rect(va),
                is_rect(vb),
                0 <= i < va.len(),
                rows == va.len(),
                rows == vb.len(),
                cols == scols(va),
                cols == scols(vb),
                row@.len() == j,
                forall|q: int| 0 <= q < j ==> #[trigger] row@[q] == mat_ew_sub(va, vb)[i as int][q],
        {
            assert(va[i as int] == matrix_1@[i as int]@);
            assert(vb[i as int] == matrix_2@[i as int]@);
            let entry = matrix_1[i][j].sub(matrix_2[i][j]);
            row.push(entry);
        }
        proof {
            assert(row@ =~= mat_ew_sub(va, vb)[i as int]);
        }
        result.push(row);
    }
    proof {
        assert(mview(result) =~~= mat_ew_sub(va, vb));
    }
    Ok(result)
}

/// Multiplies every entry by the coefficient.
pub fn multiply<T: Scalar>(matrix: &Vec<Vec<T>>, coeff: T) -> (r: Vec<Vec<T>>)
    requires
        is_rect(mview(*matrix)),
    ensures
        mview(r) == mat_scale(mview(*matrix), coeff),
        is_rect(mview(r)),
        mview(r).len() == matrix@.len(),
        scols(mview(r)) == scols(mview(*matrix)),
{
    let ghost vm = mview(*matrix);
    let rows = matrix.len();
    let mut result: Vec<Vec<T>> = Vec::new();
    if rows == 0 {
        proof {
            assert(mview(result) =~~= mat_scale(vm, coeff));
        }
        return result;
    }
    let cols = matrix[0].len();
    for i in 0..rows
        invariant
            vm == mview(*matrix),
            is_rect(vm),
            rows == vm.len(),
            rows > 0,
            cols == scols(vm),
            result@.len() == i,
            forall|p: int| 0 <= p < i ==> #[trigger] result@[p]@ == mat_scale(vm, coeff)[p],
    {
        let mut row: Vec<T> = Vec::new();
        for j in 0..cols
            invariant
                vm == mview(*matrix),
                is_rect(vm),
                0 <= i < vm.len(),
                cols == scols(vm),
                row@.len() == j,
                forall|q: int|
                    0 <= q < j ==> #[trigger] row@[q] == mat_scale(vm, coeff)[i as int][q],
        {
            assert(vm[i as int] == matrix@[i as int]@);
            let entry = matrix[i][j].mul(coeff);
            row.push(entry);
        }
        proof {
            assert(row@ =~= mat_scale(vm, coeff)[i as int]);
        }
        result.push(row);
    }
    proof {
        assert(mview(result) =~~= mat_scale(vm, coeff));
    }
    result
}

/// Divides every entry by the coefficient.
pub fn divide<T: Scalar>(matrix: &Vec<Vec<T>>, coeff: T) -> (r: Vec<Vec<T>>)
    requires
        is_rect(mview(*matrix)),
    ensures
        mview(r) == mat_scale_div(mview(*matrix), coeff),
        is_rect(mview(r)),
        mview(r).len() == matrix@.len(),
        scols(mview(r)) == scols(mview(*matrix)),
{
    let ghost vm = mview(*matrix);
    let rows = matrix.len();
    let mut result: Vec<Vec<T>> = Vec::new();
    if rows == 0 {
        proof {
            assert(mview(result) =~~= mat_scale_div(vm, coeff));
        }
        return result;
    }
    let cols = matrix[0].len();
    for i in 0..rows
        invariant
            vm == mview(*matrix),
            is_rect(vm),
            rows == vm.len(),
            rows > 0,
            cols == scols(vm),
            result@.len() == i,
            forall|p: int| 0 <= p < i ==> #[trigger] result@[p]@ == mat_scale_div(vm, coeff)[p],
    {
        let mut row: Vec<T> = Vec::new();
        for j in 0..cols
            invariant
                vm == mview(*matrix),
                is_rect(vm),
                0 <= i < vm.len(),
                cols == scols(vm),
                row@.len() == j,
                forall|q: int|
                    0 <= q < j ==> #[trigger] row@[q] == mat_scale_div(vm, coeff)[i as int][q],
        {
            assert(vm[i as int] == matrix@[i as int]@);
            let entry = matrix[i][j].div(coeff);
            row.push(entry);
        }
        proof {
            assert(row@ =~= mat_scale_div(vm, coeff)[i as int]);
        }
        result.push(row);
    }
    proof {
        assert(mview(result) =~~= mat_scale_div(vm, coeff));
    }
    result
}

/// A matrix of the given shape filled with the scalar zero.
pub fn zeroes<T: Scalar>(rows: usize, cols: usize) -> (r: Vec<Vec<T>>)
    ensures
        mview(r).len() == rows,
        is_rect(mview(r)),
        rows > 0 ==> scols(mview(r)) == cols,
        forall|i: int, j: int|
            0 <= i < rows && 0 <= j < cols ==> #[trigger] mview(r)[i][j] == T::zero_spec(),
        forall|i: int| 0 <= i < rows ==> (#[trigger] mview(r)[i]).len() == cols,
{
    let mut result: Vec<Vec<T>> = Vec::new();
    for i in 0..rows
        invariant
            result@.len() == i,
            forall|p: int| 0 <= p < i ==> (#[trigger] result@[p]@).len() == cols,
            forall|p: int, q: int|
                0 <= p < i && 0 <= q < cols ==> #[trigger] result@[p]@[q] == T::zero_spec(),
    {
        let mut row: Vec<T> = Vec::new();
        for j in 0..cols
            invariant
                row@.len() == j,
                forall|q: int| 0 <= q < j ==> #[trigger] row@[q] == T::zero_spec(),
        {
            let entry = T::zero();
            row.push(entry);
        }
        result.push(row);
    }
    result
}

/// The row-sum matrix: row `i` of the result is the singleton holding
/// the left-to-right sum of row `i` of the argument.
pub open spec fn mat_row_sum<T: Scalar>(m: Seq<Seq<T>>) -> Seq<Seq<T>> {
    Seq::new(m.len(), |i: int| seq![sum_prefix(m[i], m[i].len() as int)])
}

/// The sums of each row, as a one-column matrix.
pub fn row_sum<T: Scalar>(matrix: &Vec<Vec<T>>) -> (r: Vec<Vec<T>>)
    ensures
        mview(r) == mat_row_sum(mview(*matrix)),
        mview(r).len() == matrix@.len(),
        is_rect(mview(r)),
        matrix@.len() > 0 ==> scols(mview(r)) == 1,
{
    let ghost vm = mview(*matrix);
    let rows = matrix.len();
    let mut result: Vec<Vec<T>> = Vec::new();
    for i in 0..rows
        invariant
            vm == mview(*matrix),
            rows == vm.len(),
            result@.len() == i,
            forall|p: int|
                0 <= p < i ==> #[trigger] result@[p]@ == seq![
                    sum_prefix(vm[p], vm[p].len() as int),
                ],
    {
        assert(vm[i as int] == matrix@[i as int]@);
        let len = matrix[i].len();
        let mut total = T::zero();
        for k in 0..len
            invariant
                vm == mview(*matrix),
                0 <= i < vm.len(),
                len == vm[i as int].len(),
                total == sum_prefix(vm[i as int], k as int),
        {
            assert(vm[i as int] == matrix@[i as int]@);
            let next = total.add(matrix[i][k]);
            total = next;
        }
        let mut row: Vec<T> = Vec::new();
        row.push(total);
        proof {
            assert(row@ =~= seq![sum_prefix(vm[i as int], vm[i as int].len() as int)]);
        }
        result.push(row);
    }
    proof {
        assert(mview(result) =~~= mat_row_sum(vm));
    }
    result
}

/// The sums of each column, as a flat vector; requires at least one
/// row, since the column count is read from the first.
pub fn col_sum<T: Scalar>(matrix: &Vec<Vec<T>>) -> (r: Result<Vec<T>, MatrixError>)
    requires
        is_rect(mview(*matrix)),
    ensures
        match r {
            Ok(v) => matrix@.len() > 0 && v@.len() == scols(mview(*matrix)) && forall|j: int|
                0 <= j < v@.len() ==> #[trigger] v@[j] == sum_prefix(
                    col_of(mview(*matrix), j),
                    matrix@.len() as int,
                ),
            Err(e) => e == MatrixError::EmptyInput && matrix@.len() == 0,
        },
{
    let ghost vm = mview(*matrix);
    let rows = matrix.len();
    if rows == 0 {
        return Err(MatrixError::EmptyInput);
    }
    let cols = matrix[0].len();
    let mut result: Vec<T> = Vec::new();
    for j in 0..cols
        invariant
            result@.len() == j,
            forall|q: int| 0 <= q < j ==> #[trigger] result@[q] == T::zero_spec(),
    {
        let entry = T::zero();
        result.push(entry);
    }
    for i in 0..rows
        invariant
            vm == mview(*matrix),
            is_rect(vm),
            rows == vm.len(),
            rows > 0,
            cols == scols(vm),
            result@.len() == cols,
            forall|q: int|
                0 <= q < cols ==> #[trigger] result@[q] == sum_prefix(col_of(vm, q), i as int),
    {
        for j in 0..cols
            invariant
                vm == mview(*matrix),
                is_rect(vm),
                rows == vm.len(),
                0 <= i < vm.len(),
                cols == scols(vm),
                result@.len() == cols,
                forall|q: int|
                    j <= q < cols ==> #[trigger] result@[q] == sum_prefix(col_of(vm, q), i as int),
                forall|q: int|
                    0 <= q < j ==> #[trigger] result@[q] == sum_prefix(col_of(vm, q), i + 1),
        {
            assert(vm[i as int] == matrix@[i as int]@);
            assert(col_of(vm, j as int)[i as int] == vm[i as int][j as int]);
            let entry = result[j].add(matrix[i][j]);
            result.set(j, entry);
        }
    }
    proof {
        assert(forall|q: int|
            0 <= q < cols ==> col_of(vm, q).len() == rows && #[trigger] result@[q] == sum_prefix(
                col_of(vm, q),
                rows as int,
            ));
    }
    Ok(result)
}

/// Folds the strict order over the first `n` entries of a row,
/// starting from `acc` and keeping the later entry only when it is
/// strictly greater, exactly as the executable scan does.
pub open spec fn fold_max_row<T: Scalar>(s: Seq<T>, acc: T, n: int) -> T
    decreases n,
{
    if n <= 0 {
        acc
    } else {
        let prev = fold_max_row(s, acc, n - 1);
        if prev.lt_spec(s[n - 1]) {
            s[n - 1]
        } else {
            prev
        }
    }
}

/// Folds `fold_max_row` over the first `i` rows.
pub open spec fn fold_max_rows<T: Scalar>(m: Seq<Seq<T>>, acc: T, i: int) -> T
    decreases i,
{
    if i <= 0 {
        acc
    } else {
        fold_max_row(m[i - 1], fold_max_rows(m, acc, i - 1), m[i - 1].len() as int)
    }
}

/// The greatest entry of a non-empty matrix under the scalar order,
/// scanned row-major starting from the top-left entry.
pub open spec fn mat_max_spec<T: Scalar>(m: Seq<Seq<T>>) -> T {
    fold_max_rows(m, m[0][0], m.len() as int)
}

/// As `fold_max_row`, keeping the later entry only when it is strictly
/// smaller.
pub open spec fn fold_min_row<T: Scalar>(s: Seq<T>, acc: T, n: int) -> T
    decreases n,
{
    if n <= 0 {
        acc
    } else {
        let prev = fold_min_row(s, acc, n - 1);
        if s[n - 1].lt_spec(prev) {
            s[n - 1]
        } else {
            prev
        }
    }
}

/// Folds `fold_min_row` over the first `i` rows.
pub open spec fn fold_min_rows<T: Scalar>(m: Seq<Seq<T>>, acc: T, i: int) -> T
    decreases i,
{
    if i <= 0 {
        acc
    } else {
        fold_min_row(m[i - 1], fold_min_rows(m, acc, i - 1), m[i - 1].len() as int)
    }
}

/// The least entry of a non-empty matrix under the scalar order.
pub open spec fn mat_min_spec<T: Scalar>(m: Seq<Seq<T>>) -> T {
    fold_min_rows(m, m[0][0], m.len() as int)
}

/// The left-to-right sum of the first `n` entries of a row on top of a
/// running total.
pub open spec fn fold_sum_row<T: Scalar>(s: Seq<T>, acc: T, n: int) -> T
    decreases n,
{
    if n <= 0 {
        acc
    } else {
        fold_sum_row(s, acc, n - 1).add_spec(s[n - 1])
    }
}

/// The row-major running total over the first `i` rows.
pub open spec fn fold_sum_rows<T: Scalar>(m: Seq<Seq<T>>, acc: T, i: int) -> T
    decreases i,
{
    if i <= 0 {
        acc
    } else {
        fold_sum_row(m[i - 1], fold_sum_rows(m, acc, i - 1), m[i - 1].len() as int)
    }
}

/// The mean of all entries: the row-major total divided by the scalar
/// standing for the entry count.
pub open spec fn mat_avg_spec<T: Scalar>(m: Seq<Seq<T>>) -> T {
    fold_sum_rows(m, T::zero_spec(), m.len() as int).div_spec(
        T::from_count_spec((m.len() * scols(m)) as usize),
    )
}

/// The greatest entry of the matrix; an empty matrix has none.
pub fn matrix_max<T: Scalar>(m: &Vec<Vec<T>>) -> (r: Result<T, MatrixError>)
    requires
        is_rect(mview(*m)),
    ensures
        match r {
            Ok(v) => m@.len() > 0 && scols(mview(*m)) > 0 && v == mat_max_spec(mview(*m)),
            Err(e) => e == MatrixError::EmptyInput && (m@.len() == 0 || scols(mview(*m)) == 0),
        },
{
    let ghost vm = mview(*m);
    let rows = m.len();
    if rows == 0 {
        return Err(MatrixError::EmptyInput);
    }
    let cols = m[0].len();
    if cols == 0 {
        return Err(MatrixError::EmptyInput);
    }
    assert(vm[0] == m@[0]@);
    let mut max_value = m[0][0];
    for i in 0..rows
        invariant
            vm == mview(*m),
            is_rect(vm),
            rows == vm.len(),
            rows > 0,
            cols == scols(vm),
            cols > 0,
            max_value == fold_max_rows(vm, vm[0][0], i as int),
    {
        for j in 0..cols
            invariant
                vm == mview(*m),
                is_rect(vm),
                rows == vm.len(),
                0 <= i < vm.len(),
                cols == scols(vm),
                max_value == fold_max_row(vm[i as int], fold_max_rows(vm, vm[0][0], i as int), j as int),
        {
            assert(vm[i as int] == m@[i as int]@);
            let cell = m[i][j];
            if max_value.lt(cell) {
                max_value = cell;
            }
        }
        proof {
            assert(vm[i as int].len() == cols);
            assert(fold_max_rows(vm, vm[0][0], i + 1) == fold_max_row(
                vm[i as int],
                fold_max_rows(vm, vm[0][0], i as int),
                vm[i as int].len() as int,
            ));
        }
    }
    Ok(max_value)
}

/// The least entry of the matrix; an empty matrix has none.
pub fn matrix_min<T: Scalar>(m: &Vec<Vec<T>>) -> (r: Result<T, MatrixError>)
    requires
        is_rect(mview(*m)),
    ensures
        match r {
            Ok(v) => m@.len() > 0 && scols(mview(*m)) > 0 && v == mat_min_spec(mview(*m)),
            Err(e) => e == MatrixError::EmptyInput && (m@.len() == 0 || scols(mview(*m)) == 0),
        },
{
    let ghost vm = mview(*m);
    let rows = m.len();
    if rows == 0 {
        return Err(MatrixError::EmptyInput);
    }
    let cols = m[0].len();
    if cols == 0 {
        return Err(MatrixError::EmptyInput);
    }
    assert(vm[0] == m@[0]@);
    let mut min_value = m[0][0];
    for i in 0..rows
        invariant
            vm == mview(*m),
            is_rect(vm),
            rows == vm.len(),
            rows > 0,
            cols == scols(vm),
            cols > 0,
            min_value == fold_min_rows(vm, vm[0][0], i as int),
    {
        for j in 0..cols
            invariant
                vm == mview(*m),
                is_rect(vm),
                rows == vm.len(),
                0 <= i < vm.len(),
                cols == scols(vm),
                min_value == fold_min_row(vm[i as int], fold_min_rows(vm, vm[0][0], i as int), j as int),
        {
            assert(vm[i as int] == m@[i as int]@);
            let cell = m[i][j];
            if cell.lt(min_value) {
                min_value = cell;
            }
        }
        proof {
            assert(vm[i as int].len() == cols);
            assert(fold_min_rows(vm, vm[0][0], i + 1) == fold_min_row(
                vm[i as int],
                fold_min_rows(vm, vm[0][0], i as int),
                vm[i as int].len() as int,
            ));
        }
    }
    Ok(min_value)
}

/// The mean of all entries; an empty matrix has none.
pub fn matrix_avg<T: Scalar>(m: &Vec<Vec<T>>) -> (r: Result<T, MatrixError>)
    requires
        is_rect(mview(*m)),
        m@.len() * scols(mview(*m)) <= usize::MAX,
    ensures
        match r {
            Ok(v) => m@.len() > 0 && scols(mview(*m)) > 0 && v == mat_avg_spec(mview(*m)),
            Err(e) => e == MatrixError::EmptyInput && (m@.len() == 0 || scols(mview(*m)) == 0),
        },
{
    let ghost vm = mview(*m);
    let rows = m.len();
    if rows == 0 {
        return Err(MatrixError::EmptyInput);
    }
    let cols = m[0].len();
    if cols == 0 {
        return Err(MatrixError::EmptyInput);
    }
    let mut total = T::zero();
    for i in 0..rows
        invariant
            vm == mview(*m),
            is_rect(vm),
            rows == vm.len(),
            rows > 0,
            cols == scols(vm),
            cols > 0,
            rows * cols <= usize::MAX,
            total == fold_sum_rows(vm, T::zero_spec(), i as int),
    {
        for j in 0..cols
            invariant
                vm == mview(*m),
                is_rect(vm),
                rows == vm.len(),
                0 <= i < vm.len(),
                cols == scols(vm),
                total == fold_sum_row(vm[i as int], fold_sum_rows(vm, T::zero_spec(), i as int), j as int),
        {
            assert(vm[i as int] == m@[i as int]@);
            let next = total.add(m[i][j]);
            total = next;
        }
        proof {
            assert(vm[i as int].len() == cols);
            assert(fold_sum_rows(vm, T::zero_spec(), i + 1) == fold_sum_row(
                vm[i as int],
                fold_sum_rows(vm, T::zero_spec(), i as int),
                vm[i as int].len() as int,
            ));
        }
    }
    let count = rows * cols;
    let divisor = T::from_count(count);
    Ok(total.div(divisor))
}

/// Column `n` of the matrix, as a flat vector of its entries from top
/// to bottom.  An index at or past the row length is rejected.
pub fn get_nth_column<T: Scalar>(matrix: &Vec<Vec<T>>, n: usize) -> (r: Result<Vec<T>, MatrixError>)
    requires
        is_rect(mview(*matrix)),
    ensures
        match r {
            Ok(v) => (matrix@.len() == 0 || n < scols(mview(*matrix))) && v@ == col_of(
                mview(*matrix),
                n as int,
            ),
            Err(e) => e == MatrixError::DimensionMismatch && matrix@.len() > 0 && n >= scols(
                mview(*matrix),
            ),
        },
{
    let ghost vm = mview(*matrix);
    let rows = matrix.len();
    if rows > 0 && n >= matrix[0].len() {
        return Err(MatrixError::DimensionMismatch);
    }
    let mut result: Vec<T> = Vec::new();
    for i in 0..rows
        invariant
            vm == mview(*matrix),
            is_rect(vm),
            rows == vm.len(),
            rows > 0 ==> n < scols(vm),
            result@.len() == i,
            forall|p: int| 0 <= p < i ==> #[trigger] result@[p] == vm[p][n as int],
    {
        assert(vm[i as int] == matrix@[i as int]@);
        let cell = matrix[i][n];
        result.push(cell);
    }
    proof {
        assert(result@ =~= col_of(vm, n as int));
    }
    Ok(result)
}

/// Splits the rows at index `n`: the first `n` rows, then the rest.
/// An `n` past the row count is rejected.
pub fn split_matrix<T: Scalar>(matrix: &Vec<Vec<T>>, n: usize) -> (r: Result<
    (Vec<Vec<T>>, Vec<Vec<T>>),
    MatrixError,
>)
    ensures
        match r {
            Ok(pair) => n <= matrix@.len() && mview(pair.0) == mview(*matrix).take(n as int)
                && mview(pair.1) == mview(*matrix).skip(n as int),
            Err(e) => e == MatrixError::DimensionMismatch && n > matrix@.len(),
        },
{
    let ghost vm = mview(*matrix);
    let rows = matrix.len();
    if n > rows {
        return Err(MatrixError::DimensionMismatch);
    }
    let mut first: Vec<Vec<T>> = Vec::new();
    for i in 0..n
        invariant
            vm == mview(*matrix),
            n <= vm.len(),
            first@.len() == i,
            forall|p: int| 0 <= p < i ==> #[trigger] first@[p]@ == vm[p],
    {
        assert(vm[i as int] == matrix@[i as int]@);
        let row = copy_row(&matrix[i]);
        first.push(row);
    }
    let mut rest: Vec<Vec<T>> = Vec::new();
    for i in n..rows
        invariant
            vm == mview(*matrix),
            n <= vm.len(),
            rows == vm.len(),
            rest@.len() == i - n,
            forall|q: int| 0 <= q < i - n ==> #[trigger] rest@[q]@ == vm[q + n],
    {
        assert(vm[i as int] == matrix@[i as int]@);
        let row = copy_row(&matrix[i]);
        rest.push(row);
    }
    proof {
        assert(mview(first) =~~= vm.take(n as int));
        assert(mview(rest) =~~= vm.skip(n as int));
    }
    Ok((first, rest))
}

/// The row-major flattening of a matrix into a single column: entry
/// `k` of the result is the singleton row holding the matrix entry at
/// row `k / cols`, column `k % cols`.
pub open spec fn mat_flatten_col<T>(m: Seq<Seq<T>>) -> Seq<Seq<T>> {
    Seq::new(
        m.len() * scols(m),
        |k: int| seq![m[k / scols(m) as int][k % scols(m) as int]],
    )
}

/// An entrywise copy of a matrix.
pub fn copy_matrix<T: Scalar>(matrix: &Vec<Vec<T>>) -> (r: Vec<Vec<T>>)
    ensures
        mview(r) == mview(*matrix),
{
    let mut result: Vec<Vec<T>> = Vec::new();
    for i in 0..matrix.len()
        invariant
            result@.len() == i,
            forall|p: int| 0 <= p < i ==> #[trigger] result@[p]@ == mview(*matrix)[p],
    {
        assert(mview(*matrix)[i as int] == matrix@[i as int]@);
        let row = copy_row(&matrix[i]);
        result.push(row);
    }
    proof {
        assert(mview(result) =~~= mview(*matrix));
    }
    result
}

/// An entrywise copy of one row.
fn copy_row<T: Scalar>(row: &Vec<T>) -> (r: Vec<T>)
    ensures
        r@ == row@,
{
    let mut result: Vec<T> = Vec::new();
    for i in 0..row.len()
        invariant
            result@.len() == i,
            forall|p: int| 0 <= p < i ==> #[trigger] result@[p] == row@[p],
    {
        let cell = row[i];
        result.push(cell);
    }
    proof {
        assert(result@ =~= row@);
    }
    result
}

proof fn lemma_fold_max_row_i64(s: Seq<i64>, acc: i64, n: int)
    requires
        0 <= n <= s.len(),
    ensures
        acc <= fold_max_row(s, acc, n),
        forall|k: int| 0 <= k < n ==> #[trigger] s[k] <= fold_max_row(s, acc, n),
        fold_max_row(s, acc, n) == acc || exists|k: int|
            0 <= k < n && s[k] == fold_max_row(s, acc, n),
    decreases n,
{
    if n > 0 {
        lemma_fold_max_row_i64(s, acc, n - 1);
    }
}

proof fn lemma_fold_max_rows_i64(m: Seq<Seq<i64>>, acc: i64, i: int)
    requires
        0 <= i <= m.len(),
    ensures
        acc <= fold_max_rows(m, acc, i),
        forall|p: int, q: int|
            0 <= p < i && 0 <= q < m[p].len() ==> #[trigger] m[p][q] <= fold_max_rows(m, acc, i),
        fold_max_rows(m, acc, i) == acc || exists|p: int, q: int|
            0 <= p < i && 0 <= q < m[p].len() && m[p][q] == fold_max_rows(m, acc, i),
    decreases i,
{
    if i > 0 {
        lemma_fold_max_rows_i64(m, acc, i - 1);
        lemma_fold_max_row_i64(m[i - 1], fold_max_rows(m, acc, i - 1), m[i - 1].len() as int);
    }
}

/// At the integer scalar, where the abstract order is the integer
/// order, the row-major maximum fold reads as a true maximum: its
/// value is an entry of the matrix, and no entry exceeds it.
pub proof fn lemma_i64_max_is_bound(m: Seq<Seq<i64>>)
    requires
        m.len() > 0,
        m[0].len() > 0,
    ensures
        exists|i: int, j: int|
            0 <= i < m.len() && 0 <= j < m[i].len() && m[i][j] == mat_max_spec(m),
        forall|i: int, j: int|
            0 <= i < m.len() && 0 <= j < m[i].len() ==> #[trigger] m[i][j] <= mat_max_spec(m),
{
    lemma_fold_max_rows_i64(m, m[0][0], m.len() as int);
    if mat_max_spec(m) == m[0][0] {
        assert(0 <= 0 < m.len() && 0 <= 0 < m[0].len() && m[0][0] == mat_max_spec(m));
    }
}

/// Transposing twice gives back the original matrix, for every
/// rectangular matrix that does not pair a positive row count with
/// zero-length rows (such a shape collapses to no rows after one
/// transpose, since the column count is read from the data).
pub proof fn lemma_transpose_involutive<T>(m: Seq<Seq<T>>)
    requires
        is_rect(m),
        m.len() > 0 ==> scols(m) > 0,
    ensures
        mat_transpose(mat_transpose(m)) == m,
{
    let t = mat_transpose(m);
    let tt = mat_transpose(t);
    if m.len() == 0 {
        assert(tt =~~= m);
    } else {
        assert(t.len() == scols(m));
        assert(scols(t) == m.len());
        assert forall|i: int| 0 <= i < m.len() implies #[trigger] tt[i] =~= m[i] by {
            assert(tt[i] == col_of(t, i));
            assert(m[i].len() == scols(m));
        }
        assert(tt =~~= m);
    }
}

} // verus!
