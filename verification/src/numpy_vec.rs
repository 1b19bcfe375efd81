use vstd::prelude::*;

use crate::matrix::{is_rect, mview, scols};
use crate::scalar::Scalar;
use crate::MatrixError;

verus! {

/// A thin wrapper over a vector that offers elementwise arithmetic in
/// the style of array programming: combining two wrapped matrices
/// entry by entry, with a one-column right operand broadcast across
/// every column of the left one.
pub struct NumpyVec<T>(pub Vec<T>);

/// Which entrywise combination is applied.
#[derive(Clone, Copy, Debug, PartialEq, Eq, Structural)]
enum EwOp {
    Add,
    Sub,
    Mul,
}

/// The entry standing at `(i, j)` of the right operand once a
/// one-column operand is broadcast: its row's single entry, otherwise
/// the entry at `(i, j)` itself.
pub open spec fn np_rhs_at<T>(b: Seq<Seq<T>>, i: int, j: int) -> T {
    if scols(b) == 1 {
        b[i][0]
    } else {
        b[i][j]
    }
}

spec fn np_apply<T: Scalar>(op: EwOp, a: T, b: T) -> T {
    match op {
        EwOp::Add => a.add_spec(b),
        EwOp::Sub => a.sub_spec(b),
        EwOp::Mul => a.mul_spec(b),
    }
}

spec fn np_combine<T: Scalar>(op: EwOp, a: Seq<Seq<T>>, b: Seq<Seq<T>>) -> Seq<Seq<T>> {
    Seq::new(
        a.len(),
        |i: int| Seq::new(scols(a), |j: int| np_apply(op, a[i][j], np_rhs_at(b, i, j))),
    )
}

/// The sum of two wrapped matrices, entry by entry; a one-column right
/// operand is broadcast.
pub open spec fn np_add<T: Scalar>(a: Seq<Seq<T>>, b: Seq<Seq<T>>) -> Seq<Seq<T>> {
    Seq::new(a.len(), |i: int| Seq::new(scols(a), |j: int| a[i][j].add_spec(np_rhs_at(b, i, j))))
}

/// The difference of two wrapped matrices, entry by entry; a
/// one-column right operand is broadcast.
pub open spec fn np_sub<T: Scalar>(a: Seq<Seq<T>>, b: Seq<Seq<T>>) -> Seq<Seq<T>> {
    Seq::new(a.len(), |i: int| Seq::new(scols(a), |j: int| a[i][j].sub_spec(np_rhs_at(b, i, j))))
}

/// The product of two wrapped matrices, entry by entry; a one-column
/// right operand is broadcast.
pub open spec fn np_mul<T: Scalar>(a: Seq<Seq<T>>, b: Seq<Seq<T>>) -> Seq<Seq<T>> {
    Seq::new(a.len(), |i: int| Seq::new(scols(a), |j: int| a[i][j].mul_spec(np_rhs_at(b, i, j))))
}

/// Whether the right operand fits the left one: same row count, and
/// either the same column count or a single broadcast column.
pub open spec fn np_compatible<T>(a: Seq<Seq<T>>, b: Seq<Seq<T>>) -> bool {
    &&& a.len() == b.len()
    &&& a.len() > 0
    &&& (scols(b) == scols(a) || scols(b) == 1)
}

fn np_combine_exec<T: Scalar>(op: EwOp, a: &Vec<Vec<T>>, b: &Vec<Vec<T>>) -> (r: Result<
    Vec<Vec<T>>,
    MatrixError,
>)
    requires
        is_rect(mview(*a)),
        is_rect(mview(*b)),
    ensures
        match r {
            Ok(c) => np_compatible(mview(*a), mview(*b)) && mview(c) == np_combine(
                op,
                mview(*a),
                mview(*b),
            ),
            Err(e) => (e == MatrixError::EmptyInput <==> a@.len() == 0 && b@.len() == 0) && (e
                == MatrixError::DimensionMismatch <==> (a@.len() != b@.len() || (a@.len() > 0
                && scols(mview(*b)) != scols(mview(*a)) && scols(mview(*b)) != 1))) && (e
                == MatrixError::EmptyInput || e == MatrixError::DimensionMismatch),
        },
{
    let ghost va = mview(*a);
    let ghost vb = mview(*b);
    let rows = a.len();
    if b.len() != rows {
        return Err(MatrixError::DimensionMismatch);
    }
    if rows == 0 {
        return Err(MatrixError::EmptyInput);
    }
    let cols = a[0].len();
    let b_cols = b[0].len();
    if b_cols != cols && b_cols != 1 {
        return Err(MatrixError::DimensionMismatch);
    }
    let mut result: Vec<Vec<T>> = Vec::new();
    for i in 0..rows
        invariant
            va == mview(*a),
            vb == mview(*b),
            is_rect(va),
            is_rect(vb),
            rows == va.len(),
            rows == vb.len(),
            rows > 0,
            cols == scols(va),
            b_cols == scols(vb),
            b_cols == cols || b_cols == 1,
            result@.len() == i,
            forall|p: int| 0 <= p < i ==> #[trigger] result@[p]@ == np_combine(op, va, vb)[p],
    {
        let mut row: Vec<T> = Vec::new();
        for j in 0..cols
            invariant
                va == mview(*a),
                vb == mview(*b),
                is_rect(va),
                is_rect(vb),
                rows == va.len(),
                rows == vb.len(),
                0 <= i < rows,
                cols == scols(va),
                b_cols == scols(vb),
                b_cols == cols || b_cols == 1,
                row@.len() == j,
                forall|q: int| 0 <= q < j ==> #[trigger] row@[q] == np_combine(op, va, vb)[i as int][q],
        {
            assert(va[i as int] == a@[i as int]@);
            assert(vb[i as int] == b@[i as int]@);
            let left = a[i][j];
            let right = if b_cols == 1 {
                b[i][0]
            } else {
                b[i][j]
            };
            let entry = match op {
                EwOp::Add => left.add(right),
                EwOp::Sub => left.sub(right),
                EwOp::Mul => left.mul(right),
            };
            row.push(entry);
        }
        proof {
            assert(row@ =~= np_combine(op, va, vb)[i as int]);
        }
        result.push(row);
    }
    proof {
        assert(mview(result) =~~= np_combine(op, va, vb));
    }
    Ok(result)
}

impl<T: Scalar> NumpyVec<Vec<T>> {
    /// Entrywise sum, broadcasting a one-column right operand.
    pub fn add(self, rhs: NumpyVec<Vec<T>>) -> (r: Result<Vec<Vec<T>>, MatrixError>)
        requires
            is_rect(mview(self.0)),
            is_rect(mview(rhs.0)),
        ensures
            match r {
                Ok(c) => np_compatible(mview(self.0), mview(rhs.0)) && mview(c) == np_add(
                    mview(self.0),
                    mview(rhs.0),
                ),
                Err(e) => !np_compatible(mview(self.0), mview(rhs.0)) && (e
                    == MatrixError::EmptyInput || e == MatrixError::DimensionMismatch),
            },
    {
        let out = np_combine_exec(EwOp::Add, &self.0, &rhs.0)?;
        proof {
            assert(np_combine(EwOp::Add, mview(self.0), mview(rhs.0)) =~~= np_add(
                mview(self.0),
                mview(rhs.0),
            ));
        }
        Ok(out)
    }

    /// Entrywise difference, broadcasting a one-column right operand.
    pub fn sub(self, rhs: NumpyVec<Vec<T>>) -> (r: Result<Vec<Vec<T>>, MatrixError>)
        requires
            is_rect(mview(self.0)),
            is_rect(mview(rhs.0)),
        ensures
            match r {
                Ok(c) => np_compatible(mview(self.0), mview(rhs.0)) && mview(c) == np_sub(
                    mview(self.0),
                    mview(rhs.0),
                ),
                Err(e) => !np_compatible(mview(self.0), mview(rhs.0)) && (e
                    == MatrixError::EmptyInput || e == MatrixError::DimensionMismatch),
            },
    {
        let out = np_combine_exec(EwOp::Sub, &self.0, &rhs.0)?;
        proof {
            assert(np_combine(EwOp::Sub, mview(self.0), mview(rhs.0)) =~~= np_sub(
                mview(self.0),
                mview(rhs.0),
            ));
        }
        Ok(out)
    }

    /// Entrywise product, broadcasting a one-column right operand.
    pub fn mul(self, rhs: NumpyVec<Vec<T>>) -> (r: Result<Vec<Vec<T>>, MatrixError>)
        requires
            is_rect(mview(self.0)),
            is_rect(mview(rhs.0)),
        ensures
            match r {
                Ok(c) => np_compatible(mview(self.0), mview(rhs.0)) && mview(c) == np_mul(
                    mview(self.0),
                    mview(rhs.0),
                ),
                Err(e) => !np_compatible(mview(self.0), mview(rhs.0)) && (e
                    == MatrixError::EmptyInput || e == MatrixError::DimensionMismatch),
            },
    {
        let out = np_combine_exec(EwOp::Mul, &self.0, &rhs.0)?;
        proof {
            assert(np_combine(EwOp::Mul, mview(self.0), mview(rhs.0)) =~~= np_mul(
                mview(self.0),
                mview(rhs.0),
            ));
        }
        Ok(out)
    }
}

} // verus!
