//! The multiplication engine: the standard dense `O(dim^3)` product under
//! wrap-around 32-bit arithmetic, offered as a one-pass strategy and as a
//! row-partitioned strategy whose per-row tasks are independent.

use crate::matrix::{Matrix, MatrixError};
use vstd::prelude::*;

verus! {

/// The wrap-around sum of the first `k` terms of the dot product that feeds
/// cell `(i, j)` of a product: `a[i][0]*b[0][j] + ... + a[i][k-1]*b[k-1][j]`,
/// accumulated in ascending term order.
pub open spec fn entry_prefix(a: Matrix, b: Matrix, i: int, j: int, k: int) -> i32
    decreases k,
{
    if k <= 0 {
        0i32
    } else {
        entry_prefix(a, b, i, j, k - 1).wrapping_add(
            a.spec_at(i, k - 1).wrapping_mul(b.spec_at(k - 1, j)),
        )
    }
}

/// Cell `(i, j)` of the product of `a` and `b`: the full dot product of row
/// `i` of `a` with column `j` of `b`.
pub open spec fn product_entry(a: Matrix, b: Matrix, i: int, j: int) -> i32 {
    entry_prefix(a, b, i, j, a.spec_dim())
}

/// What it means for `r` to be the product of `a` and `b`: same dimension,
/// well formed, and every cell equal to the defining dot product.
pub open spec fn is_product(a: Matrix, b: Matrix, r: Matrix) -> bool {
    &&& r.wf()
    &&& r.spec_dim() == a.spec_dim()
    &&& forall|i: int, j: int|
        0 <= i < a.spec_dim() && 0 <= j < a.spec_dim()
            ==> #[trigger] r.spec_at(i, j) == product_entry(a, b, i, j)
}

/// Offsets inside row `i` of a row-major buffer lie between the row's start
/// and the next row's start.
proof fn lemma_row_block(dim: int, i: int, j: int)
    by (nonlinear_arith)
    requires
        0 <= i,
        0 <= j < dim,
    ensures
        i * dim <= i * dim + j < (i + 1) * dim,
        (i + 1) * dim == i * dim + dim,
{
}

/// Offsets inside an earlier row lie before row `i` starts.
proof fn lemma_earlier_row(dim: int, ii: int, i: int, jj: int)
    by (nonlinear_arith)
    requires
        0 <= ii < i,
        0 <= jj < dim,
    ensures
        ii * dim + jj < i * dim,
{
}

/// A flat row-major offset splits into its row and column indices.
proof fn lemma_flat_decompose(n: int, dim: int)
    by (nonlinear_arith)
    requires
        1 <= dim,
        0 <= n < dim * dim,
    ensures
        (n / dim) * dim + (n % dim) == n,
        0 <= n / dim < dim,
        0 <= n % dim < dim,
{
}

/// Strategy equivalence: the product of two given operands is unique, so any
/// two strategies whose results both satisfy `is_product` — in particular the
/// one-pass strategy, the row-partitioned strategy, and any parallel
/// scheduling of the independent row tasks — return bit-identical matrices.
pub proof fn lemma_product_unique(a: Matrix, b: Matrix, r1: Matrix, r2: Matrix)
    requires
        a.wf(),
        b.wf(),
        a.spec_dim() == b.spec_dim(),
        is_product(a, b, r1),
        is_product(a, b, r2),
    ensures
        r1.spec_dim() == r2.spec_dim(),
        r1.spec_data() == r2.spec_data(),
{
    let dim = a.spec_dim();
    assert forall|n: int| 0 <= n < r1.spec_data().len()
        implies r1.spec_data()[n] == r2.spec_data()[n] by {
        lemma_flat_decompose(n, dim);
        let i = n / dim;
        let j = n % dim;
        assert(r1.spec_at(i, j) == product_entry(a, b, i, j));
        assert(r2.spec_at(i, j) == product_entry(a, b, i, j));
    };
    assert(r1.spec_data() =~= r2.spec_data());
}

/// A matrix with ones on the diagonal and zeros everywhere else.
pub open spec fn is_identity(m: Matrix) -> bool {
    &&& m.wf()
    &&& forall|i: int, j: int|
        0 <= i < m.spec_dim() && 0 <= j < m.spec_dim()
            ==> #[trigger] m.spec_at(i, j) == (if i == j {
                1i32
            } else {
                0i32
            })
}

/// A prefix of the dot product against an identity row sums to zero until
/// the diagonal term is taken in, and to the plain cell afterwards.
proof fn lemma_identity_prefix(id: Matrix, m: Matrix, i: int, j: int, k: int)
    requires
        is_identity(id),
        m.wf(),
        id.spec_dim() == m.spec_dim(),
        0 <= i < m.spec_dim(),
        0 <= j < m.spec_dim(),
        0 <= k <= m.spec_dim(),
    ensures
        entry_prefix(id, m, i, j, k) == if k <= i {
            0i32
        } else {
            m.spec_at(i, j)
        },
    decreases k,
{
    if k > 0 {
        lemma_identity_prefix(id, m, i, j, k - 1);
    }
}

/// Multiplying by the identity on the left leaves a matrix unchanged: when
/// `id` is the identity of `m`'s dimension, any product of `id` and `m` has
/// exactly `m`'s cells.
pub proof fn lemma_identity_product(id: Matrix, m: Matrix, r: Matrix)
    requires
        is_identity(id),
        m.wf(),
        id.spec_dim() == m.spec_dim(),
        is_product(id, m, r),
    ensures
        r.spec_dim() == m.spec_dim(),
        r.spec_data() == m.spec_data(),
{
    let dim = m.spec_dim();
    assert forall|n: int| 0 <= n < r.spec_data().len()
        implies r.spec_data()[n] == m.spec_data()[n] by {
        lemma_flat_decompose(n, dim);
        let i = n / dim;
        let j = n % dim;
        lemma_identity_prefix(id, m, i, j, dim);
        assert(r.spec_at(i, j) == product_entry(id, m, i, j));
    };
    assert(r.spec_data() =~= m.spec_data());
}

/// Which execution strategy the engine runs: a configuration choice made by
/// the caller, with no effect on the result.
#[derive(Clone, Copy, Debug, PartialEq, Eq, Structural)]
pub enum Strategy {
    /// One pass over the whole output buffer.
    Sequential,
    /// One independent task per output row, joined in order.
    RowPartitioned,
}

impl Matrix {
    /// The work of one row task: output row `i` of the product `self * rhs`,
    /// computed independently of every other row.
    pub fn product_row(&self, rhs: &Matrix, i: usize) -> (row: Vec<i32>)
        requires
            self.wf(),
            rhs.wf(),
            self.spec_dim() == rhs.spec_dim(),
            i < self.spec_dim(),
        ensures
            row@.len() == self.spec_dim(),
            forall|j: int| 0 <= j < self.spec_dim()
                ==> #[trigger] row@[j] == product_entry(*self, *rhs, i as int, j),
    {
        let dim = self.dim();
        let mut row: Vec<i32> = Vec::new();
        let mut j: usize = 0;
        while j < dim
            invariant
                self.wf(),
                rhs.wf(),
                dim == self.spec_dim(),
                rhs.spec_dim() == dim,
                i < dim,
                j <= dim,
                row@.len() == j,
                forall|jj: int| 0 <= jj < j
                    ==> #[trigger] row@[jj] == product_entry(*self, *rhs, i as int, jj),
            decreases dim - j,
        {
            let mut acc: i32 = 0;
            let mut k: usize = 0;
            while k < dim
                invariant
                    self.wf(),
                    rhs.wf(),
                    dim == self.spec_dim(),
                    rhs.spec_dim() == dim,
                    i < dim,
                    j < dim,
                    k <= dim,
                    acc == entry_prefix(*self, *rhs, i as int, j as int, k as int),
                decreases dim - k,
            {
                acc = acc.wrapping_add(self.get(i, k).wrapping_mul(rhs.get(k, j)));
                k = k + 1;
            }
            row.push(acc);
            j = j + 1;
        }
        row
    }

    /// The sequential strategy: one pass fills the whole result buffer in
    /// row-major order.  Returns the product, or `DimensionMismatch` exactly
    /// when the operands' dimensions differ.
    pub fn multiply(&self, rhs: &Matrix) -> (r: Result<Matrix, MatrixError>)
        requires
            self.wf(),
            rhs.wf(),
        ensures
            match r {
                Ok(p) => self.spec_dim() == rhs.spec_dim() && is_product(*self, *rhs, p),
                Err(e) => e == MatrixError::DimensionMismatch
                    && self.spec_dim() != rhs.spec_dim(),
            },
    {
        if self.dim() != rhs.dim() {
            return Err(MatrixError::DimensionMismatch);
        }
        let dim = self.dim();
        let mut data: Vec<i32> = Vec::new();
        let mut i: usize = 0;
        while i < dim
            invariant
                self.wf(),
                rhs.wf(),
                dim == self.spec_dim(),
                rhs.spec_dim() == dim,
                i <= dim,
                data@.len() == i * dim,
                forall|ii: int, jj: int| 0 <= ii < i && 0 <= jj < dim
                    ==> #[trigger] data@[ii * dim + jj] == product_entry(*self, *rhs, ii, jj),
            decreases dim - i,
        {
            let mut j: usize = 0;
            while j < dim
                invariant
                    self.wf(),
                    rhs.wf(),
                    dim == self.spec_dim(),
                    rhs.spec_dim() == dim,
                    i < dim,
                    j <= dim,
                    data@.len() == i * dim + j,
                    forall|ii: int, jj: int| 0 <= ii < i && 0 <= jj < dim
                        ==> #[trigger] data@[ii * dim + jj]
                            == product_entry(*self, *rhs, ii, jj),
                    forall|jj: int| 0 <= jj < j
                        ==> #[trigger] data@[i * dim + jj]
                            == product_entry(*self, *rhs, i as int, jj),
                decreases dim - j,
            {
                let mut acc: i32 = 0;
                let mut k: usize = 0;
                while k < dim
                    invariant
                        self.wf(),
                        rhs.wf(),
                        dim == self.spec_dim(),
                        rhs.spec_dim() == dim,
                        i < dim,
                        j < dim,
                        k <= dim,
                        acc == entry_prefix(*self, *rhs, i as int, j as int, k as int),
                    decreases dim - k,
                {
                    acc = acc.wrapping_add(self.get(i, k).wrapping_mul(rhs.get(k, j)));
                    k = k + 1;
                }
                proof {
                    lemma_row_block(dim as int, i as int, j as int);
                }
                data.push(acc);
                proof {
                    assert forall|ii: int, jj: int| 0 <= ii < i && 0 <= jj < dim
                        implies #[trigger] data@[ii * dim + jj]
                            == product_entry(*self, *rhs, ii, jj) by {
                        lemma_earlier_row(dim as int, ii, i as int, jj);
                    };
                }
                j = j + 1;
            }
            proof {
                lemma_row_block(dim as int, i as int, 0);
            }
            i = i + 1;
        }
        let ghost flat = data@;
        let m = Matrix::from(dim, data);
        proof {
            assert forall|ii: int, jj: int| 0 <= ii < dim && 0 <= jj < dim
                implies #[trigger] m.spec_at(ii, jj) == product_entry(*self, *rhs, ii, jj) by {
                assert(m.spec_at(ii, jj) == flat[ii * (dim as int) + jj]);
            };
        }
        Ok(m)
    }

    /// The row-partitioned strategy: each output row is one independent
    /// task, and the rows are joined in order into the result buffer.  Same
    /// contract as the sequential strategy.
    pub fn multiply_rows(&self, rhs: &Matrix) -> (r: Result<Matrix, MatrixError>)
        requires
            self.wf(),
            rhs.wf(),
        ensures
            match r {
                Ok(p) => self.spec_dim() == rhs.spec_dim() && is_product(*self, *rhs, p),
                Err(e) => e == MatrixError::DimensionMismatch
                    && self.spec_dim() != rhs.spec_dim(),
            },
    {
        if self.dim() != rhs.dim() {
            return Err(MatrixError::DimensionMismatch);
        }
        let dim = self.dim();
        let mut data: Vec<i32> = Vec::new();
        let mut i: usize = 0;
        while i < dim
            invariant
                self.wf(),
                rhs.wf(),
                dim == self.spec_dim(),
                rhs.spec_dim() == dim,
                i <= dim,
                data@.len() == i * dim,
                forall|ii: int, jj: int| 0 <= ii < i && 0 <= jj < dim
                    ==> #[trigger] data@[ii * dim + jj] == product_entry(*self, *rhs, ii, jj),
            decreases dim - i,
        {
            let mut row = self.product_row(rhs, i);
            let ghost before = data@;
            let ghost row_view = row@;
            data.append(&mut row);
            proof {
                lemma_row_block(dim as int, i as int, 0);
                assert forall|ii: int, jj: int| 0 <= ii <= i && 0 <= jj < dim
                    implies #[trigger] data@[ii * dim + jj]
                        == product_entry(*self, *rhs, ii, jj) by {
                    if ii < i {
                        lemma_earlier_row(dim as int, ii, i as int, jj);
                        assert(data@[ii * dim + jj] == before[ii * dim + jj]);
                    } else {
                        lemma_row_block(dim as int, i as int, jj);
                        assert(data@[ii * dim + jj] == row_view[jj]);
                    }
                };
            }
            i = i + 1;
        }
        let ghost flat = data@;
        let m = Matrix::from(dim, data);
        proof {
            assert forall|ii: int, jj: int| 0 <= ii < dim && 0 <= jj < dim
                implies #[trigger] m.spec_at(ii, jj) == product_entry(*self, *rhs, ii, jj) by {
                assert(m.spec_at(ii, jj) == flat[ii * (dim as int) + jj]);
            };
        }
        Ok(m)
    }

    /// Multiplies under the chosen strategy.  Both strategies meet one
    /// contract, so by `lemma_product_unique` the choice never changes the
    /// result.
    pub fn multiply_with(&self, rhs: &Matrix, strategy: Strategy) -> (r: Result<
        Matrix,
        MatrixError,
    >)
        requires
            self.wf(),
            rhs.wf(),
        ensures
            match r {
                Ok(p) => self.spec_dim() == rhs.spec_dim() && is_product(*self, *rhs, p),
                Err(e) => e == MatrixError::DimensionMismatch
                    && self.spec_dim() != rhs.spec_dim(),
            },
    {
        match strategy {
            Strategy::Sequential => self.multiply(rhs),
            Strategy::RowPartitioned => self.multiply_rows(rhs),
        }
    }
}

} // verus!
