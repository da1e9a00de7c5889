//! The dense square matrix: a flat row-major buffer of `i32` cells together
//! with its side length, immutable once built.

use vstd::prelude::*;

verus! {

/// The ways an operation on matrices can fail.
#[derive(Clone, Copy, Debug, PartialEq, Eq, Structural)]
pub enum MatrixError {
    /// Two operands of a product do not share one dimension.
    DimensionMismatch,
    /// A row or column index lies outside `[0, dim)`.
    IndexOutOfRange,
}

/// A `dim x dim` grid of signed 32-bit integers.
///
/// Cell `(i, j)` lives at offset `i * dim + j` of the flat buffer; the buffer
/// always holds exactly `dim * dim` cells and is never mutated after
/// construction.
pub struct Matrix {
    dim: usize,
    data: Vec<i32>,
}

/// Row-major offsets of cells inside the grid stay inside the buffer.
proof fn lemma_offset_in_bounds(dim: int, i: int, j: int)
    by (nonlinear_arith)
    requires
        0 <= i < dim,
        0 <= j < dim,
    ensures
        0 <= i * dim + j < dim * dim,
{
}

/// The open interval that a truncating remainder by `cap` falls in:
/// `(-|cap|, |cap|)`.
pub open spec fn rem_bound(cap: i32) -> int {
    if cap >= 0 {
        cap as int
    } else {
        -(cap as int)
    }
}

impl Matrix {
    /// The side length of the grid.
    pub closed spec fn spec_dim(&self) -> int {
        self.dim as int
    }

    /// The flat row-major contents.
    pub closed spec fn spec_data(&self) -> Seq<i32> {
        self.data@
    }

    /// The structural invariant: a positive side length, and one cell stored
    /// for every position of the grid.
    pub open spec fn wf(&self) -> bool {
        &&& 1 <= self.spec_dim()
        &&& self.spec_data().len() == self.spec_dim() * self.spec_dim()
    }

    /// The cell in row `i`, column `j`.
    pub open spec fn spec_at(&self, i: int, j: int) -> i32 {
        self.spec_data()[i * self.spec_dim() + j]
    }

    /// Builds a matrix that takes ownership of `data` unchanged; the caller
    /// guarantees that `data` holds exactly `dim * dim` cells.
    pub fn from(dim: usize, data: Vec<i32>) -> (m: Matrix)
        requires
            1 <= dim,
            data@.len() == dim * dim,
        ensures
            m.wf(),
            m.spec_dim() == dim,
            m.spec_data() == data@,
    {
        Matrix { dim, data }
    }

    /// Builds a matrix of `dim * dim` cells, each drawn from the external
    /// random source and reduced by the truncating remainder against `cap`,
    /// so that every cell lies strictly between `-|cap|` and `|cap|` with the
    /// sign of the draw.
    pub fn random(dim: usize, cap: i32) -> (m: Matrix)
        requires
            1 <= dim,
            cap != 0,
            dim * dim <= usize::MAX,
        ensures
            m.wf(),
            m.spec_dim() == dim,
            forall|n: int| 0 <= n < m.spec_data().len()
                ==> -rem_bound(cap) < #[trigger] m.spec_data()[n] < rem_bound(cap),
    {
        let count = dim * dim;
        let mut data: Vec<i32> = Vec::new();
        let mut n: usize = 0;
        while n < count
            invariant
                n <= count,
                cap != 0,
                data@.len() == n,
                forall|k: int| 0 <= k < n
                    ==> -rem_bound(cap) < #[trigger] data@[k] < rem_bound(cap),
            decreases count - n,
        {
            let draw: i32 = rand::random::<i32>();
            let cell: i32 = if cap == -1 {
                0
            } else {
                draw % cap
            };
            data.push(cell);
            n = n + 1;
        }
        Matrix { dim, data }
    }

    /// The side length of the grid.
    pub fn dim(&self) -> (d: usize)
        ensures
            d == self.spec_dim(),
    {
        self.dim
    }

    /// Unchecked cell access for the engine's loops, whose indices are
    /// already proved in range.
    pub(crate) fn get(&self, i: usize, j: usize) -> (v: i32)
        requires
            self.wf(),
            i < self.spec_dim(),
            j < self.spec_dim(),
        ensures
            v == self.spec_at(i as int, j as int),
    {
        proof {
            vstd::std_specs::vec::axiom_spec_len(&self.data);
            lemma_offset_in_bounds(self.dim as int, i as int, j as int);
        }
        self.data[i * self.dim + j]
    }

    /// Bounds-checked cell access: the cell at `(i, j)`, or
    /// `IndexOutOfRange` exactly when `i` or `j` reaches `dim`.
    pub fn at(&self, i: usize, j: usize) -> (r: Result<i32, MatrixError>)
        requires
            self.wf(),
        ensures
            match r {
                Ok(v) => i < self.spec_dim() && j < self.spec_dim()
                    && v == self.spec_at(i as int, j as int),
                Err(e) => e == MatrixError::IndexOutOfRange
                    && (i >= self.spec_dim() || j >= self.spec_dim()),
            },
    {
        if i < self.dim && j < self.dim {
            Ok(self.get(i, j))
        } else {
            Err(MatrixError::IndexOutOfRange)
        }
    }
}

} // verus!
