//! The mathematical model of a matrix: unbounded-integer entries arranged
//! in a rectangular grid, with the operations of the library stated over it.

use vstd::prelude::*;
use crate::activation::{act_val, Activation};

verus! {

/// The sum `f(0) + f(1) + ... + f(n - 1)`.
pub open spec fn sum_upto(n: int, f: spec_fn(int) -> int) -> int
    decreases n,
{
    if n <= 0 {
        0
    } else {
        sum_upto(n - 1, f) + f(n - 1)
    }
}

/// A matrix over the mathematical integers: `rows` rows of `cols` entries.
#[verifier::ext_equal]
pub ghost struct GMat {
    pub rows: nat,
    pub cols: nat,
    pub grid: Seq<Seq<int>>,
}

impl GMat {
    /// The grid really is rectangular with the stated shape.
    pub open spec fn wf(self) -> bool {
        &&& self.grid.len() == self.rows
        &&& forall|i: int| 0 <= i < self.rows ==> (#[trigger] self.grid[i]).len() == self.cols
    }

    /// The entry in row `i`, column `j`.
    pub open spec fn ent(self, i: int, j: int) -> int {
        self.grid[i][j]
    }
}

/// Whether `x` lies in the range of the machine representation of an entry.
pub open spec fn fits_i64(x: int) -> bool {
    i64::MIN <= x <= i64::MAX
}

/// The sum of the first `n` products of row `i` of `a` against column `j`
/// of `b`: a prefix of the matrix-product entry at `(i, j)`.
pub open spec fn mul_partial(a: GMat, b: GMat, i: int, j: int, n: int) -> int {
    sum_upto(n, |k: int| a.ent(i, k) * b.ent(k, j))
}

/// The matrix product: shape `(a.rows, b.cols)`, entry `(i, j)` the sum of
/// products of row `i` of `a` against column `j` of `b`.
pub open spec fn gmul(a: GMat, b: GMat) -> GMat {
    GMat {
        rows: a.rows,
        cols: b.cols,
        grid: Seq::new(a.rows, |i: int| Seq::new(b.cols, |j: int| mul_partial(a, b, i, j, a.cols as int))),
    }
}

/// The element-wise sum, of `a`'s shape.
pub open spec fn gadd(a: GMat, b: GMat) -> GMat {
    GMat {
        rows: a.rows,
        cols: a.cols,
        grid: Seq::new(a.rows, |i: int| Seq::new(a.cols, |j: int| a.ent(i, j) + b.ent(i, j))),
    }
}

/// The element-wise difference, of `a`'s shape.
pub open spec fn gsub(a: GMat, b: GMat) -> GMat {
    GMat {
        rows: a.rows,
        cols: a.cols,
        grid: Seq::new(a.rows, |i: int| Seq::new(a.cols, |j: int| a.ent(i, j) - b.ent(i, j))),
    }
}

/// The element-wise product with the scalar `s`.
pub open spec fn gscale(a: GMat, s: int) -> GMat {
    GMat {
        rows: a.rows,
        cols: a.cols,
        grid: Seq::new(a.rows, |i: int| Seq::new(a.cols, |j: int| s * a.ent(i, j))),
    }
}

/// The element-wise application of the activation function `act`.
pub open spec fn gact(act: Activation, a: GMat) -> GMat {
    GMat {
        rows: a.rows,
        cols: a.cols,
        grid: Seq::new(a.rows, |i: int| Seq::new(a.cols, |j: int| act_val(act, a.ent(i, j)))),
    }
}

/// The element-wise squared error `(output - target)^2`.
pub open spec fn gsq_err(target: GMat, output: GMat) -> GMat {
    GMat {
        rows: target.rows,
        cols: target.cols,
        grid: Seq::new(
            target.rows,
            |i: int| Seq::new(
                target.cols,
                |j: int| (output.ent(i, j) - target.ent(i, j)) * (output.ent(i, j) - target.ent(i, j)),
            ),
        ),
    }
}

/// Every entry of the element-wise sum fits the machine range.
pub open spec fn add_fits(a: GMat, b: GMat) -> bool {
    forall|i: int, j: int|
        0 <= i < a.rows && 0 <= j < a.cols ==> fits_i64(#[trigger] gadd(a, b).ent(i, j))
}

/// Every entry of the element-wise difference fits the machine range.
pub open spec fn sub_fits(a: GMat, b: GMat) -> bool {
    forall|i: int, j: int|
        0 <= i < a.rows && 0 <= j < a.cols ==> fits_i64(#[trigger] gsub(a, b).ent(i, j))
}

/// Every entry of the scalar product fits the machine range.
pub open spec fn scale_fits(a: GMat, s: int) -> bool {
    forall|i: int, j: int|
        0 <= i < a.rows && 0 <= j < a.cols ==> fits_i64(#[trigger] gscale(a, s).ent(i, j))
}

/// Every prefix sum computed by the matrix product fits the machine range,
/// so the product can be evaluated left to right without leaving it.
pub open spec fn mul_fits(a: GMat, b: GMat) -> bool {
    forall|i: int, j: int, n: int|
        0 <= i < a.rows && 0 <= j < b.cols && 0 <= n <= a.cols
            ==> fits_i64(#[trigger] mul_partial(a, b, i, j, n))
}

/// Every difference and every squared difference of the squared error fits
/// the machine range.
pub open spec fn sq_err_fits(target: GMat, output: GMat) -> bool {
    forall|i: int, j: int|
        0 <= i < target.rows && 0 <= j < target.cols
            ==> fits_i64(output.ent(i, j) - target.ent(i, j))
                && fits_i64(#[trigger] gsq_err(target, output).ent(i, j))
}

} // verus!
