//! Dense 2-D integer matrices with exact element-wise and product
//! arithmetic, stored row-major.

use vstd::prelude::*;
use nanorand::WyRand;
use crate::activation::{act_val, Activation};
use crate::model::{
    add_fits, fits_i64, gact, gadd, gmul, gscale, gsq_err, gsub, mul_fits, mul_partial,
    scale_fits, sq_err_fits, sub_fits, GMat,
};
use crate::rng::draw_in_range;

verus! {

/// A dense rectangular matrix of `i64` elements in row-major layout: the
/// element at logical position `(i, j)` lives at `data[i * cols + j]`.
///
/// Arithmetic never mutates an operand: every operation returns a freshly
/// allocated matrix. The one exception is [`Matrix::randomize`], which
/// overwrites the elements in place.
#[derive(Debug)]
pub struct Matrix {
    pub rows: usize,
    pub cols: usize,
    pub data: Vec<i64>,
}

impl View for Matrix {
    type V = GMat;

    open spec fn view(&self) -> GMat {
        GMat {
            rows: self.rows as nat,
            cols: self.cols as nat,
            grid: Seq::new(
                self.rows as nat,
                |i: int| Seq::new(self.cols as nat, |j: int| self.data@[i * self.cols + j] as int),
            ),
        }
    }
}

impl Matrix {
    /// Well-formedness: the backing vector holds exactly `rows * cols`
    /// elements. Violating this is a programming error, not a recoverable
    /// runtime condition, so every operation demands it of its operands.
    pub open spec fn wf(self) -> bool {
        self.data.len() == self.rows * self.cols
    }

    /// Returns a zero-filled matrix of the given shape.
    pub fn new(rows: usize, cols: usize) -> (r: Matrix)
        requires
            rows * cols <= usize::MAX,
        ensures
            r.wf(),
            r.rows == rows,
            r.cols == cols,
            forall|i: int, j: int| 0 <= i < rows && 0 <= j < cols ==> r@.ent(i, j) == 0,
    {
        let n = rows * cols;
        let mut data: Vec<i64> = Vec::new();
        let mut k: usize = 0;
        while k < n
            invariant
                data.len() == k,
                k <= n,
                forall|t: int| 0 <= t < k ==> data[t] == 0i64,
            decreases n - k,
        {
            data.push(0);
            k = k + 1;
        }
        let r = Matrix { rows, cols, data };
        proof {
            assert forall|i: int, j: int| 0 <= i < rows && 0 <= j < cols implies r@.ent(i, j) == 0 by {
                lemma_row_major_index(i, j, rows as int, cols as int);
            }
        }
        r
    }

    /// Overwrites every element with an independent draw from the closed
    /// interval `[min, max]`, leaving the shape unchanged. With `min == max`
    /// every element becomes exactly `min`.
    pub fn randomize(&mut self, rng: &mut WyRand, min: i64, max: i64)
        requires
            old(self).wf(),
            min <= max,
        ensures
            final(self).wf(),
            final(self).rows == old(self).rows,
            final(self).cols == old(self).cols,
            forall|i: int, j: int|
                0 <= i < old(self).rows && 0 <= j < old(self).cols
                    ==> min <= #[trigger] final(self)@.ent(i, j) <= max,
            min == max ==> forall|i: int, j: int|
                0 <= i < old(self).rows && 0 <= j < old(self).cols
                    ==> #[trigger] final(self)@.ent(i, j) == min,
    {
        let n = self.data.len();
        let mut data: Vec<i64> = Vec::new();
        let mut k: usize = 0;
        while k < n
            invariant
                min <= max,
                data.len() == k,
                k <= n,
                forall|t: int| 0 <= t < k ==> min <= #[trigger] data[t] <= max,
            decreases n - k,
        {
            let v = draw_in_range(rng, min, max);
            data.push(v);
            k = k + 1;
        }
        self.data = data;
        proof {
            assert forall|i: int, j: int|
                0 <= i < old(self).rows && 0 <= j < old(self).cols
                    implies min <= #[trigger] self@.ent(i, j) <= max by {
                lemma_row_major_index(i, j, self.rows as int, self.cols as int);
            }
        }
    }

    /// An element-for-element copy of the matrix.
    pub fn duplicate(&self) -> (r: Matrix)
        requires
            self.wf(),
        ensures
            r.wf(),
            r.rows == self.rows,
            r.cols == self.cols,
            r@ == self@,
    {
        let n = self.data.len();
        let mut data: Vec<i64> = Vec::new();
        let mut k: usize = 0;
        while k < n
            invariant
                n == self.data.len(),
                data.len() == k,
                k <= n,
                forall|t: int| 0 <= t < k ==> data[t] == self.data[t],
            decreases n - k,
        {
            data.push(self.data[k]);
            k = k + 1;
        }
        let r = Matrix { rows: self.rows, cols: self.cols, data };
        proof {
            assert forall|i2: int, j2: int|
                0 <= i2 < r.rows && 0 <= j2 < r.cols
                    implies #[trigger] self@.ent(i2, j2) == r@.ent(i2, j2) by {
                lemma_row_major_index(i2, j2, r.rows as int, r.cols as int);
            }
            lemma_entrywise_view(r, self@);
        }
        r
    }

    /// The element-wise application of the activation function `act`, of
    /// the same shape. Activation never leaves the machine range, so this
    /// is a total operation.
    pub fn activate(&self, act: Activation) -> (r: Matrix)
        requires
            self.wf(),
        ensures
            r.wf(),
            r.rows == self.rows,
            r.cols == self.cols,
            r@ == gact(act, self@),
    {
        let mut data: Vec<i64> = Vec::new();
        let mut i: usize = 0;
        while i < self.rows
            invariant
                self.wf(),
                i <= self.rows,
                data.len() == i * self.cols,
                forall|i2: int, j2: int|
                    0 <= i2 < self.rows && 0 <= j2 < self.cols && i2 * self.cols + j2 < data.len()
                        ==> #[trigger] data[i2 * self.cols + j2] as int
                            == act_val(act, self@.ent(i2, j2)),
            decreases self.rows - i,
        {
            let mut j: usize = 0;
            while j < self.cols
                invariant
                    self.wf(),
                    i < self.rows,
                    j <= self.cols,
                    data.len() == i * self.cols + j,
                    forall|i2: int, j2: int|
                        0 <= i2 < self.rows && 0 <= j2 < self.cols
                            && i2 * self.cols + j2 < data.len()
                            ==> #[trigger] data[i2 * self.cols + j2] as int
                                == act_val(act, self@.ent(i2, j2)),
                decreases self.cols - j,
            {
                proof {
                    lemma_row_major_index(i as int, j as int, self.rows as int, self.cols as int);
                }
                let idx = i * self.cols + j;
                let v = act.apply(self.data[idx]);
                data.push(v);
                proof {
                    assert forall|i2: int, j2: int|
                        0 <= i2 < self.rows && 0 <= j2 < self.cols
                            && i2 * self.cols + j2 < data.len()
                            implies #[trigger] data[i2 * self.cols + j2] as int
                                == act_val(act, self@.ent(i2, j2)) by {
                        if i2 * self.cols + j2 == idx {
                            lemma_row_major_injective(
                                i2, j2, i as int, j as int, self.cols as int,
                            );
                        }
                    }
                }
                j = j + 1;
            }
            proof {
                assert((i + 1) * self.cols == i * self.cols + self.cols) by (nonlinear_arith);
            }
            i = i + 1;
        }
        let r = Matrix { rows: self.rows, cols: self.cols, data };
        proof {
            assert forall|i2: int, j2: int|
                0 <= i2 < r.rows && 0 <= j2 < r.cols
                    implies #[trigger] gact(act, self@).ent(i2, j2) == r@.ent(i2, j2) by {
                lemma_row_major_index(i2, j2, r.rows as int, r.cols as int);
            }
            lemma_entrywise_view(r, gact(act, self@));
        }
        r
    }

    /// The element-wise sum, of the common shape. The operands must have
    /// equal shapes; a mismatch is a fatal precondition violation, not a
    /// recoverable condition.
    pub fn add(&self, other: &Matrix) -> (r: Matrix)
        requires
            self.wf(),
            other.wf(),
            self.rows == other.rows,
            self.cols == other.cols,
            add_fits(self@, other@),
        ensures
            r.wf(),
            r.rows == self.rows,
            r.cols == self.cols,
            r@ == gadd(self@, other@),
    {
        self.checked_add(other).unwrap()
    }

    /// The element-wise sum as a total operation: `None` on a shape mismatch
    /// or when a sum leaves the machine range, the sum otherwise.
    pub fn checked_add(&self, other: &Matrix) -> (r: Option<Matrix>)
        requires
            self.wf(),
            other.wf(),
        ensures
            match r {
                Some(m) => {
                    &&& self.rows == other.rows
                    &&& self.cols == other.cols
                    &&& add_fits(self@, other@)
                    &&& m.wf()
                    &&& m.rows == self.rows
                    &&& m.cols == self.cols
                    &&& m@ == gadd(self@, other@)
                },
                None => !(self.rows == other.rows && self.cols == other.cols
                    && add_fits(self@, other@)),
            },
    {
        if self.rows != other.rows || self.cols != other.cols {
            return None;
        }
        let mut data: Vec<i64> = Vec::new();
        let mut i: usize = 0;
        while i < self.rows
            invariant
                self.wf(),
                other.wf(),
                self.rows == other.rows,
                self.cols == other.cols,
                i <= self.rows,
                data.len() == i * self.cols,
                forall|i2: int, j2: int|
                    0 <= i2 < self.rows && 0 <= j2 < self.cols && i2 * self.cols + j2 < data.len()
                        ==> #[trigger] data[i2 * self.cols + j2] as int
                            == self@.ent(i2, j2) + other@.ent(i2, j2),
            decreases self.rows - i,
        {
            let mut j: usize = 0;
            while j < self.cols
                invariant
                    self.wf(),
                    other.wf(),
                    self.rows == other.rows,
                    self.cols == other.cols,
                    i < self.rows,
                    j <= self.cols,
                    data.len() == i * self.cols + j,
                    forall|i2: int, j2: int|
                        0 <= i2 < self.rows && 0 <= j2 < self.cols
                            && i2 * self.cols + j2 < data.len()
                            ==> #[trigger] data[i2 * self.cols + j2] as int
                                == self@.ent(i2, j2) + other@.ent(i2, j2),
                decreases self.cols - j,
            {
                proof {
                    lemma_row_major_index(i as int, j as int, self.rows as int, self.cols as int);
                }
                let idx = i * self.cols + j;
                let v: i128 = (self.data[idx] as i128) + (other.data[idx] as i128);
                if v < i64::MIN as i128 || v > i64::MAX as i128 {
                    proof {
                        assert(gadd(self@, other@).ent(i as int, j as int)
                            == self@.ent(i as int, j as int) + other@.ent(i as int, j as int));
                    }
                    return None;
                }
                data.push(v as i64);
                proof {
                    assert forall|i2: int, j2: int|
                        0 <= i2 < self.rows && 0 <= j2 < self.cols
                            && i2 * self.cols + j2 < data.len()
                            implies #[trigger] data[i2 * self.cols + j2] as int
                                == self@.ent(i2, j2) + other@.ent(i2, j2) by {
                        if i2 * self.cols + j2 == idx {
                            lemma_row_major_injective(
                                i2, j2, i as int, j as int, self.cols as int,
                            );
                        }
                    }
                }
                j = j + 1;
            }
            proof {
                assert((i + 1) * self.cols == i * self.cols + self.cols) by (nonlinear_arith);
            }
            i = i + 1;
        }
        let r = Matrix { rows: self.rows, cols: self.cols, data };
        proof {
            assert forall|i2: int, j2: int|
                0 <= i2 < r.rows && 0 <= j2 < r.cols
                    implies #[trigger] gadd(self@, other@).ent(i2, j2) == r@.ent(i2, j2) by {
                lemma_row_major_index(i2, j2, r.rows as int, r.cols as int);
            }
            lemma_entrywise_view(r, gadd(self@, other@));
            assert forall|i2: int, j2: int|
                0 <= i2 < self@.rows && 0 <= j2 < self@.cols
                    implies fits_i64(#[trigger] gadd(self@, other@).ent(i2, j2)) by {
                lemma_row_major_index(i2, j2, self.rows as int, self.cols as int);
            }
        }
        Some(r)
    }

    /// The element-wise difference, of the common shape, under the same
    /// shape precondition as [`Matrix::add`].
    pub fn sub(&self, other: &Matrix) -> (r: Matrix)
        requires
            self.wf(),
            other.wf(),
            self.rows == other.rows,
            self.cols == other.cols,
            sub_fits(self@, other@),
        ensures
            r.wf(),
            r.rows == self.rows,
            r.cols == self.cols,
            r@ == gsub(self@, other@),
    {
        let mut data: Vec<i64> = Vec::new();
        let mut i: usize = 0;
        while i < self.rows
            invariant
                self.wf(),
                other.wf(),
                self.rows == other.rows,
                self.cols == other.cols,
                sub_fits(self@, other@),
                i <= self.rows,
                data.len() == i * self.cols,
                forall|i2: int, j2: int|
                    0 <= i2 < self.rows && 0 <= j2 < self.cols && i2 * self.cols + j2 < data.len()
                        ==> #[trigger] data[i2 * self.cols + j2] as int
                            == self@.ent(i2, j2) - other@.ent(i2, j2),
            decreases self.rows - i,
        {
            let mut j: usize = 0;
            while j < self.cols
                invariant
                    self.wf(),
                    other.wf(),
                    self.rows == other.rows,
                    self.cols == other.cols,
                    sub_fits(self@, other@),
                    i < self.rows,
                    j <= self.cols,
                    data.len() == i * self.cols + j,
                    forall|i2: int, j2: int|
                        0 <= i2 < self.rows && 0 <= j2 < self.cols
                            && i2 * self.cols + j2 < data.len()
                            ==> #[trigger] data[i2 * self.cols + j2] as int
                                == self@.ent(i2, j2) - other@.ent(i2, j2),
                decreases self.cols - j,
            {
                proof {
                    lemma_row_major_index(i as int, j as int, self.rows as int, self.cols as int);
                    assert(fits_i64(gsub(self@, other@).ent(i as int, j as int)));
                }
                let idx = i * self.cols + j;
                let v: i128 = (self.data[idx] as i128) - (other.data[idx] as i128);
                data.push(v as i64);
                proof {
                    assert forall|i2: int, j2: int|
                        0 <= i2 < self.rows && 0 <= j2 < self.cols
                            && i2 * self.cols + j2 < data.len()
                            implies #[trigger] data[i2 * self.cols + j2] as int
                                == self@.ent(i2, j2) - other@.ent(i2, j2) by {
                        if i2 * self.cols + j2 == idx {
                            lemma_row_major_injective(
                                i2, j2, i as int, j as int, self.cols as int,
                            );
                        }
                    }
                }
                j = j + 1;
            }
            proof {
                assert((i + 1) * self.cols == i * self.cols + self.cols) by (nonlinear_arith);
            }
            i = i + 1;
        }
        let r = Matrix { rows: self.rows, cols: self.cols, data };
        proof {
            assert forall|i2: int, j2: int|
                0 <= i2 < r.rows && 0 <= j2 < r.cols
                    implies #[trigger] gsub(self@, other@).ent(i2, j2) == r@.ent(i2, j2) by {
                lemma_row_major_index(i2, j2, r.rows as int, r.cols as int);
            }
            lemma_entrywise_view(r, gsub(self@, other@));
        }
        r
    }

    /// The element-wise product with the scalar `s`. A zero scalar
    /// short-circuits to a fresh zero matrix of the same shape; that is an
    /// optimization only, the result is the same either way.
    pub fn scale(&self, s: i64) -> (r: Matrix)
        requires
            self.wf(),
            scale_fits(self@, s as int),
        ensures
            r.wf(),
            r.rows == self.rows,
            r.cols == self.cols,
            r@ == gscale(self@, s as int),
    {
        if s == 0 {
            let r = Matrix::new(self.rows, self.cols);
            proof {
                assert forall|i2: int, j2: int|
                    0 <= i2 < r.rows && 0 <= j2 < r.cols
                        implies #[trigger] gscale(self@, 0).ent(i2, j2) == r@.ent(i2, j2) by {
                    lemma_row_major_index(i2, j2, r.rows as int, r.cols as int);
                }
                lemma_entrywise_view(r, gscale(self@, 0));
            }
            return r;
        }
        let mut data: Vec<i64> = Vec::new();
        let mut i: usize = 0;
        while i < self.rows
            invariant
                self.wf(),
                scale_fits(self@, s as int),
                i <= self.rows,
                data.len() == i * self.cols,
                forall|i2: int, j2: int|
                    0 <= i2 < self.rows && 0 <= j2 < self.cols && i2 * self.cols + j2 < data.len()
                        ==> #[trigger] data[i2 * self.cols + j2] as int
                            == s as int * self@.ent(i2, j2),
            decreases self.rows - i,
        {
            let mut j: usize = 0;
            while j < self.cols
                invariant
                    self.wf(),
                    scale_fits(self@, s as int),
                    i < self.rows,
                    j <= self.cols,
                    data.len() == i * self.cols + j,
                    forall|i2: int, j2: int|
                        0 <= i2 < self.rows && 0 <= j2 < self.cols
                            && i2 * self.cols + j2 < data.len()
                            ==> #[trigger] data[i2 * self.cols + j2] as int
                                == s as int * self@.ent(i2, j2),
                decreases self.cols - j,
            {
                proof {
                    lemma_row_major_index(i as int, j as int, self.rows as int, self.cols as int);
                    assert(fits_i64(gscale(self@, s as int).ent(i as int, j as int)));
                }
                let idx = i * self.cols + j;
                let v: i128 = (s as i128) * (self.data[idx] as i128);
                data.push(v as i64);
                proof {
                    assert forall|i2: int, j2: int|
                        0 <= i2 < self.rows && 0 <= j2 < self.cols
                            && i2 * self.cols + j2 < data.len()
                            implies #[trigger] data[i2 * self.cols + j2] as int
                                == s as int * self@.ent(i2, j2) by {
                        if i2 * self.cols + j2 == idx {
                            lemma_row_major_injective(
                                i2, j2, i as int, j as int, self.cols as int,
                            );
                        }
                    }
                }
                j = j + 1;
            }
            proof {
                assert((i + 1) * self.cols == i * self.cols + self.cols) by (nonlinear_arith);
            }
            i = i + 1;
        }
        let r = Matrix { rows: self.rows, cols: self.cols, data };
        proof {
            assert forall|i2: int, j2: int|
                0 <= i2 < r.rows && 0 <= j2 < r.cols
                    implies #[trigger] gscale(self@, s as int).ent(i2, j2) == r@.ent(i2, j2) by {
                lemma_row_major_index(i2, j2, r.rows as int, r.cols as int);
            }
            lemma_entrywise_view(r, gscale(self@, s as int));
        }
        r
    }

    /// The matrix product, of shape `(self.rows, other.cols)`. The inner
    /// dimensions must agree; a mismatch is a fatal precondition violation,
    /// not a recoverable condition.
    pub fn mul(&self, other: &Matrix) -> (r: Matrix)
        requires
            self.wf(),
            other.wf(),
            self.cols == other.rows,
            self.rows * other.cols <= usize::MAX,
            mul_fits(self@, other@),
        ensures
            r.wf(),
            r.rows == self.rows,
            r.cols == other.cols,
            r@ == gmul(self@, other@),
    {
        self.checked_mul(other).unwrap()
    }

    /// The matrix product as a total operation: `None` on an inner-dimension
    /// mismatch, on a result too large to address, or when a prefix sum of
    /// an entry leaves the machine range; the product otherwise.
    pub fn checked_mul(&self, other: &Matrix) -> (r: Option<Matrix>)
        requires
            self.wf(),
            other.wf(),
        ensures
            match r {
                Some(m) => {
                    &&& self.cols == other.rows
                    &&& self.rows * other.cols <= usize::MAX
                    &&& mul_fits(self@, other@)
                    &&& m.wf()
                    &&& m.rows == self.rows
                    &&& m.cols == other.cols
                    &&& m@ == gmul(self@, other@)
                },
                None => !(self.cols == other.rows && self.rows * other.cols <= usize::MAX
                    && mul_fits(self@, other@)),
            },
    {
        if self.cols != other.rows {
            return None;
        }
        if self.rows.checked_mul(other.cols).is_none() {
            return None;
        }
        let mut data: Vec<i64> = Vec::new();
        let mut i: usize = 0;
        while i < self.rows
            invariant
                self.wf(),
                other.wf(),
                self.cols == other.rows,
                self.rows * other.cols <= usize::MAX,
                i <= self.rows,
                data.len() == i * other.cols,
                forall|i2: int, j2: int|
                    0 <= i2 < self.rows && 0 <= j2 < other.cols
                        && i2 * other.cols + j2 < data.len()
                        ==> #[trigger] data[i2 * other.cols + j2] as int
                            == mul_partial(self@, other@, i2, j2, self.cols as int),
                forall|i2: int, j2: int, n: int|
                    0 <= i2 < self.rows && 0 <= j2 < other.cols
                        && i2 * other.cols + j2 < data.len() && 0 <= n <= self.cols
                        ==> fits_i64(#[trigger] mul_partial(self@, other@, i2, j2, n)),
            decreases self.rows - i,
        {
            let mut j: usize = 0;
            while j < other.cols
                invariant
                    self.wf(),
                    other.wf(),
                    self.cols == other.rows,
                    self.rows * other.cols <= usize::MAX,
                    i < self.rows,
                    j <= other.cols,
                    data.len() == i * other.cols + j,
                    forall|i2: int, j2: int|
                        0 <= i2 < self.rows && 0 <= j2 < other.cols
                            && i2 * other.cols + j2 < data.len()
                            ==> #[trigger] data[i2 * other.cols + j2] as int
                                == mul_partial(self@, other@, i2, j2, self.cols as int),
                    forall|i2: int, j2: int, n: int|
                        0 <= i2 < self.rows && 0 <= j2 < other.cols
                            && i2 * other.cols + j2 < data.len() && 0 <= n <= self.cols
                            ==> fits_i64(#[trigger] mul_partial(self@, other@, i2, j2, n)),
                decreases other.cols - j,
            {
                let mut sum: i64 = 0;
                let mut k: usize = 0;
                while k < self.cols
                    invariant
                        self.wf(),
                        other.wf(),
                        self.cols == other.rows,
                        i < self.rows,
                        j < other.cols,
                        k <= self.cols,
                        sum as int == mul_partial(self@, other@, i as int, j as int, k as int),
                        forall|n: int| 0 <= n <= k
                            ==> fits_i64(#[trigger] mul_partial(self@, other@, i as int, j as int, n)),
                    decreases self.cols - k,
                {
                    proof {
                        lemma_row_major_index(
                            i as int, k as int, self.rows as int, self.cols as int,
                        );
                        lemma_row_major_index(
                            k as int, j as int, other.rows as int, other.cols as int,
                        );
                    }
                    let ia = i * self.cols + k;
                    let ib = k * other.cols + j;
                    proof {
                        lemma_prod_in_range(self.data[ia as int] as int, other.data[ib as int] as int);
                    }
                    let p: i128 = (self.data[ia] as i128) * (other.data[ib] as i128);
                    let s2: i128 = (sum as i128) + p;
                    proof {
                        assert(p == self@.ent(i as int, k as int) * other@.ent(k as int, j as int));
                        assert(mul_partial(self@, other@, i as int, j as int, k + 1)
                            == mul_partial(self@, other@, i as int, j as int, k as int)
                                + self@.ent(i as int, k as int) * other@.ent(k as int, j as int));
                    }
                    if s2 < i64::MIN as i128 || s2 > i64::MAX as i128 {
                        return None;
                    }
                    sum = s2 as i64;
                    k = k + 1;
                }
                data.push(sum);
                proof {
                    assert forall|i2: int, j2: int|
                        0 <= i2 < self.rows && 0 <= j2 < other.cols
                            && i2 * other.cols + j2 < data.len()
                            implies #[trigger] data[i2 * other.cols + j2] as int
                                == mul_partial(self@, other@, i2, j2, self.cols as int) by {
                        if i2 * other.cols + j2 == i * other.cols + j {
                            lemma_row_major_injective(
                                i2, j2, i as int, j as int, other.cols as int,
                            );
                        }
                    }
                    assert forall|i2: int, j2: int, n: int|
                        0 <= i2 < self.rows && 0 <= j2 < other.cols
                            && i2 * other.cols + j2 < data.len() && 0 <= n <= self.cols
                            implies fits_i64(#[trigger] mul_partial(self@, other@, i2, j2, n)) by {
                        if i2 * other.cols + j2 == i * other.cols + j {
                            lemma_row_major_injective(
                                i2, j2, i as int, j as int, other.cols as int,
                            );
                        }
                    }
                }
                j = j + 1;
            }
            proof {
                assert((i + 1) * other.cols == i * other.cols + other.cols) by (nonlinear_arith);
            }
            i = i + 1;
        }
        let r = Matrix { rows: self.rows, cols: other.cols, data };
        proof {
            assert(r.wf());
            assert forall|i2: int, j2: int, n: int|
                0 <= i2 < self@.rows && 0 <= j2 < other@.cols && 0 <= n <= self@.cols
                    implies fits_i64(#[trigger] mul_partial(self@, other@, i2, j2, n)) by {
                lemma_row_major_index(i2, j2, self.rows as int, other.cols as int);
            }
            assert forall|i2: int, j2: int|
                0 <= i2 < r.rows && 0 <= j2 < r.cols
                    implies #[trigger] gmul(self@, other@).ent(i2, j2) == r@.ent(i2, j2) by {
                lemma_row_major_index(i2, j2, r.rows as int, r.cols as int);
            }
            lemma_entrywise_view(r, gmul(self@, other@));
        }
        Some(r)
    }
}

/// The element-wise squared error `(output - target)^2`, used for
/// reporting. The operands must have equal shapes.
pub fn squared_error(target: &Matrix, output: &Matrix) -> (r: Matrix)
    requires
        target.wf(),
        output.wf(),
        target.rows == output.rows,
        target.cols == output.cols,
        sq_err_fits(target@, output@),
    ensures
        r.wf(),
        r.rows == target.rows,
        r.cols == target.cols,
        r@ == gsq_err(target@, output@),
{
    let mut data: Vec<i64> = Vec::new();
    let mut i: usize = 0;
    while i < target.rows
        invariant
            target.wf(),
            output.wf(),
            target.rows == output.rows,
            target.cols == output.cols,
            sq_err_fits(target@, output@),
            i <= target.rows,
            data.len() == i * target.cols,
            forall|i2: int, j2: int|
                0 <= i2 < target.rows && 0 <= j2 < target.cols
                    && i2 * target.cols + j2 < data.len()
                    ==> #[trigger] data[i2 * target.cols + j2] as int
                        == (output@.ent(i2, j2) - target@.ent(i2, j2))
                            * (output@.ent(i2, j2) - target@.ent(i2, j2)),
        decreases target.rows - i,
    {
        let mut j: usize = 0;
        while j < target.cols
            invariant
                target.wf(),
                output.wf(),
                target.rows == output.rows,
                target.cols == output.cols,
                sq_err_fits(target@, output@),
                i < target.rows,
                j <= target.cols,
                data.len() == i * target.cols + j,
                forall|i2: int, j2: int|
                    0 <= i2 < target.rows && 0 <= j2 < target.cols
                        && i2 * target.cols + j2 < data.len()
                        ==> #[trigger] data[i2 * target.cols + j2] as int
                            == (output@.ent(i2, j2) - target@.ent(i2, j2))
                                * (output@.ent(i2, j2) - target@.ent(i2, j2)),
            decreases target.cols - j,
        {
            proof {
                lemma_row_major_index(i as int, j as int, target.rows as int, target.cols as int);
                assert(fits_i64(gsq_err(target@, output@).ent(i as int, j as int)));
                assert(fits_i64(output@.ent(i as int, j as int) - target@.ent(i as int, j as int)));
            }
            let idx = i * target.cols + j;
            let d: i128 = (output.data[idx] as i128) - (target.data[idx] as i128);
            let v: i128 = d * d;
            data.push(v as i64);
            proof {
                assert forall|i2: int, j2: int|
                    0 <= i2 < target.rows && 0 <= j2 < target.cols
                        && i2 * target.cols + j2 < data.len()
                        implies #[trigger] data[i2 * target.cols + j2] as int
                            == (output@.ent(i2, j2) - target@.ent(i2, j2))
                                * (output@.ent(i2, j2) - target@.ent(i2, j2)) by {
                    if i2 * target.cols + j2 == idx {
                        lemma_row_major_injective(i2, j2, i as int, j as int, target.cols as int);
                    }
                }
            }
            j = j + 1;
        }
        proof {
            assert((i + 1) * target.cols == i * target.cols + target.cols) by (nonlinear_arith);
        }
        i = i + 1;
    }
    let r = Matrix { rows: target.rows, cols: target.cols, data };
    proof {
        assert forall|i2: int, j2: int|
            0 <= i2 < r.rows && 0 <= j2 < r.cols
                implies #[trigger] gsq_err(target@, output@).ent(i2, j2) == r@.ent(i2, j2) by {
            lemma_row_major_index(i2, j2, r.rows as int, r.cols as int);
        }
        lemma_entrywise_view(r, gsq_err(target@, output@));
    }
    r
}

/// For a valid position `(i, j)` of an `r x c` matrix, the row-major index
/// `i * c + j` lies within the backing vector.
pub proof fn lemma_row_major_index(i: int, j: int, r: int, c: int)
    requires
        0 <= i < r,
        0 <= j < c,
    ensures
        0 <= i * c + j < r * c,
{
    assert(0 <= i * c + j < r * c) by (nonlinear_arith)
        requires
            0 <= i < r,
            0 <= j < c,
    ;
}

/// Row-major indexing is injective over the valid positions of a matrix
/// with `c` columns.
pub proof fn lemma_row_major_injective(i1: int, j1: int, i2: int, j2: int, c: int)
    requires
        0 <= j1 < c,
        0 <= j2 < c,
        0 <= i1,
        0 <= i2,
        i1 * c + j1 == i2 * c + j2,
    ensures
        i1 == i2,
        j1 == j2,
{
    assert(i1 == i2 && j1 == j2) by (nonlinear_arith)
        requires
            0 <= j1 < c,
            0 <= j2 < c,
            0 <= i1,
            0 <= i2,
            i1 * c + j1 == i2 * c + j2,
    ;
}

/// A well-formed grid of the same shape and with the same entries as a
/// matrix's view is that view.
proof fn lemma_entrywise_view(m: Matrix, g: GMat)
    requires
        m.wf(),
        g.wf(),
        g.rows == m.rows,
        g.cols == m.cols,
        forall|i: int, j: int|
            0 <= i < m.rows && 0 <= j < m.cols ==> #[trigger] g.ent(i, j) == m@.ent(i, j),
    ensures
        m@ == g,
{
    assert forall|i: int| 0 <= i < m.rows implies m@.grid[i] =~= g.grid[i] by {
        assert forall|j: int| 0 <= j < m.cols implies m@.grid[i][j] == g.grid[i][j] by {
            assert(g.ent(i, j) == m@.ent(i, j));
        }
    }
    assert(m@.grid =~= g.grid);
    assert(m@ =~= g);
}

/// The product of two values of the machine range lies well within the
/// range of the double-width intermediate used to compute with it.
proof fn lemma_prod_in_range(x: int, y: int)
    requires
        fits_i64(x),
        fits_i64(y),
    ensures
        -0x4000_0000_0000_0000_0000_0000_0000_0000 <= x * y
            <= 0x4000_0000_0000_0000_0000_0000_0000_0000,
{
    assert(-0x4000_0000_0000_0000_0000_0000_0000_0000 <= x * y
        <= 0x4000_0000_0000_0000_0000_0000_0000_0000) by (nonlinear_arith)
        requires
            -0x8000_0000_0000_0000 <= x <= 0x7fff_ffff_ffff_ffff,
            -0x8000_0000_0000_0000 <= y <= 0x7fff_ffff_ffff_ffff,
    ;
}

} // verus!
