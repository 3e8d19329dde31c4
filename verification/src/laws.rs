//! The algebraic laws of the matrix operations, stated over the
//! mathematical model and proved once and for all: they hold of the
//! operations' results through the operations' own contracts.

use vstd::prelude::*;
use crate::model::{gadd, gmul, gscale, gsub, mul_partial, GMat};

verus! {

/// Scaling any matrix by zero yields the zero matrix of the same shape,
/// whatever the matrix holds.
pub proof fn lemma_scale_zero(a: GMat)
    ensures
        gscale(a, 0).rows == a.rows,
        gscale(a, 0).cols == a.cols,
        forall|i: int, j: int|
            0 <= i < a.rows && 0 <= j < a.cols ==> #[trigger] gscale(a, 0).ent(i, j) == 0,
{
}

/// Element-wise addition is commutative: `a` plus `b` is `b` plus `a`.
pub proof fn lemma_add_comm(a: GMat, b: GMat)
    requires
        a.rows == b.rows,
        a.cols == b.cols,
    ensures
        gadd(a, b) == gadd(b, a),
{
    lemma_gmat_eq(gadd(a, b), gadd(b, a));
}

/// Subtraction is addition of the negation: `a` minus `b` is `a` plus `b`
/// scaled by `-1`.
pub proof fn lemma_sub_is_add_of_negation(a: GMat, b: GMat)
    requires
        a.rows == b.rows,
        a.cols == b.cols,
    ensures
        gsub(a, b) == gadd(a, gscale(b, -1)),
{
    lemma_gmat_eq(gsub(a, b), gadd(a, gscale(b, -1)));
}

/// The matrix product is associative: `(a b) c` equals `a (b c)` whenever
/// the inner dimensions agree. Entries are mathematical integers, so the
/// equality is exact.
pub proof fn lemma_mul_assoc(a: GMat, b: GMat, c: GMat)
    requires
        a.wf(),
        b.wf(),
        c.wf(),
        a.cols == b.rows,
        b.cols == c.rows,
    ensures
        gmul(gmul(a, b), c) == gmul(a, gmul(b, c)),
{
    let ab = gmul(a, b);
    let bc = gmul(b, c);
    let n = a.cols as int;
    let p = b.cols as int;
    assert forall|i: int, l: int|
        0 <= i < a.rows && 0 <= l < c.cols
            implies #[trigger] gmul(ab, c).ent(i, l) == gmul(a, bc).ent(i, l) by {
        assert(gmul(ab, c).ent(i, l) == mul_partial(ab, c, i, l, p));
        lemma_left_expand(a, b, c, i, l, p);
        lemma_left_grid(a, b, c, i, l, p);
        lemma_grid_swap(a, b, c, i, l, p, n);
        lemma_right_grid(a, b, c, i, l, n);
        lemma_right_expand(a, b, c, i, l, n);
        assert(gmul(a, bc).ent(i, l) == mul_partial(a, bc, i, l, n));
    }
    lemma_gmat_eq(gmul(ab, c), gmul(a, bc));
}

/// One term of the expanded triple product: `a(i,k) b(k,j) c(j,l)`.
spec fn cross(a: GMat, b: GMat, c: GMat, i: int, l: int, j: int, k: int) -> int {
    (a.ent(i, k) * b.ent(k, j)) * c.ent(j, l)
}

/// The sum of `cross` over `k < m`, at a fixed `j`.
spec fn row_sum(a: GMat, b: GMat, c: GMat, i: int, l: int, j: int, m: int) -> int
    decreases m,
{
    if m <= 0 {
        0
    } else {
        row_sum(a, b, c, i, l, j, m - 1) + cross(a, b, c, i, l, j, m - 1)
    }
}

/// The sum of `cross` over `j < m`, at a fixed `k`.
spec fn col_sum(a: GMat, b: GMat, c: GMat, i: int, l: int, k: int, m: int) -> int
    decreases m,
{
    if m <= 0 {
        0
    } else {
        col_sum(a, b, c, i, l, k, m - 1) + cross(a, b, c, i, l, m - 1, k)
    }
}

/// The sum of the entries of `a b` against column `l` of `c`, over `j < m`.
spec fn left_partial(a: GMat, b: GMat, c: GMat, i: int, l: int, m: int) -> int
    decreases m,
{
    if m <= 0 {
        0
    } else {
        left_partial(a, b, c, i, l, m - 1)
            + mul_partial(a, b, i, m - 1, a.cols as int) * c.ent(m - 1, l)
    }
}

/// The sum of row `i` of `a` against the entries of `b c`, over `k < m`.
spec fn right_partial(a: GMat, b: GMat, c: GMat, i: int, l: int, m: int) -> int
    decreases m,
{
    if m <= 0 {
        0
    } else {
        right_partial(a, b, c, i, l, m - 1)
            + a.ent(i, m - 1) * mul_partial(b, c, m - 1, l, b.cols as int)
    }
}

/// The double sum of `cross`, summing rows first: `j < mj`, then `k < mk`.
spec fn row_grid(a: GMat, b: GMat, c: GMat, i: int, l: int, mj: int, mk: int) -> int
    decreases mj,
{
    if mj <= 0 {
        0
    } else {
        row_grid(a, b, c, i, l, mj - 1, mk) + row_sum(a, b, c, i, l, mj - 1, mk)
    }
}

/// The double sum of `cross`, summing columns first: `k < mk`, then `j < mj`.
spec fn col_grid(a: GMat, b: GMat, c: GMat, i: int, l: int, mk: int, mj: int) -> int
    decreases mk,
{
    if mk <= 0 {
        0
    } else {
        col_grid(a, b, c, i, l, mk - 1, mj) + col_sum(a, b, c, i, l, mk - 1, mj)
    }
}

/// A prefix of an entry of `(a b) c` is the corresponding `left_partial`.
proof fn lemma_left_expand(a: GMat, b: GMat, c: GMat, i: int, l: int, m: int)
    requires
        a.wf(),
        b.wf(),
        0 <= i < a.rows,
        m <= b.cols,
    ensures
        mul_partial(gmul(a, b), c, i, l, m) == left_partial(a, b, c, i, l, m),
    decreases m,
{
    if m > 0 {
        lemma_left_expand(a, b, c, i, l, m - 1);
        assert(gmul(a, b).ent(i, m - 1) == mul_partial(a, b, i, m - 1, a.cols as int));
    }
}

/// A prefix of an entry of `a (b c)` is the corresponding `right_partial`.
proof fn lemma_right_expand(a: GMat, b: GMat, c: GMat, i: int, l: int, m: int)
    requires
        b.wf(),
        c.wf(),
        a.cols == b.rows,
        0 <= l < c.cols,
        m <= a.cols,
    ensures
        mul_partial(a, gmul(b, c), i, l, m) == right_partial(a, b, c, i, l, m),
    decreases m,
{
    if m > 0 {
        lemma_right_expand(a, b, c, i, l, m - 1);
        assert(gmul(b, c).ent(m - 1, l) == mul_partial(b, c, m - 1, l, b.cols as int));
    }
}

/// A product entry of `a b` times an entry of `c` distributes into a sum of
/// `cross` terms.
proof fn lemma_row_distrib(a: GMat, b: GMat, c: GMat, i: int, l: int, j: int, m: int)
    ensures
        mul_partial(a, b, i, j, m) * c.ent(j, l) == row_sum(a, b, c, i, l, j, m),
    decreases m,
{
    if m <= 0 {
    } else {
        lemma_row_distrib(a, b, c, i, l, j, m - 1);
        let s = mul_partial(a, b, i, j, m - 1);
        let y = a.ent(i, m - 1) * b.ent(m - 1, j);
        let cc = c.ent(j, l);
        assert((s + y) * cc == s * cc + y * cc) by (nonlinear_arith);
    }
}

/// An entry of `a` times a product entry of `b c` distributes into a sum of
/// `cross` terms.
proof fn lemma_col_distrib(a: GMat, b: GMat, c: GMat, i: int, l: int, k: int, m: int)
    ensures
        a.ent(i, k) * mul_partial(b, c, k, l, m) == col_sum(a, b, c, i, l, k, m),
    decreases m,
{
    if m <= 0 {
    } else {
        lemma_col_distrib(a, b, c, i, l, k, m - 1);
        let x = a.ent(i, k);
        let s = mul_partial(b, c, k, l, m - 1);
        let bb = b.ent(k, m - 1);
        let cc = c.ent(m - 1, l);
        assert(x * (s + bb * cc) == x * s + (x * bb) * cc) by (nonlinear_arith);
    }
}

/// `left_partial` is the row-first double sum.
proof fn lemma_left_grid(a: GMat, b: GMat, c: GMat, i: int, l: int, m: int)
    ensures
        left_partial(a, b, c, i, l, m) == row_grid(a, b, c, i, l, m, a.cols as int),
    decreases m,
{
    if m > 0 {
        lemma_left_grid(a, b, c, i, l, m - 1);
        lemma_row_distrib(a, b, c, i, l, m - 1, a.cols as int);
    }
}

/// `right_partial` is the column-first double sum.
proof fn lemma_right_grid(a: GMat, b: GMat, c: GMat, i: int, l: int, m: int)
    ensures
        right_partial(a, b, c, i, l, m) == col_grid(a, b, c, i, l, m, b.cols as int),
    decreases m,
{
    if m > 0 {
        lemma_right_grid(a, b, c, i, l, m - 1);
        lemma_col_distrib(a, b, c, i, l, m - 1, b.cols as int);
    }
}

/// Adding the row at `j = mj - 1` to the column-first double sum.
proof fn lemma_col_grid_step(a: GMat, b: GMat, c: GMat, i: int, l: int, mk: int, mj: int)
    requires
        mj > 0,
    ensures
        col_grid(a, b, c, i, l, mk, mj)
            == col_grid(a, b, c, i, l, mk, mj - 1) + row_sum(a, b, c, i, l, mj - 1, mk),
    decreases mk,
{
    if mk > 0 {
        lemma_col_grid_step(a, b, c, i, l, mk - 1, mj);
    }
}

/// Exchanging the order of the double sum: rows first equals columns first.
proof fn lemma_grid_swap(a: GMat, b: GMat, c: GMat, i: int, l: int, mj: int, mk: int)
    ensures
        row_grid(a, b, c, i, l, mj, mk) == col_grid(a, b, c, i, l, mk, mj),
    decreases mj,
{
    if mj <= 0 {
        lemma_col_grid_zero(a, b, c, i, l, mk, mj);
    } else {
        lemma_grid_swap(a, b, c, i, l, mj - 1, mk);
        lemma_col_grid_step(a, b, c, i, l, mk, mj);
    }
}

/// The column-first double sum over no rows is zero.
proof fn lemma_col_grid_zero(a: GMat, b: GMat, c: GMat, i: int, l: int, mk: int, mj: int)
    requires
        mj <= 0,
    ensures
        col_grid(a, b, c, i, l, mk, mj) == 0,
    decreases mk,
{
    if mk > 0 {
        lemma_col_grid_zero(a, b, c, i, l, mk - 1, mj);
    }
}

/// Two well-formed grids of the same shape with the same entries are equal.
pub proof fn lemma_gmat_eq(x: GMat, y: GMat)
    requires
        x.wf(),
        y.wf(),
        x.rows == y.rows,
        x.cols == y.cols,
        forall|i: int, j: int|
            0 <= i < x.rows && 0 <= j < x.cols ==> #[trigger] x.ent(i, j) == y.ent(i, j),
    ensures
        x == y,
{
    assert forall|i: int| 0 <= i < x.rows implies x.grid[i] =~= y.grid[i] by {
        assert forall|j: int| 0 <= j < x.cols implies x.grid[i][j] == y.grid[i][j] by {
            assert(x.ent(i, j) == y.ent(i, j));
        }
    }
    assert(x.grid =~= y.grid);
    assert(x =~= y);
}

} // verus!
