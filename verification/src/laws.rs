//! Laws the basis engine obeys, stated and proved over the apply
//! specification itself.

use vstd::prelude::*;
use crate::basis::{
    apply_out, fwd_out, spec_in_len, spec_out_len, tr_out, BasisModel, EvalMode,
    TransposeMode,
};
use crate::contract::{
    fwd_wsum, gdot, lemma_block_adjoint, lemma_gdot_split, mv_row, mvt_col, tr_wsum,
};

verus! {

/// The inner product of `y` with one block of the forward output equals the
/// weighted row sum of that block.
proof fn lemma_fwd_block_ip(mat: Seq<int>, rows: nat, cols: nat, nblk: nat, x: Seq<int>, y: Seq<int>, blk: int, n: nat)
    requires
        0 <= blk < nblk,
        n <= rows,
        y.len() == nblk * rows,
    ensures
        gdot(y, blk * rows, 1, fwd_out(mat, rows, cols, nblk, x), blk * rows, 1, n)
            == fwd_wsum(mat, cols, x, blk * cols, y, blk * rows, n),
    decreases n,
{
    if n > 0 {
        lemma_fwd_block_ip(mat, rows, cols, nblk, x, y, blk, (n - 1) as nat);
        let k = blk * rows + (n - 1);
        assert(blk * rows + (n - 1) * 1 == k);
        assert(0 <= k < nblk * rows) by (nonlinear_arith)
            requires k == blk * rows + (n - 1), 0 <= blk < nblk, 0 <= n - 1 < rows;
        assert(fwd_out(mat, rows, cols, nblk, x)[k]
            == mv_row(mat, cols, x, (k / rows as int) * cols as int, k % rows as int));
        vstd::arithmetic::div_mod::lemma_fundamental_div_mod_converse(
            k, rows as int, blk, n - 1);
        assert((k / rows as int) * cols as int == blk * cols as int);
        assert(blk * cols as int == (blk * cols) as int);
    }
}

/// The inner product of one block of the transpose output with `x` equals
/// the weighted column sum of that block.
proof fn lemma_tr_block_ip(mat: Seq<int>, rows: nat, cols: nat, nblk: nat, x: Seq<int>, y: Seq<int>, blk: int, n: nat)
    requires
        0 <= blk < nblk,
        n <= cols,
        x.len() == nblk * cols,
    ensures
        gdot(tr_out(mat, rows, cols, nblk, y), blk * cols, 1, x, blk * cols, 1, n)
            == tr_wsum(mat, cols, rows, x, blk * cols, y, blk * rows, n),
    decreases n,
{
    if n > 0 {
        lemma_tr_block_ip(mat, rows, cols, nblk, x, y, blk, (n - 1) as nat);
        let k = blk * cols + (n - 1);
        assert(blk * cols + (n - 1) * 1 == k);
        assert(0 <= k < nblk * cols) by (nonlinear_arith)
            requires k == blk * cols + (n - 1), 0 <= blk < nblk, 0 <= n - 1 < cols;
        assert(tr_out(mat, rows, cols, nblk, y)[k]
            == mvt_col(mat, cols, rows, y, (k / cols as int) * rows as int, k % cols as int));
        vstd::arithmetic::div_mod::lemma_fundamental_div_mod_converse(
            k, cols as int, blk, n - 1);
        assert((k / cols as int) * rows as int == blk * rows as int);
        assert(blk * rows as int == (blk * rows) as int);
    }
}

/// The adjoint identity over the first `b` blocks.
proof fn lemma_blocks_adjoint(mat: Seq<int>, rows: nat, cols: nat, nblk: nat, x: Seq<int>, y: Seq<int>, b: nat)
    requires
        b <= nblk,
        x.len() == nblk * cols,
        y.len() == nblk * rows,
    ensures
        gdot(y, 0, 1, fwd_out(mat, rows, cols, nblk, x), 0, 1, (b * rows) as nat)
            == gdot(tr_out(mat, rows, cols, nblk, y), 0, 1, x, 0, 1, (b * cols) as nat),
    decreases b,
{
    if b > 0 {
        let bp = (b - 1) as nat;
        lemma_blocks_adjoint(mat, rows, cols, nblk, x, y, bp);
        assert(b * rows == bp * rows + rows && b * cols == bp * cols + cols)
            by (nonlinear_arith)
            requires b == bp + 1;
        let fo = fwd_out(mat, rows, cols, nblk, x);
        let to = tr_out(mat, rows, cols, nblk, y);
        lemma_gdot_split(y, 0, fo, 0, (bp * rows) as nat, rows);
        lemma_gdot_split(to, 0, x, 0, (bp * cols) as nat, cols);
        assert(0 + (bp * rows) as nat == (bp * rows) as int);
        lemma_fwd_block_ip(mat, rows, cols, nblk, x, y, bp as int, rows);
        lemma_tr_block_ip(mat, rows, cols, nblk, x, y, bp as int, cols);
        lemma_block_adjoint(mat, cols, x, (bp as int) * (cols as int), y,
            (bp as int) * (rows as int), rows);
        assert((bp as int) * (rows as int) == (bp * rows) as int);
        assert((bp as int) * (cols as int) == (bp * cols) as int);
        assert(gdot(y, 0, 1, fo, 0, 1, (b * rows) as nat)
            == gdot(y, 0, 1, fo, 0, 1, (bp * rows) as nat)
                + gdot(y, (bp * rows) as int, 1, fo, (bp * rows) as int, 1, rows)) by {
            assert((b * rows) as nat == (bp * rows) as nat + rows);
            assert(0 + (bp * rows) as int == (bp * rows) as int);
        }
        assert(gdot(to, 0, 1, x, 0, 1, (b * cols) as nat)
            == gdot(to, 0, 1, x, 0, 1, (bp * cols) as nat)
                + gdot(to, (bp * cols) as int, 1, x, (bp * cols) as int, 1, cols)) by {
            assert((b * cols) as nat == (bp * cols) as nat + cols);
            assert(0 + (bp * cols) as int == (bp * cols) as int);
        }
        assert(gdot(y, (bp * rows) as int, 1, fo, (bp * rows) as int, 1, rows)
            == fwd_wsum(mat, cols, x, (bp as int) * (cols as int), y,
                (bp as int) * (rows as int), rows));
        assert(gdot(to, (bp * cols) as int, 1, x, (bp * cols) as int, 1, cols)
            == tr_wsum(mat, cols, rows, x, (bp as int) * (cols as int), y,
                (bp as int) * (rows as int), cols));
        assert(gdot(y, 0, 1, fo, 0, 1, (b * rows) as nat)
            == gdot(to, 0, 1, x, 0, 1, (b * cols) as nat));
    } else {
        assert((b * rows) as nat == 0 && (b * cols) as nat == 0);
    }
}

/// The transpose mode of a general basis applies the exact adjoint of the
/// forward operator: for all elements, components and both of
/// interpolation and gradients, the inner product of a quadrature-space
/// vector `y` with the forward output of a node-space vector `x` equals the
/// inner product of the transpose output of `y` with `x`.
pub proof fn lemma_dense_apply_adjoint(m: BasisModel, nelem: nat, emode: EvalMode, x: Seq<int>, y: Seq<int>)
    requires
        m.wf(),
        !m.tensor,
        emode is Interp || emode is Grad,
        x.len() == spec_in_len(m, nelem, TransposeMode::NoTranspose, emode),
        y.len() == spec_out_len(m, nelem, TransposeMode::NoTranspose, emode),
    ensures
        gdot(y, 0, 1, apply_out(m, nelem, TransposeMode::NoTranspose, emode, x), 0, 1,
            y.len())
            == gdot(apply_out(m, nelem, TransposeMode::Transpose, emode, y), 0, 1, x, 0, 1,
                x.len()),
{
    let nblk = (nelem * m.ncomp) as nat;
    let cols = m.nnodes;
    let rows: nat = if emode is Grad { (m.dim * m.nqpts) as nat } else { m.nqpts };
    assert(nelem * m.ncomp * m.nnodes == nblk * cols) by (nonlinear_arith)
        requires nblk == nelem * m.ncomp, cols == m.nnodes;
    if emode is Grad {
        assert(nelem * m.ncomp * m.dim * m.nqpts == nblk * rows) by (nonlinear_arith)
            requires nblk == nelem * m.ncomp, rows == m.dim * m.nqpts;
    } else {
        assert(nelem * m.ncomp * m.nqpts == nblk * rows) by (nonlinear_arith)
            requires nblk == nelem * m.ncomp, rows == m.nqpts;
    }
    assert(x.len() == nblk * cols && y.len() == nblk * rows);
    let mat = if emode is Grad { m.grad } else { m.interp };
    lemma_blocks_adjoint(mat, rows, cols, nblk, x, y, nblk);
    assert(apply_out(m, nelem, TransposeMode::NoTranspose, emode, x)
        == fwd_out(mat, rows, cols, nblk, x));
    assert(apply_out(m, nelem, TransposeMode::Transpose, emode, y)
        == tr_out(mat, rows, cols, nblk, y));
}

/// Construction is deterministic: two bases whose models hold the same
/// shape parameters and the same matrices produce identical apply outputs
/// for identical inputs — the output is a function of the construction
/// inputs and of nothing else.
pub proof fn lemma_apply_deterministic(
    m1: BasisModel, m2: BasisModel, nelem: nat, tmode: TransposeMode, emode: EvalMode, u: Seq<int>,
)
    requires
        m1.dim == m2.dim,
        m1.ncomp == m2.ncomp,
        m1.tensor == m2.tensor,
        m1.p1d == m2.p1d,
        m1.q1d == m2.q1d,
        m1.nnodes == m2.nnodes,
        m1.nqpts == m2.nqpts,
        m1.topo == m2.topo,
        m1.interp == m2.interp,
        m1.grad == m2.grad,
        m1.qref == m2.qref,
        m1.qweight == m2.qweight,
        m1.wfull == m2.wfull,
    ensures
        apply_out(m1, nelem, tmode, emode, u) == apply_out(m2, nelem, tmode, emode, u),
{
    assert(m1 =~= m2);
}

/// The sum of the entries of `mat` at `off`, `off + 1`, ...
pub open spec fn row_sum(mat: Seq<int>, off: int, n: nat) -> int
    decreases n,
{
    if n == 0 {
        0
    } else {
        row_sum(mat, off, (n - 1) as nat) + mat[off + n - 1]
    }
}

/// A dot product against a constant vector is the constant times the sum of
/// the matrix row.
proof fn lemma_gdot_const(mat: Seq<int>, moff: int, x: Seq<int>, xoff: int, c: int, n: nat)
    requires
        forall|j: int| 0 <= j < n ==> #[trigger] x[xoff + j] == c,
    ensures
        gdot(mat, moff, 1, x, xoff, 1, n) == c * row_sum(mat, moff, n),
    decreases n,
{
    if n > 0 {
        lemma_gdot_const(mat, moff, x, xoff, c, (n - 1) as nat);
        assert(moff + (n - 1) * 1 == moff + n - 1);
        assert(xoff + (n - 1) * 1 == xoff + n - 1);
        assert(c * (row_sum(mat, moff, (n - 1) as nat) + mat[moff + n - 1])
            == c * row_sum(mat, moff, (n - 1) as nat) + mat[moff + n - 1] * c)
            by (nonlinear_arith);
    }
}

/// A dot product against an affine vector splits into the constant part and
/// the node-coordinate part.
proof fn lemma_gdot_affine(mat: Seq<int>, moff: int, u: Seq<int>, uoff: int, xs: Seq<int>, a: int, b: int, n: nat)
    requires
        n <= xs.len(),
        forall|j: int| 0 <= j < n ==> #[trigger] u[uoff + j] == a + b * xs[j],
    ensures
        gdot(mat, moff, 1, u, uoff, 1, n)
            == a * row_sum(mat, moff, n) + b * gdot(mat, moff, 1, xs, 0, 1, n),
    decreases n,
{
    if n > 0 {
        lemma_gdot_affine(mat, moff, u, uoff, xs, a, b, (n - 1) as nat);
        assert(moff + (n - 1) * 1 == moff + n - 1);
        assert(uoff + (n - 1) * 1 == uoff + n - 1);
        assert(0 + (n - 1) * 1 == n - 1);
        let e = mat[moff + n - 1];
        let rs = row_sum(mat, moff, (n - 1) as nat);
        let gx = gdot(mat, moff, 1, xs, 0, 1, (n - 1) as nat);
        assert((a * rs + b * gx) + e * (a + b * xs[n - 1])
            == a * (rs + e) + b * (gx + e * xs[n - 1])) by (nonlinear_arith);
    }
}

/// Exactness of interpolation for polynomials of degree below two, on a
/// general basis: where every row `i` of the interpolation matrix sums to
/// the scale `s` and reproduces the node coordinates (the row applied to
/// the node-coordinate vector gives `s` times the `i`-th quadrature
/// coordinate), the field `a + b * x` interpolates to `s * (a + b * q_i)`
/// at quadrature point `i` of every element: the polynomial's exact value,
/// in fixed point.
pub proof fn lemma_dense_interp_linear(
    m: BasisModel, nelem: nat, u: Seq<int>, xs: Seq<int>, qs: Seq<int>, a: int, b: int, s: int,
)
    requires
        m.wf(),
        !m.tensor,
        xs.len() == m.nnodes,
        qs.len() == m.nqpts,
        u.len() == spec_in_len(m, nelem, TransposeMode::NoTranspose, EvalMode::Interp),
        forall|k: int| 0 <= k < u.len()
            ==> #[trigger] u[k] == a + b * xs[k % (m.nnodes as int)],
        forall|i: int| 0 <= i < m.nqpts
            ==> #[trigger] row_sum(m.interp, i * (m.nnodes as int), m.nnodes) == s,
        forall|i: int| 0 <= i < m.nqpts
            ==> #[trigger] gdot(m.interp, i * (m.nnodes as int), 1, xs, 0, 1, m.nnodes)
                == s * qs[i],
    ensures
        forall|k: int| 0 <= k < spec_out_len(m, nelem, TransposeMode::NoTranspose, EvalMode::Interp)
            ==> #[trigger] apply_out(m, nelem, TransposeMode::NoTranspose, EvalMode::Interp, u)[k]
                == s * (a + b * qs[k % (m.nqpts as int)]),
{
    let nblk = (nelem * m.ncomp) as nat;
    let rows = m.nqpts;
    let cols = m.nnodes;
    assert(u.len() == nblk * cols && spec_out_len(m, nelem, TransposeMode::NoTranspose,
        EvalMode::Interp) == (nblk * rows) as int) by (nonlinear_arith)
        requires
            nblk == nelem * m.ncomp,
            cols == m.nnodes,
            rows == m.nqpts,
            u.len() == nelem * m.ncomp * m.nnodes,
            spec_out_len(m, nelem, TransposeMode::NoTranspose, EvalMode::Interp)
                == (nelem * m.ncomp * m.nqpts) as int;
    let outs = apply_out(m, nelem, TransposeMode::NoTranspose, EvalMode::Interp, u);
    assert forall|k: int| 0 <= k < (nblk * rows) as int
        implies #[trigger] outs[k] == s * (a + b * qs[k % rows as int]) by {
        let blk = k / rows as int;
        let i = k % rows as int;
        vstd::arithmetic::div_mod::lemma_fundamental_div_mod(k, rows as int);
        assert(0 <= blk < nblk && 0 <= i < rows) by (nonlinear_arith)
            requires
                k == rows * blk + i,
                0 <= i < rows,
                0 <= k < nblk * rows;
        assert(outs[k] == mv_row(m.interp, cols, u, blk * cols as int, i));
        assert(0 <= blk * cols as int && blk * cols as int + cols <= nblk * cols)
            by (nonlinear_arith)
            requires 0 <= blk < nblk, cols >= 0;
        assert forall|j: int| 0 <= j < cols
            implies #[trigger] u[blk * cols as int + j] == a + b * xs[j] by {
            assert(0 <= blk * cols as int + j < nblk * cols) by (nonlinear_arith)
                requires 0 <= blk * cols as int, blk * cols as int + cols <= nblk * cols,
                    0 <= j < cols;
            vstd::arithmetic::div_mod::lemma_fundamental_div_mod_converse(
                blk * cols as int + j, cols as int, blk, j);
        }
        lemma_gdot_affine(m.interp, i * cols as int, u, blk * cols as int, xs, a, b, cols);
        assert(a * row_sum(m.interp, i * cols as int, cols)
            + b * gdot(m.interp, i * cols as int, 1, xs, 0, 1, cols)
            == a * s + b * (s * qs[i])) by {
            assert(row_sum(m.interp, i * (m.nnodes as int), m.nnodes) == s);
        }
        assert(a * s + b * (s * qs[i]) == s * (a + b * qs[i])) by (nonlinear_arith);
    }
}

/// Exactness of interpolation for degree-zero polynomials, on a general
/// basis: where every row of the interpolation matrix sums to the scale
/// `s` (the fixed-point partition of unity of a Lagrange basis), a
/// constant field `c` interpolates to `c * s` at every quadrature point of
/// every element.
pub proof fn lemma_dense_interp_constant(m: BasisModel, nelem: nat, u: Seq<int>, c: int, s: int)
    requires
        m.wf(),
        !m.tensor,
        u.len() == spec_in_len(m, nelem, TransposeMode::NoTranspose, EvalMode::Interp),
        forall|j: int| 0 <= j < u.len() ==> #[trigger] u[j] == c,
        forall|i: int| 0 <= i < m.nqpts
            ==> #[trigger] row_sum(m.interp, i * (m.nnodes as int), m.nnodes) == s,
    ensures
        forall|k: int| 0 <= k < spec_out_len(m, nelem, TransposeMode::NoTranspose, EvalMode::Interp)
            ==> #[trigger] apply_out(m, nelem, TransposeMode::NoTranspose, EvalMode::Interp, u)[k]
                == c * s,
{
    let nblk = (nelem * m.ncomp) as nat;
    let rows = m.nqpts;
    let cols = m.nnodes;
    assert(u.len() == nblk * cols && spec_out_len(m, nelem, TransposeMode::NoTranspose,
        EvalMode::Interp) == (nblk * rows) as int) by (nonlinear_arith)
        requires
            nblk == nelem * m.ncomp,
            cols == m.nnodes,
            rows == m.nqpts,
            u.len() == nelem * m.ncomp * m.nnodes,
            spec_out_len(m, nelem, TransposeMode::NoTranspose, EvalMode::Interp)
                == (nelem * m.ncomp * m.nqpts) as int;
    let outs = apply_out(m, nelem, TransposeMode::NoTranspose, EvalMode::Interp, u);
    assert forall|k: int| 0 <= k < (nblk * rows) as int
        implies #[trigger] outs[k] == c * s by {
        let blk = k / rows as int;
        let i = k % rows as int;
        vstd::arithmetic::div_mod::lemma_fundamental_div_mod(k, rows as int);
        assert(0 <= blk < nblk && 0 <= i < rows) by (nonlinear_arith)
            requires
                k == blk * rows + i,
                0 <= i < rows,
                0 <= k < nblk * rows;
        assert(outs[k] == mv_row(m.interp, cols, u, blk * cols as int, i));
        assert(0 <= blk * cols as int && blk * cols as int + cols <= nblk * cols)
            by (nonlinear_arith)
            requires 0 <= blk < nblk, cols >= 0;
        assert forall|j: int| 0 <= j < cols
            implies #[trigger] u[blk * cols as int + j] == c by {
            assert(0 <= blk * cols as int + j < nblk * cols) by (nonlinear_arith)
                requires 0 <= blk * cols as int, blk * cols as int + cols <= nblk * cols,
                    0 <= j < cols;
        }
        lemma_gdot_const(m.interp, i * cols as int, u, blk * cols as int, c, cols);
    }
}

} // verus!
