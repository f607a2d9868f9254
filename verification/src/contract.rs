//! Strided dot products and dense matrix contraction.
//!
//! Everything a basis applies reduces to one spec function, `gdot`: the sum
//! of `n` products read from two sequences at given offsets and strides.
//! Rows of a matrix, columns of a matrix (for the transpose) and the axis
//! contractions of tensor-product bases are all instances. The lemmas here
//! bound such sums (so the executable code stays inside `i128`) and exchange
//! the order of a double sum (the adjoint property of the transpose).

use vstd::prelude::*;

verus! {

/// Every partial and final contraction sum is kept strictly below this cap,
/// which leaves headroom inside `i128`.
pub const SUM_CAP: i128 = 21_267_647_932_558_653_966_460_912_964_485_513_216;

/// A buffer of machine integers, viewed as unbounded integers.
pub open spec fn as_ints(s: Seq<i128>) -> Seq<int> {
    Seq::new(s.len(), |i: int| s[i] as int)
}

/// `x` lies in the closed interval `[-c, c]`.
pub open spec fn abs_le(x: int, c: int) -> bool {
    -c <= x && x <= c
}

/// Every entry of `s` lies in `[-c, c]`.
pub open spec fn all_bounded(s: Seq<int>, c: int) -> bool {
    forall|i: int| 0 <= i < s.len() ==> abs_le(#[trigger] s[i], c)
}

/// Strided dot product: the sum over `j < n` of
/// `a[aoff + j * astr] * b[boff + j * bstr]`.
pub open spec fn gdot(a: Seq<int>, aoff: int, astr: int, b: Seq<int>, boff: int, bstr: int, n: nat) -> int
    decreases n,
{
    if n == 0 {
        0
    } else {
        gdot(a, aoff, astr, b, boff, bstr, (n - 1) as nat)
            + a[aoff + (n - 1) * astr] * b[boff + (n - 1) * bstr]
    }
}

/// A contiguous dot product splits at any point.
pub proof fn lemma_gdot_split(a: Seq<int>, aoff: int, b: Seq<int>, boff: int, n: nat, m: nat)
    ensures
        gdot(a, aoff, 1, b, boff, 1, n + m)
            == gdot(a, aoff, 1, b, boff, 1, n) + gdot(a, aoff + n, 1, b, boff + n, 1, m),
    decreases m,
{
    if m > 0 {
        lemma_gdot_split(a, aoff, b, boff, n, (m - 1) as nat);
        assert((n + m - 1) * 1 == n + m - 1);
        assert((m - 1) * 1 == m - 1);
    }
}

/// Row `i` of the matrix applied to the block of `x` that starts at `xoff`:
/// the forward contraction entry.
pub open spec fn mv_row(m: Seq<int>, cols: nat, x: Seq<int>, xoff: int, i: int) -> int {
    gdot(m, i * (cols as int), 1, x, xoff, 1, cols)
}

/// Column `j` of the matrix (over its first `rows` rows) applied to the block
/// of `y` that starts at `yoff`: the transpose contraction entry.
pub open spec fn mvt_col(m: Seq<int>, cols: nat, rows: nat, y: Seq<int>, yoff: int, j: int) -> int {
    gdot(m, j, cols as int, y, yoff, 1, rows)
}

/// The sum over `i < r` of `y[yoff + i] * mv_row(.., i)`: the inner product
/// of `y` with the forward output of one block.
pub open spec fn fwd_wsum(m: Seq<int>, cols: nat, x: Seq<int>, xoff: int, y: Seq<int>, yoff: int, r: nat) -> int
    decreases r,
{
    if r == 0 {
        0
    } else {
        fwd_wsum(m, cols, x, xoff, y, yoff, (r - 1) as nat)
            + y[yoff + r - 1] * mv_row(m, cols, x, xoff, r - 1)
    }
}

/// The sum over `j < c` of `mvt_col(.., j) * x[xoff + j]`: the inner product
/// of the transpose output of one block with `x`.
pub open spec fn tr_wsum(m: Seq<int>, cols: nat, rows: nat, x: Seq<int>, xoff: int, y: Seq<int>, yoff: int, c: nat) -> int
    decreases c,
{
    if c == 0 {
        0
    } else {
        tr_wsum(m, cols, rows, x, xoff, y, yoff, (c - 1) as nat)
            + mvt_col(m, cols, rows, y, yoff, c - 1) * x[xoff + c - 1]
    }
}

/// Adding one matrix row to a transpose-side weighted sum adds that row's
/// forward contraction, weighted by the matching entry of `y`.
proof fn lemma_tr_wsum_row(m: Seq<int>, cols: nat, rows: nat, x: Seq<int>, xoff: int, y: Seq<int>, yoff: int, c: nat)
    requires
        c <= cols,
    ensures
        tr_wsum(m, cols, rows + 1, x, xoff, y, yoff, c)
            == tr_wsum(m, cols, rows, x, xoff, y, yoff, c)
                + y[yoff + rows as int] * gdot(m, (rows * cols) as int, 1, x, xoff, 1, c),
    decreases c,
{
    if c > 0 {
        lemma_tr_wsum_row(m, cols, rows, x, xoff, y, yoff, (c - 1) as nat);
        let j = c - 1;
        let yr = y[yoff + rows as int];
        let g = gdot(m, j, cols as int, y, yoff, 1, rows);
        let e = m[j + (rows * cols) as int];
        assert(mvt_col(m, cols, rows + 1, y, yoff, j) == g + e * yr) by {
            assert((rows * cols) as int + j == j + (rows * cols) as int);
        }
        assert((g + e * yr) * x[xoff + j] == g * x[xoff + j] + yr * (e * x[xoff + j]))
            by (nonlinear_arith);
        assert(gdot(m, (rows * cols) as int, 1, x, xoff, 1, c)
            == gdot(m, (rows * cols) as int, 1, x, xoff, 1, (c - 1) as nat) + e * x[xoff + j]) by {
            assert((rows * cols) as int + (c - 1) * 1 == j + (rows * cols) as int);
        }
        assert(yr * (gdot(m, (rows * cols) as int, 1, x, xoff, 1, (c - 1) as nat) + e * x[xoff + j])
            == yr * gdot(m, (rows * cols) as int, 1, x, xoff, 1, (c - 1) as nat) + yr * (e * x[xoff + j]))
            by (nonlinear_arith);
    }
}

/// Exchanging the order of summation: the inner product of `y` with the
/// forward output equals the inner product of the transpose output with `x`.
/// This is the adjoint property of one matrix block.
pub proof fn lemma_block_adjoint(m: Seq<int>, cols: nat, x: Seq<int>, xoff: int, y: Seq<int>, yoff: int, r: nat)
    ensures
        fwd_wsum(m, cols, x, xoff, y, yoff, r) == tr_wsum(m, cols, r, x, xoff, y, yoff, cols),
    decreases r,
{
    if r == 0 {
        lemma_tr_wsum_zero(m, cols, x, xoff, y, yoff, cols);
    } else {
        lemma_block_adjoint(m, cols, x, xoff, y, yoff, (r - 1) as nat);
        lemma_tr_wsum_row(m, cols, (r - 1) as nat, x, xoff, y, yoff, cols);
    }
}

/// A transpose-side weighted sum over zero rows vanishes.
proof fn lemma_tr_wsum_zero(m: Seq<int>, cols: nat, x: Seq<int>, xoff: int, y: Seq<int>, yoff: int, c: nat)
    ensures
        tr_wsum(m, cols, 0, x, xoff, y, yoff, c) == 0,
    decreases c,
{
    if c > 0 {
        lemma_tr_wsum_zero(m, cols, x, xoff, y, yoff, (c - 1) as nat);
    }
}

/// Apply the `rows x cols` matrix `m` to the `cols` entries of `x` starting
/// at `xoff`, writing the `rows` results into `out` starting at `ooff`.
/// `cm` and `cx` bound the magnitudes of the matrix entries and the inputs.
pub(crate) fn dense_block_fwd(
    m: &Vec<i128>, rows: usize, cols: usize,
    x: &Vec<i128>, xoff: usize,
    out: &mut Vec<i128>, ooff: usize,
    Ghost(cm): Ghost<int>, Ghost(cx): Ghost<int>,
)
    requires
        m@.len() == rows * cols,
        xoff + cols <= x@.len(),
        ooff + rows <= old(out)@.len(),
        all_bounded(as_ints(m@), cm),
        all_bounded(as_ints(x@), cx),
        cm >= 0,
        cx >= 0,
        cols * cm * cx < SUM_CAP,
    ensures
        final(out)@.len() == old(out)@.len(),
        forall|i: int| 0 <= i < rows
            ==> final(out)@[ooff + i] as int
                == mv_row(as_ints(m@), cols as nat, as_ints(x@), xoff as int, i),
        forall|i: int| 0 <= i < rows
            ==> abs_le(#[trigger] final(out)@[ooff + i] as int, cols * cm * cx),
        forall|k: int| 0 <= k < old(out)@.len() && !(ooff <= k < ooff + rows)
            ==> final(out)@[k] == old(out)@[k],
{
    let ghost mi = as_ints(m@);
    let ghost xi = as_ints(x@);
    let m_total: usize = m.len();
    let x_total: usize = x.len();
    let out_total: usize = out.len();
    proof {
        assert(rows * cols <= usize::MAX);
        assert(x@.len() <= usize::MAX);
        assert(out@.len() <= usize::MAX);
    }
    let mut i: usize = 0;
    while i < rows
        invariant
            i <= rows,
            rows * cols <= usize::MAX,
            x@.len() <= usize::MAX,
            out@.len() <= usize::MAX,
            m@.len() == rows * cols,
            xoff + cols <= x@.len(),
            ooff + rows <= out@.len(),
            out@.len() == old(out)@.len(),
            all_bounded(mi, cm),
            all_bounded(xi, cx),
            cm >= 0,
            cx >= 0,
            cols * cm * cx < SUM_CAP,
            mi == as_ints(m@),
            xi == as_ints(x@),
            forall|t: int| 0 <= t < i
                ==> out@[ooff + t] as int == mv_row(mi, cols as nat, xi, xoff as int, t),
            forall|t: int| 0 <= t < i
                ==> abs_le(#[trigger] out@[ooff + t] as int, cols * cm * cx),
            forall|k: int| 0 <= k < old(out)@.len() && !(ooff <= k < ooff + i)
                ==> out@[k] == old(out)@[k],
        decreases rows - i,
    {
        let mut acc: i128 = 0;
        let mut j: usize = 0;
        assert(i * cols + cols <= rows * cols) by (nonlinear_arith)
            requires i < rows;
        assert(0 <= i * cols) by (nonlinear_arith)
            requires 0 <= i;
        while j < cols
            invariant
                j <= cols,
                i < rows,
                rows * cols <= usize::MAX,
                x@.len() <= usize::MAX,
                m@.len() == rows * cols,
                xoff + cols <= x@.len(),
                all_bounded(mi, cm),
                all_bounded(xi, cx),
                cm >= 0,
                cx >= 0,
                cols * cm * cx < SUM_CAP,
                mi == as_ints(m@),
                xi == as_ints(x@),
                0 <= i * cols,
                i * cols + cols <= rows * cols,
                acc as int == gdot(mi, (i * cols) as int, 1, xi, xoff as int, 1, j as nat),
                abs_le(acc as int, j * cm * cx),
            decreases cols - j,
        {
            let e = m[i * cols + j];
            let v = x[xoff + j];
            proof {
                assert(abs_le(mi[(i * cols + j) as int], cm));
                assert(abs_le(xi[(xoff + j) as int], cx));
                assert(abs_le((e as int) * (v as int), cm * cx)) by (nonlinear_arith)
                    requires abs_le(e as int, cm), abs_le(v as int, cx), cm >= 0, cx >= 0;
                assert(cm * cx <= cols * cm * cx) by (nonlinear_arith)
                    requires cols >= 1, cm >= 0, cx >= 0;
                assert(abs_le(acc as int + (e as int) * (v as int), (j + 1) * cm * cx))
                    by (nonlinear_arith)
                    requires
                        abs_le(acc as int, j * cm * cx),
                        abs_le((e as int) * (v as int), cm * cx);
                assert((j + 1) * cm * cx <= cols * cm * cx) by (nonlinear_arith)
                    requires j + 1 <= cols, cm >= 0, cx >= 0;
            }
            acc = acc + e * v;
            proof {
                assert((i * cols) as int + (j as int) * 1 == (i * cols + j) as int);
                assert(xoff as int + (j as int) * 1 == (xoff + j) as int);
                assert(acc as int
                    == gdot(mi, (i * cols) as int, 1, xi, xoff as int, 1, (j + 1) as nat));
            }
            j = j + 1;
        }
        out[ooff + i] = acc;
        proof {
            assert(mv_row(mi, cols as nat, xi, xoff as int, i as int)
                == gdot(mi, (i * cols) as int, 1, xi, xoff as int, 1, cols as nat)) by {
                assert((i as int) * (cols as int) == (i * cols) as int);
            }
        }
        i = i + 1;
    }
}

/// Apply the transpose of the `rows x cols` matrix `m` to the `rows` entries
/// of `y` starting at `yoff`, writing the `cols` results into `out` starting
/// at `ooff`. `cm` and `cy` bound the matrix entries and the inputs.
pub(crate) fn dense_block_tr(
    m: &Vec<i128>, rows: usize, cols: usize,
    y: &Vec<i128>, yoff: usize,
    out: &mut Vec<i128>, ooff: usize,
    Ghost(cm): Ghost<int>, Ghost(cy): Ghost<int>,
)
    requires
        m@.len() == rows * cols,
        yoff + rows <= y@.len(),
        ooff + cols <= old(out)@.len(),
        all_bounded(as_ints(m@), cm),
        all_bounded(as_ints(y@), cy),
        cm >= 0,
        cy >= 0,
        rows * cm * cy < SUM_CAP,
    ensures
        final(out)@.len() == old(out)@.len(),
        forall|j: int| 0 <= j < cols
            ==> final(out)@[ooff + j] as int
                == mvt_col(as_ints(m@), cols as nat, rows as nat, as_ints(y@), yoff as int, j),
        forall|j: int| 0 <= j < cols
            ==> abs_le(#[trigger] final(out)@[ooff + j] as int, rows * cm * cy),
        forall|k: int| 0 <= k < old(out)@.len() && !(ooff <= k < ooff + cols)
            ==> final(out)@[k] == old(out)@[k],
{
    let ghost mi = as_ints(m@);
    let ghost yi = as_ints(y@);
    let m_total: usize = m.len();
    let y_total: usize = y.len();
    let out_total: usize = out.len();
    proof {
        assert(rows * cols <= usize::MAX);
        assert(y@.len() <= usize::MAX);
        assert(out@.len() <= usize::MAX);
    }
    let mut j: usize = 0;
    while j < cols
        invariant
            j <= cols,
            rows * cols <= usize::MAX,
            y@.len() <= usize::MAX,
            out@.len() <= usize::MAX,
            m@.len() == rows * cols,
            yoff + rows <= y@.len(),
            ooff + cols <= out@.len(),
            out@.len() == old(out)@.len(),
            all_bounded(mi, cm),
            all_bounded(yi, cy),
            cm >= 0,
            cy >= 0,
            rows * cm * cy < SUM_CAP,
            mi == as_ints(m@),
            yi == as_ints(y@),
            forall|t: int| 0 <= t < j
                ==> out@[ooff + t] as int
                    == mvt_col(mi, cols as nat, rows as nat, yi, yoff as int, t),
            forall|t: int| 0 <= t < j
                ==> abs_le(#[trigger] out@[ooff + t] as int, rows * cm * cy),
            forall|k: int| 0 <= k < old(out)@.len() && !(ooff <= k < ooff + j)
                ==> out@[k] == old(out)@[k],
        decreases cols - j,
    {
        let mut acc: i128 = 0;
        let mut i: usize = 0;
        while i < rows
            invariant
                i <= rows,
                j < cols,
                rows * cols <= usize::MAX,
                y@.len() <= usize::MAX,
                m@.len() == rows * cols,
                yoff + rows <= y@.len(),
                all_bounded(mi, cm),
                all_bounded(yi, cy),
                cm >= 0,
                cy >= 0,
                rows * cm * cy < SUM_CAP,
                mi == as_ints(m@),
                yi == as_ints(y@),
                acc as int == gdot(mi, j as int, cols as int, yi, yoff as int, 1, i as nat),
                abs_le(acc as int, i * cm * cy),
            decreases rows - i,
        {
            assert(i * cols + j < rows * cols) by (nonlinear_arith)
                requires i < rows, j < cols;
            assert(0 <= i * cols) by (nonlinear_arith)
                requires 0 <= i;
            let e = m[i * cols + j];
            let v = y[yoff + i];
            proof {
                assert(abs_le(mi[(i * cols + j) as int], cm));
                assert(abs_le(yi[(yoff + i) as int], cy));
                assert(abs_le((e as int) * (v as int), cm * cy)) by (nonlinear_arith)
                    requires abs_le(e as int, cm), abs_le(v as int, cy), cm >= 0, cy >= 0;
                assert(cm * cy <= rows * cm * cy) by (nonlinear_arith)
                    requires rows >= 1, cm >= 0, cy >= 0;
                assert(abs_le(acc as int + (e as int) * (v as int), (i + 1) * cm * cy))
                    by (nonlinear_arith)
                    requires
                        abs_le(acc as int, i * cm * cy),
                        abs_le((e as int) * (v as int), cm * cy);
                assert((i + 1) * cm * cy <= rows * cm * cy) by (nonlinear_arith)
                    requires i + 1 <= rows, cm >= 0, cy >= 0;
            }
            acc = acc + e * v;
            proof {
                assert(j as int + (i as int) * (cols as int) == (i * cols + j) as int) by {
                    assert((i as int) * (cols as int) == (i * cols) as int);
                }
                assert(yoff as int + (i as int) * 1 == (yoff + i) as int);
                assert(acc as int
                    == gdot(mi, j as int, cols as int, yi, yoff as int, 1, (i + 1) as nat));
            }
            i = i + 1;
        }
        out[ooff + j] = acc;
        j = j + 1;
    }
}

} // verus!
