//! Element-local bases and the `apply` contraction.
//!
//! A basis holds the interpolation matrix, gradient matrix, reference
//! quadrature coordinates and quadrature weights of one reference element.
//! `apply` contracts those matrices against per-element degree-of-freedom
//! data (forward), or applies the exact transpose of the forward operator
//! (adjoint), or broadcasts the quadrature weights.
//!
//! Tensor-product bases keep only the 1-D matrices and contract one
//! reference axis at a time (sum factorization); general bases keep the
//! full matrices. Values are exact integers; callers pick a fixed-point
//! scale. The caps below keep every contraction sum inside `i128`.

use vstd::prelude::*;
use crate::contract::{
    abs_le, all_bounded, as_ints, dense_block_fwd, dense_block_tr, gdot, mv_row, mvt_col, SUM_CAP,
};
use crate::vector::Vector;
use crate::{Ceed, Error};

verus! {

/// Quadrature point placement rule.
#[derive(Clone, Copy, Debug, PartialEq, Eq, Structural)]
pub enum QuadMode {
    Gauss,
    GaussLobatto,
}

/// Reference element shape.
#[derive(Clone, Copy, Debug, PartialEq, Eq, Structural)]
pub enum ElemTopology {
    Line,
    Triangle,
    Quad,
    Tet,
    Pyramid,
    Prism,
    Hex,
}

/// Whether `apply` runs the forward operator or its transpose.
#[derive(Clone, Copy, Debug, PartialEq, Eq, Structural)]
pub enum TransposeMode {
    NoTranspose,
    Transpose,
}

/// Which operator a basis applies.
#[derive(Clone, Copy, Debug, PartialEq, Eq, Structural)]
pub enum EvalMode {
    /// No basis action; not a mode `apply` can perform.
    NoEval,
    Interp,
    Grad,
    Div,
    Curl,
    Weight,
}

/// Largest 1-D node or quadrature count of a tensor-product basis.
pub const TENSOR_SIDE_CAP: usize = 1024;

/// Largest node or quadrature count of a general basis.
pub const DENSE_SIDE_CAP: usize = 65536;

/// Magnitude cap on matrix entries and buffer values for 1-D tensor bases
/// and for general bases.
pub const VAL_CAP_DIM1: i128 = 4_503_599_627_370_496;

/// Magnitude cap for 2-D tensor bases.
pub const VAL_CAP_DIM2: i128 = 17_179_869_184;

/// Magnitude cap for 3-D tensor bases.
pub const VAL_CAP_DIM3: i128 = 4_194_304;

/// The value cap a tensor-product basis of the given dimension imposes on
/// its matrix entries, weights and apply inputs. Chosen so that the values
/// produced by `dim` successive axis contractions stay below `SUM_CAP`.
pub open spec fn tensor_val_cap(dim: nat) -> int {
    if dim == 1 {
        VAL_CAP_DIM1 as int
    } else if dim == 2 {
        VAL_CAP_DIM2 as int
    } else {
        VAL_CAP_DIM3 as int
    }
}

/// `b` raised to the power `e`.
pub open spec fn npow(b: nat, e: nat) -> nat
    decreases e,
{
    if e == 0 {
        1
    } else {
        b * npow(b, (e - 1) as nat)
    }
}

/// Mathematical model of a basis: its shape parameters and the exact
/// integer contents of its matrices and weights.
#[verifier::ext_equal]
pub ghost struct BasisModel {
    pub dim: nat,
    pub ncomp: nat,
    pub tensor: bool,
    /// 1-D node count (tensor bases only).
    pub p1d: nat,
    /// 1-D quadrature point count (tensor bases only).
    pub q1d: nat,
    /// Total node count per component.
    pub nnodes: nat,
    /// Total quadrature point count.
    pub nqpts: nat,
    pub topo: ElemTopology,
    /// Tensor: `q1d x p1d` 1-D interpolation matrix. General: `nqpts x
    /// nnodes` interpolation matrix.
    pub interp: Seq<int>,
    /// Tensor: `q1d x p1d` 1-D gradient matrix. General: `(dim * nqpts) x
    /// nnodes` gradient matrix.
    pub grad: Seq<int>,
    /// Reference coordinates: `q1d` (tensor) or `dim * nqpts` (general).
    pub qref: Seq<int>,
    /// Quadrature weights: `q1d` (tensor) or `nqpts` (general).
    pub qweight: Seq<int>,
    /// Weights of all `nqpts` points: products of 1-D weights for tensor
    /// bases, `qweight` itself for general bases.
    pub wfull: Seq<int>,
}

impl BasisModel {
    /// Cap on matrix entries and apply inputs for this basis.
    pub open spec fn cap(self) -> int {
        if self.tensor {
            tensor_val_cap(self.dim)
        } else {
            VAL_CAP_DIM1 as int
        }
    }

    /// Well-formed shape: counts in range, array lengths matching, entries
    /// within the cap, and the full weight table pinned.
    pub open spec fn wf(self) -> bool {
        &&& 1 <= self.dim <= 3
        &&& 1 <= self.ncomp
        &&& all_bounded(self.interp, self.cap())
        &&& all_bounded(self.grad, self.cap())
        &&& all_bounded(self.qweight, self.cap())
        &&& self.wfull.len() == self.nqpts
        &&& if self.tensor {
            &&& 1 <= self.p1d <= TENSOR_SIDE_CAP
            &&& 1 <= self.q1d <= TENSOR_SIDE_CAP
            &&& self.nnodes == npow(self.p1d, self.dim)
            &&& self.nqpts == npow(self.q1d, self.dim)
            &&& self.interp.len() == self.q1d * self.p1d
            &&& self.grad.len() == self.q1d * self.p1d
            &&& self.qref.len() == self.q1d
            &&& self.qweight.len() == self.q1d
            &&& forall|k: int| 0 <= k < self.nqpts
                ==> #[trigger] self.wfull[k] == wprod(self.qweight, self.q1d, self.dim, k)
        } else {
            &&& 1 <= self.nnodes <= DENSE_SIDE_CAP
            &&& 1 <= self.nqpts <= DENSE_SIDE_CAP
            &&& self.interp.len() == self.nqpts * self.nnodes
            &&& self.grad.len() == self.dim * self.nqpts * self.nnodes
            &&& self.qref.len() == self.dim * self.nqpts
            &&& self.qweight.len() == self.nqpts
            &&& self.wfull == self.qweight
        }
    }
}

/// The weight of quadrature point `k` of a tensor-product basis: the product
/// of the 1-D weights of its digits in base `q`.
pub open spec fn wprod(w: Seq<int>, q: nat, d: nat, k: int) -> int
    decreases d,
{
    if d == 0 {
        1
    } else {
        wprod(w, q, (d - 1) as nat, k / q as int) * w[k % q as int]
    }
}

/// An element-local basis: the mapping between degree-of-freedom values and
/// quadrature-point values for one reference element shape.
pub struct Basis {
    dim: usize,
    ncomp: usize,
    tensor: bool,
    p1d: usize,
    q1d: usize,
    nnodes: usize,
    nqpts: usize,
    topo: ElemTopology,
    interp: Vec<i128>,
    grad: Vec<i128>,
    qref: Vec<i128>,
    qweight: Vec<i128>,
    wfull: Vec<i128>,
}

impl View for Basis {
    type V = BasisModel;

    closed spec fn view(&self) -> BasisModel {
        BasisModel {
            dim: self.dim as nat,
            ncomp: self.ncomp as nat,
            tensor: self.tensor,
            p1d: self.p1d as nat,
            q1d: self.q1d as nat,
            nnodes: self.nnodes as nat,
            nqpts: self.nqpts as nat,
            topo: self.topo,
            interp: as_ints(self.interp@),
            grad: as_ints(self.grad@),
            qref: as_ints(self.qref@),
            qweight: as_ints(self.qweight@),
            wfull: as_ints(self.wfull@),
        }
    }
}

/// Forward contraction of every block: block `k / rows` of `u` (of `cols`
/// entries) through row `k % rows` of the matrix.
pub open spec fn fwd_out(mat: Seq<int>, rows: nat, cols: nat, nblk: nat, u: Seq<int>) -> Seq<int> {
    Seq::new((nblk * rows) as nat, |k: int|
        mv_row(mat, cols, u, (k / rows as int) * cols as int, k % rows as int))
}

/// Transpose contraction of every block: block `k / cols` of `y` (of `rows`
/// entries) through column `k % cols` of the matrix.
pub open spec fn tr_out(mat: Seq<int>, rows: nat, cols: nat, nblk: nat, y: Seq<int>) -> Seq<int> {
    Seq::new((nblk * cols) as nat, |k: int|
        mvt_col(mat, cols, rows, y, (k / cols as int) * rows as int, k % cols as int))
}

/// Quadrature weights broadcast over `nelem` elements. The input buffer of
/// the apply call does not appear: the output is independent of it.
pub open spec fn weight_out(m: BasisModel, nelem: nat) -> Seq<int> {
    Seq::new((nelem * m.nqpts) as nat, |k: int| m.wfull[k % m.nqpts as int])
}

/// Expected input length of `apply`, for the modes that read the input.
pub open spec fn spec_in_len(m: BasisModel, nelem: nat, tmode: TransposeMode, emode: EvalMode) -> int {
    match (tmode, emode) {
        (TransposeMode::NoTranspose, _) => (nelem * m.ncomp * m.nnodes) as int,
        (TransposeMode::Transpose, EvalMode::Interp) => (nelem * m.ncomp * m.nqpts) as int,
        (TransposeMode::Transpose, _) => (nelem * m.ncomp * m.dim * m.nqpts) as int,
    }
}

/// Expected output length of `apply`.
pub open spec fn spec_out_len(m: BasisModel, nelem: nat, tmode: TransposeMode, emode: EvalMode) -> int {
    match (tmode, emode) {
        (TransposeMode::NoTranspose, EvalMode::Weight) => (nelem * m.nqpts) as int,
        (TransposeMode::NoTranspose, EvalMode::Interp) => (nelem * m.ncomp * m.nqpts) as int,
        (TransposeMode::NoTranspose, _) => (nelem * m.ncomp * m.dim * m.nqpts) as int,
        (TransposeMode::Transpose, _) => (nelem * m.ncomp * m.nnodes) as int,
    }
}

/// The modes `apply` supports: interpolation and gradients both ways, and
/// forward weight broadcast. Divergence and curl belong to other basis
/// families than H1, and a weight broadcast has no transpose.
pub open spec fn mode_supported(tmode: TransposeMode, emode: EvalMode) -> bool {
    match emode {
        EvalMode::Interp => true,
        EvalMode::Grad => true,
        EvalMode::Weight => tmode is NoTranspose,
        _ => false,
    }
}

/// The buffer lengths an `apply` call must have. For `Weight` the input
/// buffer is ignored, so only the output length is constrained.
pub open spec fn shape_ok(
    m: BasisModel, nelem: nat, tmode: TransposeMode, emode: EvalMode, ulen: int, vlen: int,
) -> bool {
    &&& mode_supported(tmode, emode)
    &&& vlen == spec_out_len(m, nelem, tmode, emode)
    &&& (emode is Interp || emode is Grad) ==> ulen == spec_in_len(m, nelem, tmode, emode)
}

/// What a successful `apply` writes, for the dense (general-topology) paths
/// and the weight broadcast.
pub open spec fn dense_apply_out(
    m: BasisModel, nelem: nat, tmode: TransposeMode, emode: EvalMode, u: Seq<int>,
) -> Seq<int> {
    match (tmode, emode) {
        (TransposeMode::NoTranspose, EvalMode::Weight) => weight_out(m, nelem),
        (TransposeMode::NoTranspose, EvalMode::Interp) =>
            fwd_out(m.interp, m.nqpts, m.nnodes, (nelem * m.ncomp) as nat, u),
        (TransposeMode::Transpose, EvalMode::Interp) =>
            tr_out(m.interp, m.nqpts, m.nnodes, (nelem * m.ncomp) as nat, u),
        (TransposeMode::NoTranspose, _) =>
            fwd_out(m.grad, (m.dim * m.nqpts) as nat, m.nnodes, (nelem * m.ncomp) as nat, u),
        (TransposeMode::Transpose, _) =>
            tr_out(m.grad, (m.dim * m.nqpts) as nat, m.nnodes, (nelem * m.ncomp) as nat, u),
    }
}

/// One sum-factorization pass: contract one reference axis of a
/// tensor-product layout. The input has shape `pre x p x post` (flattened
/// row-major); the output has shape `pre x q x post`, and entry
/// `(a, qq, b)` is the dot product of row `qq` of the 1-D matrix with the
/// `p` input entries at `(a, _, b)`.
pub open spec fn axis_fwd(mat: Seq<int>, p: nat, q: nat, pre: nat, post: nat, x: Seq<int>) -> Seq<int> {
    Seq::new((pre * q * post) as nat, |k: int|
        gdot(mat, ((k / post as int) % q as int) * p as int, 1,
            x, (k / (q * post) as int) * (p * post) as int + (k % post as int), post as int, p))
}

/// The transpose of one sum-factorization pass: the input has shape
/// `pre x q x post`, the output `pre x p x post`, and entry `(a, pp, b)` is
/// the dot product of column `pp` of the 1-D matrix with the `q` input
/// entries at `(a, _, b)`.
pub open spec fn axis_tr(mat: Seq<int>, p: nat, q: nat, pre: nat, post: nat, y: Seq<int>) -> Seq<int> {
    Seq::new((pre * p * post) as nat, |k: int|
        gdot(mat, (k / post as int) % p as int, p as int,
            y, (k / (p * post) as int) * (q * post) as int + (k % post as int), post as int, q))
}

/// `d` sum-factorization passes applied to one block: pass `j` (counting
/// from the innermost axis) uses the gradient matrix `gm` when `j == ax`
/// and the interpolation matrix `im` otherwise. `ax == -1` gives pure
/// interpolation. The recursion peels the outermost pass; `pre` carries the
/// outer multiplier of the remaining passes.
pub open spec fn chain_fwd(im: Seq<int>, gm: Seq<int>, ax: int, p: nat, q: nat, d: nat, pre: nat, x: Seq<int>) -> Seq<int>
    decreases d,
{
    if d == 0 {
        x
    } else {
        axis_fwd(if ax == d - 1 { gm } else { im }, p, q, pre, npow(q, (d - 1) as nat),
            chain_fwd(im, gm, ax, p, q, (d - 1) as nat, (pre * p) as nat, x))
    }
}

/// The transposes of the passes of `chain_fwd`, applied in reverse order:
/// the exact adjoint factorization.
pub open spec fn chain_tr(im: Seq<int>, gm: Seq<int>, ax: int, p: nat, q: nat, d: nat, pre: nat, y: Seq<int>) -> Seq<int>
    decreases d,
{
    if d == 0 {
        y
    } else {
        chain_tr(im, gm, ax, p, q, (d - 1) as nat, (pre * p) as nat,
            axis_tr(if ax == d - 1 { gm } else { im }, p, q, pre, npow(q, (d - 1) as nat), y))
    }
}

/// Magnitude bound on values after `k` contraction passes of `n` terms
/// each, starting from values bounded by `cap` and matrix entries bounded
/// by `cap`.
pub open spec fn fcap(n: nat, cap: int, k: nat) -> int
    decreases k,
{
    if k == 0 {
        cap
    } else {
        n * cap * fcap(n, cap, (k - 1) as nat)
    }
}

/// Pass bounds grow with the pass count.
proof fn lemma_fcap_grows(n: nat, cap: int, k: nat)
    requires
        n >= 1,
        cap >= 1,
    ensures
        fcap(n, cap, k) >= cap,
        fcap(n, cap, k + 1) >= fcap(n, cap, k),
    decreases k,
{
    if k == 0 {
        assert(fcap(n, cap, 0) == cap);
        assert(fcap(n, cap, 1) == n * cap * cap);
        assert(n * cap * cap >= cap) by (nonlinear_arith)
            requires n >= 1, cap >= 1;
    } else {
        lemma_fcap_grows(n, cap, (k - 1) as nat);
        assert(n * cap * fcap(n, cap, (k - 1) as nat) >= cap
            && n * cap * fcap(n, cap, k) >= n * cap * fcap(n, cap, (k - 1) as nat))
            by (nonlinear_arith)
            requires
                n >= 1,
                cap >= 1,
                fcap(n, cap, (k - 1) as nat) >= cap,
                fcap(n, cap, k) >= fcap(n, cap, (k - 1) as nat);
    }
}

/// With the per-dimension caps, the values of every pass of a
/// tensor-product contraction stay strictly below `SUM_CAP`.
proof fn lemma_fcap_fits(n: nat, dim: nat, k: nat)
    requires
        1 <= n <= TENSOR_SIDE_CAP,
        1 <= dim <= 3,
        k <= dim,
    ensures
        fcap(n, tensor_val_cap(dim), k) >= tensor_val_cap(dim),
        n * tensor_val_cap(dim) * fcap(n, tensor_val_cap(dim), k) < SUM_CAP as int
            || k == dim,
        fcap(n, tensor_val_cap(dim), k) < SUM_CAP as int,
{
    let cap = tensor_val_cap(dim);
    lemma_fcap_grows(n, cap, k);
    let f0 = fcap(n, cap, 0);
    let f1 = fcap(n, cap, 1);
    let f2 = fcap(n, cap, 2);
    let f3 = fcap(n, cap, 3);
    assert(f1 == n * cap * f0);
    assert(f2 == n * cap * f1);
    assert(f3 == n * cap * f2);
    if dim == 1 {
        assert(f1 <= 20769187434139310514121985316880384) by (nonlinear_arith)
            requires 1 <= n <= 1024, f1 == n * cap * f0, f0 == cap, 1 <= cap <= 4503599627370496;
    } else if dim == 2 {
        assert(f1 <= 302231454903657293676544) by (nonlinear_arith)
            requires 1 <= n <= 1024, f1 == n * cap * f0, f0 == cap, 1 <= cap <= 17179869184;
        assert(f2 <= 5316911983139663491615228241121378304) by (nonlinear_arith)
            requires 1 <= n <= 1024, f2 == n * cap * f1, 1 <= cap <= 17179869184,
                0 <= f1 <= 302231454903657293676544;
    } else {
        assert(f1 <= 18014398509481984) by (nonlinear_arith)
            requires 1 <= n <= 1024, f1 == n * cap * f0, f0 == cap, 1 <= cap <= 4194304;
        assert(f2 <= 77371252455336267181195264) by (nonlinear_arith)
            requires 1 <= n <= 1024, f2 == n * cap * f1, 1 <= cap <= 4194304,
                0 <= f1 <= 18014398509481984;
        assert(f3 <= 332306998946228968225951765070086144) by (nonlinear_arith)
            requires 1 <= n <= 1024, f3 == n * cap * f2, 1 <= cap <= 4194304,
                0 <= f2 <= 77371252455336267181195264;
    }
    if k < dim {
        assert(fcap(n, cap, (k + 1) as nat) == n * cap * fcap(n, cap, k));
        lemma_fcap_le(n, cap, (k + 1) as nat, dim);
    }
    lemma_fcap_le(n, cap, k, dim);
}

/// Monotonicity of `fcap` in the pass count.
proof fn lemma_fcap_le(n: nat, cap: int, k: nat, d: nat)
    requires
        n >= 1,
        cap >= 1,
        k <= d,
    ensures
        fcap(n, cap, k) <= fcap(n, cap, d),
    decreases d - k,
{
    if k < d {
        lemma_fcap_grows(n, cap, k);
        lemma_fcap_le(n, cap, (k + 1) as nat, d);
    }
}

/// Recover the three digits of a flattened `pre x q x post` index.
proof fn lemma_idx3(a: int, qq: int, b: int, q: nat, post: nat)
    requires
        0 <= a,
        0 <= qq < q,
        0 <= b < post,
    ensures
        (a * (q * post) as int + qq * post as int + b) / (q * post) as int == a,
        ((a * (q * post) as int + qq * post as int + b) / post as int) % q as int == qq,
        (a * (q * post) as int + qq * post as int + b) % post as int == b,
{
    let k = a * (q * post) as int + qq * post as int + b;
    assert(0 <= qq * post as int + b < (q * post) as int) by (nonlinear_arith)
        requires 0 <= qq < q, 0 <= b < post;
    vstd::arithmetic::div_mod::lemma_fundamental_div_mod_converse(
        k, (q * post) as int, a, qq * post as int + b);
    assert(a * (q * post) as int + qq * post as int + b
        == (a * q as int + qq) * post as int + b) by (nonlinear_arith);
    assert(0 <= a * q as int + qq) by (nonlinear_arith)
        requires 0 <= a, 0 <= qq;
    vstd::arithmetic::div_mod::lemma_fundamental_div_mod_converse(
        k, post as int, a * q as int + qq, b);
    vstd::arithmetic::div_mod::lemma_fundamental_div_mod_converse(
        a * q as int + qq, q as int, a, qq);
}

/// A fresh buffer of `n` zero entries.
fn zero_vec(n: usize) -> (r: Vec<i128>)
    ensures
        r@.len() == n,
        forall|k: int| 0 <= k < n ==> r@[k] == 0i128,
{
    let mut r: Vec<i128> = Vec::new();
    let mut i: usize = 0;
    while i < n
        invariant
            i <= n,
            r@.len() == i,
            forall|k: int| 0 <= k < i ==> r@[k] == 0i128,
        decreases n - i,
    {
        r.push(0i128);
        i = i + 1;
    }
    r
}

/// Copy `len` entries of `src` starting at `off` into a fresh buffer.
fn copy_block(src: &Vec<i128>, off: usize, len: usize) -> (r: Vec<i128>)
    requires
        off + len <= src@.len(),
    ensures
        r@.len() == len,
        forall|k: int| 0 <= k < len ==> r@[k] == src@[off + k],
{
    let src_total: usize = src.len();
    let mut r: Vec<i128> = Vec::new();
    let mut i: usize = 0;
    while i < len
        invariant
            i <= len,
            off + len <= src@.len(),
            src@.len() <= usize::MAX,
            r@.len() == i,
            forall|k: int| 0 <= k < i ==> r@[k] == src@[off + k],
        decreases len - i,
    {
        r.push(src[off + i]);
        i = i + 1;
    }
    r
}

/// One executable sum-factorization pass: the forward axis contraction.
fn axis_fwd_exec(
    mat: &Vec<i128>, p: usize, q: usize, pre: usize, post: usize,
    x: &Vec<i128>, Ghost(cm): Ghost<int>, Ghost(cx): Ghost<int>,
) -> (r: Vec<i128>)
    requires
        mat@.len() == q * p,
        x@.len() == pre * p * post,
        pre * q * post <= usize::MAX,
        all_bounded(as_ints(mat@), cm),
        all_bounded(as_ints(x@), cx),
        cm >= 0,
        cx >= 0,
        p >= 1,
        q >= 1,
        post >= 1,
        p * cm * cx < SUM_CAP as int,
    ensures
        r@.len() == pre * q * post,
        forall|k: int| 0 <= k < r@.len()
            ==> #[trigger] r@[k] as int == axis_fwd(as_ints(mat@), p as nat, q as nat,
                pre as nat, post as nat, as_ints(x@))[k],
        all_bounded(as_ints(r@), p * cm * cx),
{
    let ghost mi = as_ints(mat@);
    let ghost xi = as_ints(x@);
    let ghost outs = axis_fwd(mi, p as nat, q as nat, pre as nat, post as nat, xi);
    let x_total: usize = x.len();
    let mat_total: usize = mat.len();
    proof {
        assert(pre * p * post <= usize::MAX);
        assert(q * p <= usize::MAX);
        assert((pre * q) * post == pre * q * post && (pre * p) * post == pre * p * post
            && pre * (q * post) == pre * q * post && pre * (p * post) == pre * p * post)
            by (nonlinear_arith);
    }
    let mut out: Vec<i128> = Vec::new();
    let mut a: usize = 0;
    while a < pre
        invariant
            a <= pre,
            mat@.len() == q * p,
            x@.len() == pre * p * post,
            pre * q * post <= usize::MAX,
            pre * p * post <= usize::MAX,
            mi == as_ints(mat@),
            xi == as_ints(x@),
            outs == axis_fwd(mi, p as nat, q as nat, pre as nat, post as nat, xi),
            all_bounded(mi, cm),
            all_bounded(xi, cx),
            cm >= 0,
            cx >= 0,
            p >= 1,
            q >= 1,
            post >= 1,
            p * cm * cx < SUM_CAP as int,
            pre * (q * post) == pre * q * post,
            pre * (p * post) == pre * p * post,
            q * p <= usize::MAX,
            out@.len() == a * (q * post),
            forall|k: int| 0 <= k < out@.len()
                ==> #[trigger] out@[k] as int == outs[k],
            forall|k: int| 0 <= k < out@.len()
                ==> abs_le(#[trigger] out@[k] as int, p * cm * cx),
        decreases pre - a,
    {
        proof {
            assert(a * (q * post) + q * post <= pre * (q * post)
                && a * (p * post) + p * post <= pre * (p * post)
                && 0 <= a * (p * post)) by (nonlinear_arith)
                requires a < pre;
        }
        let mut qq: usize = 0;
        while qq < q
            invariant
                qq <= q,
                a < pre,
                mat@.len() == q * p,
                x@.len() == pre * p * post,
                pre * q * post <= usize::MAX,
                pre * p * post <= usize::MAX,
                a * (q * post) + q * post <= pre * (q * post),
                a * (p * post) + p * post <= pre * (p * post),
                0 <= a * (p * post),
                pre * (q * post) == pre * q * post,
                pre * (p * post) == pre * p * post,
                q * p <= usize::MAX,
                mi == as_ints(mat@),
                xi == as_ints(x@),
                outs == axis_fwd(mi, p as nat, q as nat, pre as nat, post as nat, xi),
                all_bounded(mi, cm),
                all_bounded(xi, cx),
                cm >= 0,
                cx >= 0,
                p >= 1,
                q >= 1,
                post >= 1,
                p * cm * cx < SUM_CAP as int,
                out@.len() == a * (q * post) + qq * post,
                forall|k: int| 0 <= k < out@.len()
                    ==> #[trigger] out@[k] as int == outs[k],
                forall|k: int| 0 <= k < out@.len()
                    ==> abs_le(#[trigger] out@[k] as int, p * cm * cx),
            decreases q - qq,
        {
            proof {
                assert(qq * post + post <= q * post && 0 <= qq * post
                    && qq * p + p <= q * p && 0 <= qq * p) by (nonlinear_arith)
                    requires qq < q;
            }
            let mut b: usize = 0;
            while b < post
                invariant
                    b <= post,
                    qq < q,
                    a < pre,
                    mat@.len() == q * p,
                    x@.len() == pre * p * post,
                    pre * q * post <= usize::MAX,
                    pre * p * post <= usize::MAX,
                    a * (q * post) + q * post <= pre * (q * post),
                    a * (p * post) + p * post <= pre * (p * post),
                    0 <= a * (p * post),
                    qq * post + post <= q * post,
                    0 <= qq * post,
                    qq * p + p <= q * p,
                    0 <= qq * p,
                    pre * (q * post) == pre * q * post,
                    pre * (p * post) == pre * p * post,
                    q * p <= usize::MAX,
                    mi == as_ints(mat@),
                    xi == as_ints(x@),
                    outs == axis_fwd(mi, p as nat, q as nat, pre as nat, post as nat, xi),
                    all_bounded(mi, cm),
                    all_bounded(xi, cx),
                    cm >= 0,
                    cx >= 0,
                    p >= 1,
                    q >= 1,
                    post >= 1,
                    p * cm * cx < SUM_CAP as int,
                    out@.len() == a * (q * post) + qq * post + b,
                    forall|k: int| 0 <= k < out@.len()
                        ==> #[trigger] out@[k] as int == outs[k],
                    forall|k: int| 0 <= k < out@.len()
                        ==> abs_le(#[trigger] out@[k] as int, p * cm * cx),
                decreases post - b,
            {
                proof {
                    assert(b < p * post) by (nonlinear_arith)
                        requires b < post, p >= 1, post >= 1;
                    assert(0 <= qq * p && qq * p + p <= q * p) by (nonlinear_arith)
                        requires qq < q, p >= 1;
                }
                let xbase: usize = a * (p * post) + b;
                let mbase: usize = qq * p;
                let mut acc: i128 = 0;
                let mut pp: usize = 0;
                while pp < p
                    invariant
                        pp <= p,
                        b < post,
                        qq < q,
                        a < pre,
                        mat@.len() == q * p,
                        x@.len() == pre * p * post,
                        xbase == a * (p * post) + b,
                        mbase == qq * p,
                        a * (p * post) + p * post <= pre * (p * post),
                        pre * (p * post) == pre * p * post,
                        x@.len() <= usize::MAX,
                        qq * p + p <= q * p,
                        q * p <= usize::MAX,
                        mi == as_ints(mat@),
                        xi == as_ints(x@),
                        all_bounded(mi, cm),
                        all_bounded(xi, cx),
                        cm >= 0,
                        cx >= 0,
                        p >= 1,
                        post >= 1,
                        p * cm * cx < SUM_CAP as int,
                        acc as int == gdot(mi, mbase as int, 1, xi, xbase as int,
                            post as int, pp as nat),
                        abs_le(acc as int, pp * cm * cx),
                    decreases p - pp,
                {
                    proof {
                        assert(pp * post + b < p * post && 0 <= pp * post) by (nonlinear_arith)
                            requires pp < p, b < post, post >= 1;
                        assert(a * (p * post) + (pp * post + b) < pre * (p * post))
                            by (nonlinear_arith)
                            requires
                                a * (p * post) + p * post <= pre * (p * post),
                                pp * post + b < p * post;
                    }
                    let e = mat[mbase + pp];
                    let v = x[xbase + pp * post];
                    proof {
                        assert(abs_le(mi[(mbase + pp) as int], cm));
                        assert(abs_le(xi[(xbase + pp * post) as int], cx));
                        assert(abs_le((e as int) * (v as int), cm * cx)) by (nonlinear_arith)
                            requires abs_le(e as int, cm), abs_le(v as int, cx), cm >= 0, cx >= 0;
                        assert(cm * cx <= p * cm * cx) by (nonlinear_arith)
                            requires p >= 1, cm >= 0, cx >= 0;
                        assert(abs_le(acc as int + (e as int) * (v as int), (pp + 1) * cm * cx))
                            by (nonlinear_arith)
                            requires
                                abs_le(acc as int, pp * cm * cx),
                                abs_le((e as int) * (v as int), cm * cx);
                        assert((pp + 1) * cm * cx <= p * cm * cx) by (nonlinear_arith)
                            requires pp + 1 <= p, cm >= 0, cx >= 0;
                    }
                    acc = acc + e * v;
                    proof {
                        assert(mbase as int + (pp as int) * 1 == (mbase + pp) as int);
                        assert(xbase as int + (pp as int) * (post as int)
                            == (xbase + pp * post) as int) by {
                            assert((pp as int) * (post as int) == (pp * post) as int);
                        }
                        assert(acc as int == gdot(mi, mbase as int, 1, xi, xbase as int,
                            post as int, (pp + 1) as nat));
                    }
                    pp = pp + 1;
                }
                proof {
                    let k = out@.len() as int;
                    lemma_idx3(a as int, qq as int, b as int, q as nat, post as nat);
                    assert(a * (q * post) + qq * post + b < pre * (q * post)) by (nonlinear_arith)
                        requires
                            a * (q * post) + q * post <= pre * (q * post),
                            qq * post + b < q * post;
                    assert(outs[k] == acc as int) by {
                        assert(outs[k] == gdot(mi, ((k / post as int) % q as int) * p as int, 1,
                            xi, (k / (q * post) as int) * (p * post) as int + (k % post as int),
                            post as int, p as nat));
                        assert((k / post as int) % q as int == qq as int);
                        assert(k / (q * post) as int == a as int);
                        assert(k % post as int == b as int);
                        assert((qq as int) * (p as int) == mbase as int);
                        assert((a as int) * ((p * post) as int) + b as int == xbase as int) by {
                            assert((a as int) * ((p * post) as int) == (a * (p * post)) as int);
                        }
                    }
                }
                out.push(acc);
                b = b + 1;
            }
            proof {
                assert(a * (q * post) + (qq + 1) * post == a * (q * post) + qq * post + post)
                    by (nonlinear_arith);
            }
            qq = qq + 1;
        }
        proof {
            assert((a + 1) * (q * post) == a * (q * post) + q * post) by (nonlinear_arith);
        }
        a = a + 1;
    }
    proof {
        assert(out@.len() == pre * (q * post));
    }
    out
}

/// One executable sum-factorization pass: the transpose axis contraction.
fn axis_tr_exec(
    mat: &Vec<i128>, p: usize, q: usize, pre: usize, post: usize,
    y: &Vec<i128>, Ghost(cm): Ghost<int>, Ghost(cy): Ghost<int>,
) -> (r: Vec<i128>)
    requires
        mat@.len() == q * p,
        y@.len() == pre * q * post,
        pre * p * post <= usize::MAX,
        all_bounded(as_ints(mat@), cm),
        all_bounded(as_ints(y@), cy),
        cm >= 0,
        cy >= 0,
        p >= 1,
        q >= 1,
        post >= 1,
        q * cm * cy < SUM_CAP as int,
    ensures
        r@.len() == pre * p * post,
        forall|k: int| 0 <= k < r@.len()
            ==> #[trigger] r@[k] as int == axis_tr(as_ints(mat@), p as nat, q as nat,
                pre as nat, post as nat, as_ints(y@))[k],
        all_bounded(as_ints(r@), q * cm * cy),
{
    let ghost mi = as_ints(mat@);
    let ghost yi = as_ints(y@);
    let ghost outs = axis_tr(mi, p as nat, q as nat, pre as nat, post as nat, yi);
    let y_total: usize = y.len();
    let mat_total: usize = mat.len();
    proof {
        assert(pre * q * post <= usize::MAX);
        assert(q * p <= usize::MAX);
        assert((pre * q) * post == pre * q * post && (pre * p) * post == pre * p * post
            && pre * (q * post) == pre * q * post && pre * (p * post) == pre * p * post)
            by (nonlinear_arith);
    }
    let mut out: Vec<i128> = Vec::new();
    let mut a: usize = 0;
    while a < pre
        invariant
            a <= pre,
            mat@.len() == q * p,
            y@.len() == pre * q * post,
            pre * q * post <= usize::MAX,
            pre * p * post <= usize::MAX,
            mi == as_ints(mat@),
            yi == as_ints(y@),
            outs == axis_tr(mi, p as nat, q as nat, pre as nat, post as nat, yi),
            all_bounded(mi, cm),
            all_bounded(yi, cy),
            cm >= 0,
            cy >= 0,
            p >= 1,
            q >= 1,
            post >= 1,
            q * cm * cy < SUM_CAP as int,
            pre * (q * post) == pre * q * post,
            pre * (p * post) == pre * p * post,
            q * p <= usize::MAX,
            out@.len() == a * (p * post),
            forall|k: int| 0 <= k < out@.len()
                ==> #[trigger] out@[k] as int == outs[k],
            forall|k: int| 0 <= k < out@.len()
                ==> abs_le(#[trigger] out@[k] as int, q * cm * cy),
        decreases pre - a,
    {
        proof {
            assert(a * (p * post) + p * post <= pre * (p * post)
                && a * (q * post) + q * post <= pre * (q * post)
                && 0 <= a * (q * post)) by (nonlinear_arith)
                requires a < pre;
        }
        let mut pp: usize = 0;
        while pp < p
            invariant
                pp <= p,
                a < pre,
                mat@.len() == q * p,
                y@.len() == pre * q * post,
                pre * q * post <= usize::MAX,
                pre * p * post <= usize::MAX,
                a * (p * post) + p * post <= pre * (p * post),
                a * (q * post) + q * post <= pre * (q * post),
                0 <= a * (q * post),
                pre * (q * post) == pre * q * post,
                pre * (p * post) == pre * p * post,
                q * p <= usize::MAX,
                mi == as_ints(mat@),
                yi == as_ints(y@),
                outs == axis_tr(mi, p as nat, q as nat, pre as nat, post as nat, yi),
                all_bounded(mi, cm),
                all_bounded(yi, cy),
                cm >= 0,
                cy >= 0,
                p >= 1,
                q >= 1,
                post >= 1,
                q * cm * cy < SUM_CAP as int,
                out@.len() == a * (p * post) + pp * post,
                forall|k: int| 0 <= k < out@.len()
                    ==> #[trigger] out@[k] as int == outs[k],
                forall|k: int| 0 <= k < out@.len()
                    ==> abs_le(#[trigger] out@[k] as int, q * cm * cy),
            decreases p - pp,
        {
            proof {
                assert(pp * post + post <= p * post && 0 <= pp * post) by (nonlinear_arith)
                    requires pp < p;
            }
            let mut b: usize = 0;
            while b < post
                invariant
                    b <= post,
                    pp < p,
                    a < pre,
                    mat@.len() == q * p,
                    y@.len() == pre * q * post,
                    pre * q * post <= usize::MAX,
                    pre * p * post <= usize::MAX,
                    a * (p * post) + p * post <= pre * (p * post),
                    a * (q * post) + q * post <= pre * (q * post),
                    0 <= a * (q * post),
                    pp * post + post <= p * post,
                    0 <= pp * post,
                    pre * (q * post) == pre * q * post,
                    pre * (p * post) == pre * p * post,
                    q * p <= usize::MAX,
                    mi == as_ints(mat@),
                    yi == as_ints(y@),
                    outs == axis_tr(mi, p as nat, q as nat, pre as nat, post as nat, yi),
                    all_bounded(mi, cm),
                    all_bounded(yi, cy),
                    cm >= 0,
                    cy >= 0,
                    p >= 1,
                    q >= 1,
                    post >= 1,
                    q * cm * cy < SUM_CAP as int,
                    out@.len() == a * (p * post) + pp * post + b,
                    forall|k: int| 0 <= k < out@.len()
                        ==> #[trigger] out@[k] as int == outs[k],
                    forall|k: int| 0 <= k < out@.len()
                        ==> abs_le(#[trigger] out@[k] as int, q * cm * cy),
                decreases post - b,
            {
                proof {
                    assert(b < q * post) by (nonlinear_arith)
                        requires b < post, q >= 1, post >= 1;
                }
                let ybase: usize = a * (q * post) + b;
                let mut acc: i128 = 0;
                let mut qq: usize = 0;
                while qq < q
                    invariant
                        qq <= q,
                        b < post,
                        pp < p,
                        a < pre,
                        mat@.len() == q * p,
                        y@.len() == pre * q * post,
                        y@.len() <= usize::MAX,
                        ybase == a * (q * post) + b,
                        a * (q * post) + q * post <= pre * (q * post),
                        pre * (q * post) == pre * q * post,
                        q * p <= usize::MAX,
                        mi == as_ints(mat@),
                        yi == as_ints(y@),
                        all_bounded(mi, cm),
                        all_bounded(yi, cy),
                        cm >= 0,
                        cy >= 0,
                        q >= 1,
                        post >= 1,
                        q * cm * cy < SUM_CAP as int,
                        acc as int == gdot(mi, pp as int, p as int, yi, ybase as int,
                            post as int, qq as nat),
                        abs_le(acc as int, qq * cm * cy),
                    decreases q - qq,
                {
                    proof {
                        assert(qq * post + b < q * post && 0 <= qq * post) by (nonlinear_arith)
                            requires qq < q, b < post, post >= 1;
                        assert(a * (q * post) + (qq * post + b) < pre * (q * post))
                            by (nonlinear_arith)
                            requires
                                a * (q * post) + q * post <= pre * (q * post),
                                qq * post + b < q * post;
                        assert(qq * p + pp < q * p && 0 <= qq * p) by (nonlinear_arith)
                            requires qq < q, pp < p;
                    }
                    let e = mat[qq * p + pp];
                    let v = y[ybase + qq * post];
                    proof {
                        assert(abs_le(mi[(qq * p + pp) as int], cm));
                        assert(abs_le(yi[(ybase + qq * post) as int], cy));
                        assert(abs_le((e as int) * (v as int), cm * cy)) by (nonlinear_arith)
                            requires abs_le(e as int, cm), abs_le(v as int, cy), cm >= 0, cy >= 0;
                        assert(cm * cy <= q * cm * cy) by (nonlinear_arith)
                            requires q >= 1, cm >= 0, cy >= 0;
                        assert(abs_le(acc as int + (e as int) * (v as int), (qq + 1) * cm * cy))
                            by (nonlinear_arith)
                            requires
                                abs_le(acc as int, qq * cm * cy),
                                abs_le((e as int) * (v as int), cm * cy);
                        assert((qq + 1) * cm * cy <= q * cm * cy) by (nonlinear_arith)
                            requires qq + 1 <= q, cm >= 0, cy >= 0;
                    }
                    acc = acc + e * v;
                    proof {
                        assert(pp as int + (qq as int) * (p as int) == (qq * p + pp) as int) by {
                            assert((qq as int) * (p as int) == (qq * p) as int);
                        }
                        assert(ybase as int + (qq as int) * (post as int)
                            == (ybase + qq * post) as int) by {
                            assert((qq as int) * (post as int) == (qq * post) as int);
                        }
                        assert(acc as int == gdot(mi, pp as int, p as int, yi, ybase as int,
                            post as int, (qq + 1) as nat));
                    }
                    qq = qq + 1;
                }
                proof {
                    let k = out@.len() as int;
                    lemma_idx3(a as int, pp as int, b as int, p as nat, post as nat);
                    assert(a * (p * post) + pp * post + b < pre * (p * post)) by (nonlinear_arith)
                        requires
                            a * (p * post) + p * post <= pre * (p * post),
                            pp * post + b < p * post,
                        ;
                    assert(pp * post + b < p * post) by (nonlinear_arith)
                        requires pp < p, b < post, post >= 1;
                    assert(outs[k] == acc as int) by {
                        assert(outs[k] == gdot(mi, (k / post as int) % p as int, p as int,
                            yi, (k / (p * post) as int) * (q * post) as int + (k % post as int),
                            post as int, q as nat));
                        assert((k / post as int) % p as int == pp as int);
                        assert(k / (p * post) as int == a as int);
                        assert(k % post as int == b as int);
                        assert((a as int) * ((q * post) as int) + b as int == ybase as int) by {
                            assert((a as int) * ((q * post) as int) == (a * (q * post)) as int);
                        }
                    }
                }
                out.push(acc);
                b = b + 1;
            }
            proof {
                assert(a * (p * post) + (pp + 1) * post == a * (p * post) + pp * post + post)
                    by (nonlinear_arith);
            }
            pp = pp + 1;
        }
        proof {
            assert((a + 1) * (p * post) == a * (p * post) + p * post) by (nonlinear_arith);
        }
        a = a + 1;
    }
    proof {
        assert(out@.len() == pre * (p * post));
    }
    out
}

/// `npow` of a side count stays small: at most `1024^3`.
proof fn lemma_npow_cap(b: nat, e: nat)
    requires
        1 <= b <= 1024,
        e <= 3,
    ensures
        1 <= npow(b, e) <= 1073741824,
        npow(b, e) <= usize::MAX,
{
    let n1 = npow(b, 1);
    let n2 = npow(b, 2);
    let n3 = npow(b, 3);
    assert(npow(b, 0) == 1);
    assert(n1 == b * npow(b, 0));
    assert(n2 == b * n1);
    assert(n3 == b * n2);
    assert(1 <= n1 <= 1024) by (nonlinear_arith)
        requires 1 <= b <= 1024, n1 == b * 1;
    assert(1 <= n2 <= 1048576) by (nonlinear_arith)
        requires 1 <= b <= 1024, n2 == b * n1, 1 <= n1 <= 1024;
    assert(1 <= n3 <= 1073741824) by (nonlinear_arith)
        requires 1 <= b <= 1024, n3 == b * n2, 1 <= n2 <= 1048576;
}

/// `b` raised to the power `e`, executable.
fn upow(b: usize, e: usize) -> (r: usize)
    requires
        1 <= b <= TENSOR_SIDE_CAP,
        e <= 3,
    ensures
        r as nat == npow(b as nat, e as nat),
        1 <= r <= 1073741824,
{
    proof {
        lemma_npow_cap(b as nat, e as nat);
    }
    let mut r: usize = 1;
    let mut i: usize = 0;
    while i < e
        invariant
            i <= e,
            e <= 3,
            1 <= b <= TENSOR_SIDE_CAP,
            r as nat == npow(b as nat, i as nat),
            1 <= r,
            r <= 1073741824,
        decreases e - i,
    {
        proof {
            lemma_npow_cap(b as nat, (i + 1) as nat);
            assert(npow(b as nat, (i + 1) as nat) == b * npow(b as nat, i as nat));
        }
        r = r * b;
        i = i + 1;
    }
    r
}

/// The transpose-gradient output entry of one block: the contributions of
/// all `acount` gradient components, summed. Component `ax` reads the
/// sub-block of `y` at `blkoff + ax * nq` and runs the transpose chain with
/// the gradient matrix on axis `ax`.
pub open spec fn grad_tr_sum(
    im: Seq<int>, gm: Seq<int>, p: nat, q: nat, d: nat, nq: nat,
    y: Seq<int>, blkoff: int, idx: int, acount: nat,
) -> int
    decreases acount,
{
    if acount == 0 {
        0
    } else {
        grad_tr_sum(im, gm, p, q, d, nq, y, blkoff, idx, (acount - 1) as nat)
            + chain_tr(im, gm, acount - 1, p, q, d, 1,
                y.subrange(blkoff + (acount - 1) * nq, blkoff + (acount - 1) * nq + nq))[idx]
    }
}

/// What a successful `apply` writes on a tensor-product basis: the
/// sum-factorized chains applied blockwise. The selector `m.dim` in the
/// interpolation cases matches no pass, so every pass uses the
/// interpolation matrix.
pub open spec fn tensor_apply_out(
    m: BasisModel, nelem: nat, tmode: TransposeMode, emode: EvalMode, u: Seq<int>,
) -> Seq<int> {
    let nn = m.nnodes as int;
    let nq = m.nqpts as int;
    let d = m.dim as int;
    match (tmode, emode) {
        (TransposeMode::NoTranspose, EvalMode::Weight) => weight_out(m, nelem),
        (TransposeMode::NoTranspose, EvalMode::Interp) =>
            Seq::new((nelem * m.ncomp * m.nqpts) as nat, |k: int|
                chain_fwd(m.interp, m.interp, d, m.p1d, m.q1d, m.dim, 1,
                    u.subrange((k / nq) * nn, (k / nq) * nn + nn))[k % nq]),
        (TransposeMode::Transpose, EvalMode::Interp) =>
            Seq::new((nelem * m.ncomp * m.nnodes) as nat, |k: int|
                chain_tr(m.interp, m.interp, d, m.p1d, m.q1d, m.dim, 1,
                    u.subrange((k / nn) * nq, (k / nn) * nq + nq))[k % nn]),
        (TransposeMode::NoTranspose, _) =>
            Seq::new((nelem * m.ncomp * m.dim * m.nqpts) as nat, |k: int|
                chain_fwd(m.interp, m.grad, (k / nq) % d, m.p1d, m.q1d, m.dim, 1,
                    u.subrange((k / (d * nq)) * nn, (k / (d * nq)) * nn + nn))[k % nq]),
        (TransposeMode::Transpose, _) =>
            Seq::new((nelem * m.ncomp * m.nnodes) as nat, |k: int|
                grad_tr_sum(m.interp, m.grad, m.p1d, m.q1d, m.dim, m.nqpts,
                    u, (k / nn) * (d * nq), k % nn, m.dim)),
    }
}

/// What a successful `apply` writes, for every basis kind and mode.
pub open spec fn apply_out(
    m: BasisModel, nelem: nat, tmode: TransposeMode, emode: EvalMode, u: Seq<int>,
) -> Seq<int> {
    if m.tensor {
        tensor_apply_out(m, nelem, tmode, emode, u)
    } else {
        dense_apply_out(m, nelem, tmode, emode, u)
    }
}

/// Products of two small powers stay below `1024^3`.
proof fn lemma_npow_prod_cap(p: nat, q: nat, i: nat, j: nat)
    requires
        1 <= p <= 1024,
        1 <= q <= 1024,
        i + j <= 3,
    ensures
        1 <= npow(p, i) * npow(q, j) <= 1073741824,
        npow(p, i) * npow(q, j) <= usize::MAX,
{
    lemma_npow_cap(p, i);
    lemma_npow_cap(q, j);
    let a = npow(p, i);
    let b = npow(q, j);
    if i == 0 {
        assert(a == 1);
        assert(a * b == b) by (nonlinear_arith) requires a == 1;
    } else if j == 0 {
        assert(b == 1);
        assert(a * b == a) by (nonlinear_arith) requires b == 1;
    } else if i == 1 && j == 1 {
        assert(a == p * npow(p, 0) && npow(p, 0) == 1);
        assert(b == q * npow(q, 0) && npow(q, 0) == 1);
        assert(a * b <= 1048576) by (nonlinear_arith)
            requires a == p * 1, b == q * 1, 1 <= p <= 1024, 1 <= q <= 1024;
    } else if i == 1 && j == 2 {
        assert(b == q * npow(q, 1) && npow(q, 1) == q * npow(q, 0) && npow(q, 0) == 1);
        assert(a == p * npow(p, 0) && npow(p, 0) == 1);
        assert(b <= 1048576) by (nonlinear_arith)
            requires b == q * (q * 1), 1 <= q <= 1024;
        assert(a * b <= 1073741824) by (nonlinear_arith)
            requires a == p * 1, 1 <= p <= 1024, 1 <= b <= 1048576;
    } else {
        assert(i == 2 && j == 1);
        assert(a == p * npow(p, 1) && npow(p, 1) == p * npow(p, 0) && npow(p, 0) == 1);
        assert(b == q * npow(q, 0) && npow(q, 0) == 1);
        assert(a <= 1048576) by (nonlinear_arith)
            requires a == p * (p * 1), 1 <= p <= 1024;
        assert(a * b <= 1073741824) by (nonlinear_arith)
            requires 1 <= a <= 1048576, b == q * 1, 1 <= q <= 1024;
    }
    assert(1 <= a * b) by (nonlinear_arith) requires 1 <= a, 1 <= b;
}

/// Run the `d` forward sum-factorization passes on one block. Pass `gsel`
/// uses the gradient matrix `gm`; passing `gsel == d` selects none, which
/// gives pure interpolation.
fn tensor_block_fwd(
    im: &Vec<i128>, gm: &Vec<i128>, gsel: usize, p: usize, q: usize, d: usize,
    x: &Vec<i128>, Ghost(cap): Ghost<int>,
) -> (r: Vec<i128>)
    requires
        im@.len() == q * p,
        gm@.len() == q * p,
        1 <= p <= TENSOR_SIDE_CAP,
        1 <= q <= TENSOR_SIDE_CAP,
        1 <= d <= 3,
        x@.len() == npow(p as nat, d as nat),
        cap == tensor_val_cap(d as nat),
        all_bounded(as_ints(im@), cap),
        all_bounded(as_ints(gm@), cap),
        all_bounded(as_ints(x@), cap),
    ensures
        r@.len() == npow(q as nat, d as nat),
        as_ints(r@) == chain_fwd(as_ints(im@), as_ints(gm@), gsel as int,
            p as nat, q as nat, d as nat, 1, as_ints(x@)),
        all_bounded(as_ints(r@), fcap(p as nat, cap, d as nat)),
{
    let ghost imi = as_ints(im@);
    let ghost gmi = as_ints(gm@);
    let ghost xi = as_ints(x@);
    let x_len = x.len();
    proof {
        lemma_fcap_fits(p as nat, d as nat, 0);
    }
    let mut work: Vec<i128> = copy_block(x, 0, x_len);
    proof {
        assert(as_ints(work@) =~= xi);
        assert(npow(q as nat, 0) == 1);
        assert(npow(p as nat, d as nat) * npow(q as nat, 0) == npow(p as nat, d as nat))
            by (nonlinear_arith)
            requires npow(q as nat, 0) == 1;
        assert(chain_fwd(imi, gmi, gsel as int, p as nat, q as nat, 0,
            npow(p as nat, d as nat), xi) == xi);
    }
    let mut k: usize = 0;
    while k < d
        invariant
            k <= d,
            1 <= d <= 3,
            1 <= p <= TENSOR_SIDE_CAP,
            1 <= q <= TENSOR_SIDE_CAP,
            im@.len() == q * p,
            gm@.len() == q * p,
            imi == as_ints(im@),
            gmi == as_ints(gm@),
            cap == tensor_val_cap(d as nat),
            all_bounded(imi, cap),
            all_bounded(gmi, cap),
            work@.len() == npow(p as nat, (d - k) as nat) * npow(q as nat, k as nat),
            as_ints(work@) == chain_fwd(imi, gmi, gsel as int, p as nat, q as nat,
                k as nat, npow(p as nat, (d - k) as nat), xi),
            all_bounded(as_ints(work@), fcap(p as nat, cap, k as nat)),
        decreases d - k,
    {
        let pre = upow(p, d - 1 - k);
        let post = upow(q, k);
        proof {
            lemma_npow_prod_cap(p as nat, q as nat, (d - k) as nat, k as nat);
            lemma_npow_prod_cap(p as nat, q as nat, (d - 1 - k) as nat, (k + 1) as nat);
            lemma_fcap_fits(p as nat, d as nat, k as nat);
            lemma_fcap_fits(p as nat, d as nat, (k + 1) as nat);
            lemma_fcap_le(p as nat, cap, (k + 1) as nat, d as nat);
            assert(fcap(p as nat, cap, (k + 1) as nat)
                == p * cap * fcap(p as nat, cap, k as nat));
            // the current work buffer has shape [p^(d-1-k), p, q^k]
            assert(npow(p as nat, (d - k) as nat)
                == p * npow(p as nat, (d - 1 - k) as nat));
            assert(npow(p as nat, (d - k) as nat) * npow(q as nat, k as nat)
                == npow(p as nat, (d - 1 - k) as nat) * p * npow(q as nat, k as nat))
                by (nonlinear_arith)
                requires npow(p as nat, (d - k) as nat)
                    == p * npow(p as nat, (d - 1 - k) as nat);
            assert(npow(q as nat, (k + 1) as nat) == q * npow(q as nat, k as nat));
            assert(npow(p as nat, (d - 1 - k) as nat) * npow(q as nat, (k + 1) as nat)
                == npow(p as nat, (d - 1 - k) as nat) * q * npow(q as nat, k as nat))
                by (nonlinear_arith)
                requires npow(q as nat, (k + 1) as nat) == q * npow(q as nat, k as nat);
        }
        let mat: &Vec<i128> = if k == gsel { gm } else { im };
        let next = axis_fwd_exec(mat, p, q, pre, post, &work, Ghost(cap),
            Ghost(fcap(p as nat, cap, k as nat)));
        proof {
            let ghost sel = if gsel as int == k as int { gmi } else { imi };
            assert(as_ints(next@) =~= axis_fwd(sel, p as nat, q as nat,
                pre as nat, post as nat, as_ints(work@)));
            assert(chain_fwd(imi, gmi, gsel as int, p as nat, q as nat, (k + 1) as nat,
                npow(p as nat, (d - 1 - k) as nat), xi)
                == axis_fwd(if gsel as int == k as int { gmi } else { imi },
                    p as nat, q as nat, npow(p as nat, (d - 1 - k) as nat),
                    npow(q as nat, k as nat),
                    chain_fwd(imi, gmi, gsel as int, p as nat, q as nat, k as nat,
                        (npow(p as nat, (d - 1 - k) as nat) * p) as nat, xi)));
            assert(npow(p as nat, (d - 1 - k) as nat) * p == npow(p as nat, (d - k) as nat))
                by (nonlinear_arith)
                requires npow(p as nat, (d - k) as nat)
                    == p * npow(p as nat, (d - 1 - k) as nat);
        }
        work = next;
        k = k + 1;
    }
    proof {
        assert(npow(p as nat, 0) == 1);
        assert(npow(p as nat, 0) * npow(q as nat, d as nat) == npow(q as nat, d as nat))
            by (nonlinear_arith)
            requires npow(p as nat, 0) == 1;
    }
    work
}

/// Run the `d` transpose sum-factorization passes on one block: the exact
/// adjoint of `tensor_block_fwd` with the same selector.
fn tensor_block_tr(
    im: &Vec<i128>, gm: &Vec<i128>, gsel: usize, p: usize, q: usize, d: usize,
    y: &Vec<i128>, Ghost(cap): Ghost<int>,
) -> (r: Vec<i128>)
    requires
        im@.len() == q * p,
        gm@.len() == q * p,
        1 <= p <= TENSOR_SIDE_CAP,
        1 <= q <= TENSOR_SIDE_CAP,
        1 <= d <= 3,
        y@.len() == npow(q as nat, d as nat),
        cap == tensor_val_cap(d as nat),
        all_bounded(as_ints(im@), cap),
        all_bounded(as_ints(gm@), cap),
        all_bounded(as_ints(y@), cap),
    ensures
        r@.len() == npow(p as nat, d as nat),
        as_ints(r@) == chain_tr(as_ints(im@), as_ints(gm@), gsel as int,
            p as nat, q as nat, d as nat, 1, as_ints(y@)),
        all_bounded(as_ints(r@), fcap(q as nat, cap, d as nat)),
{
    let ghost imi = as_ints(im@);
    let ghost gmi = as_ints(gm@);
    let ghost yi = as_ints(y@);
    let y_len = y.len();
    proof {
        lemma_fcap_fits(q as nat, d as nat, 0);
    }
    let mut work: Vec<i128> = copy_block(y, 0, y_len);
    proof {
        assert(as_ints(work@) =~= yi);
        assert(npow(p as nat, 0) == 1);
        assert(npow(p as nat, 0) * npow(q as nat, d as nat) == npow(q as nat, d as nat))
            by (nonlinear_arith)
            requires npow(p as nat, 0) == 1;
    }
    let ghost fullspec = chain_tr(imi, gmi, gsel as int, p as nat, q as nat, d as nat, 1, yi);
    let mut k: usize = 0;
    while k < d
        invariant
            k <= d,
            1 <= d <= 3,
            1 <= p <= TENSOR_SIDE_CAP,
            1 <= q <= TENSOR_SIDE_CAP,
            im@.len() == q * p,
            gm@.len() == q * p,
            imi == as_ints(im@),
            gmi == as_ints(gm@),
            cap == tensor_val_cap(d as nat),
            all_bounded(imi, cap),
            all_bounded(gmi, cap),
            fullspec == chain_tr(imi, gmi, gsel as int, p as nat, q as nat, d as nat, 1, yi),
            work@.len() == npow(p as nat, k as nat) * npow(q as nat, (d - k) as nat),
            fullspec == chain_tr(imi, gmi, gsel as int, p as nat, q as nat,
                (d - k) as nat, npow(p as nat, k as nat), as_ints(work@)),
            all_bounded(as_ints(work@), fcap(q as nat, cap, k as nat)),
        decreases d - k,
    {
        let pre = upow(p, k);
        let post = upow(q, d - 1 - k);
        proof {
            lemma_npow_prod_cap(p as nat, q as nat, k as nat, (d - k) as nat);
            lemma_npow_prod_cap(p as nat, q as nat, (k + 1) as nat, (d - 1 - k) as nat);
            lemma_fcap_fits(q as nat, d as nat, k as nat);
            lemma_fcap_fits(q as nat, d as nat, (k + 1) as nat);
            lemma_fcap_le(q as nat, cap, (k + 1) as nat, d as nat);
            assert(fcap(q as nat, cap, (k + 1) as nat)
                == q * cap * fcap(q as nat, cap, k as nat));
            // the current work buffer has shape [p^k, q, q^(d-1-k)]
            assert(npow(q as nat, (d - k) as nat)
                == q * npow(q as nat, (d - 1 - k) as nat));
            assert(npow(p as nat, k as nat) * npow(q as nat, (d - k) as nat)
                == npow(p as nat, k as nat) * q * npow(q as nat, (d - 1 - k) as nat))
                by (nonlinear_arith)
                requires npow(q as nat, (d - k) as nat)
                    == q * npow(q as nat, (d - 1 - k) as nat);
            assert(npow(p as nat, (k + 1) as nat) == p * npow(p as nat, k as nat));
            assert(npow(p as nat, (k + 1) as nat) * npow(q as nat, (d - 1 - k) as nat)
                == npow(p as nat, k as nat) * p * npow(q as nat, (d - 1 - k) as nat))
                by (nonlinear_arith)
                requires npow(p as nat, (k + 1) as nat) == p * npow(p as nat, k as nat);
        }
        let d_rem = d - k;
        let mat: &Vec<i128> = if gsel == d_rem - 1 { gm } else { im };
        let next = axis_tr_exec(mat, p, q, pre, post, &work, Ghost(cap),
            Ghost(fcap(q as nat, cap, k as nat)));
        proof {
            let ghost sel = if gsel as int == d_rem as int - 1 { gmi } else { imi };
            assert(as_ints(next@) =~= axis_tr(sel, p as nat, q as nat,
                pre as nat, post as nat, as_ints(work@)));
            assert(chain_tr(imi, gmi, gsel as int, p as nat, q as nat, d_rem as nat,
                npow(p as nat, k as nat), as_ints(work@))
                == chain_tr(imi, gmi, gsel as int, p as nat, q as nat, (d_rem - 1) as nat,
                    (npow(p as nat, k as nat) * p) as nat,
                    axis_tr(sel, p as nat, q as nat, npow(p as nat, k as nat),
                        npow(q as nat, (d_rem - 1) as nat), as_ints(work@))));
            assert(npow(p as nat, k as nat) * p == npow(p as nat, (k + 1) as nat));
        }
        work = next;
        k = k + 1;
    }
    proof {
        assert(chain_tr(imi, gmi, gsel as int, p as nat, q as nat, 0,
            npow(p as nat, d as nat), as_ints(work@)) == as_ints(work@));
        assert(npow(q as nat, 0) == 1);
        assert(npow(p as nat, d as nat) * npow(q as nat, 0) == npow(p as nat, d as nat))
            by (nonlinear_arith)
            requires npow(q as nat, 0) == 1;
    }
    work
}

/// The largest integer whose square does not exceed `n`.
pub open spec fn sqrt_floor(n: int) -> int {
    choose|r: int| #![trigger r * r] 0 <= r && r * r <= n && n < (r + 1) * (r + 1)
}

/// The defining property of `sqrt_floor` has at most one solution.
proof fn lemma_sqrt_floor_unique(n: int, r1: int, r2: int)
    requires
        0 <= r1 && r1 * r1 <= n && n < (r1 + 1) * (r1 + 1),
        0 <= r2 && r2 * r2 <= n && n < (r2 + 1) * (r2 + 1),
    ensures
        r1 == r2,
{
    if r1 < r2 {
        assert((r1 + 1) * (r1 + 1) <= r2 * r2) by (nonlinear_arith)
            requires 0 <= r1, r1 + 1 <= r2;
    }
    if r2 < r1 {
        assert((r2 + 1) * (r2 + 1) <= r1 * r1) by (nonlinear_arith)
            requires 0 <= r2, r2 + 1 <= r1;
    }
}

/// Integer square root by bisection.
fn isqrt(n: i128) -> (r: i128)
    requires
        0 <= n < 4_835_703_278_458_516_698_824_704,
    ensures
        r as int == sqrt_floor(n as int),
        0 <= r,
        r * r <= n,
        n < (r + 1) * (r + 1),
{
    let mut lo: i128 = 0;
    let mut hi: i128 = 2_199_023_255_552;
    proof {
        assert(hi * hi > n);
    }
    while lo + 1 < hi
        invariant
            0 <= lo < hi <= 2_199_023_255_552,
            lo * lo <= n,
            n < hi * hi,
        decreases hi - lo,
    {
        let mid = lo + (hi - lo) / 2;
        proof {
            assert(lo < mid < hi);
            assert(mid * mid <= 2_199_023_255_552i128 * 2_199_023_255_552i128)
                by (nonlinear_arith)
                requires 0 <= mid <= 2_199_023_255_552;
        }
        if mid * mid <= n {
            lo = mid;
        } else {
            hi = mid;
        }
    }
    proof {
        assert(hi == lo + 1);
        assert(exists|t: int| #![trigger t * t] 0 <= t && t * t <= n as int && (n as int) < (t + 1) * (t + 1)) by {
            assert(0 <= lo as int && (lo as int) * (lo as int) <= n as int
                && (n as int) < (lo as int + 1) * (lo as int + 1));
        }
        lemma_sqrt_floor_unique(n as int, lo as int, sqrt_floor(n as int));
    }
    lo
}

/// The fixed-point scale `create_tensor_H1_Lagrange` uses to represent the
/// unit of the reference interval, chosen per dimension so every entry
/// stays within the dimension's value cap.
pub open spec fn lagrange_scale(dim: nat) -> int {
    if dim == 1 {
        1_099_511_627_776int
    } else if dim == 2 {
        1_073_741_824int
    } else {
        1_048_576int
    }
}

/// The exact contents `create_tensor_H1_Lagrange` gives a basis: the 1-D
/// quadrature rule and the Lagrange matrices of the two-node basis, in
/// fixed point at `lagrange_scale(m.dim)`. Rows of `interp` and `grad`
/// hold the two Lagrange polynomials evaluated (resp. differentiated) at
/// one quadrature point.
pub open spec fn lagrange_model_ok(m: BasisModel, qmode: QuadMode) -> bool {
    let sm = lagrange_scale(m.dim);
    let nh = -(sm / 2);
    let ns = -sm;
    if qmode == QuadMode::Gauss && m.q1d == 1 {
        &&& m.qref == seq![0int]
        &&& m.qweight == seq![2 * sm]
        &&& m.interp == seq![sm / 2, sm / 2]
        &&& m.grad == seq![nh, sm / 2]
    } else if qmode == QuadMode::Gauss && m.q1d == 2 {
        let g = sqrt_floor(sm * sm / 3);
        let ng = -g;
        let ehi = (sm + g) / 2;
        let elo = (sm - g) / 2;
        &&& m.qref == seq![ng, g]
        &&& m.qweight == seq![sm, sm]
        &&& m.interp == seq![ehi, elo, elo, ehi]
        &&& m.grad == seq![nh, sm / 2, nh, sm / 2]
    } else if qmode == QuadMode::GaussLobatto && m.q1d == 2 {
        &&& m.qref == seq![ns, sm]
        &&& m.qweight == seq![sm, sm]
        &&& m.interp == seq![sm, 0int, 0int, sm]
        &&& m.grad == seq![nh, sm / 2, nh, sm / 2]
    } else if qmode == QuadMode::GaussLobatto && m.q1d == 3 {
        &&& m.qref == seq![ns, 0int, sm]
        &&& m.qweight == seq![sm / 3, 4 * sm / 3, sm / 3]
        &&& m.interp == seq![sm, 0int, sm / 2, sm / 2, 0int, sm]
        &&& m.grad == seq![nh, sm / 2, nh, sm / 2, nh, sm / 2]
    } else {
        false
    }
}

/// Overwrite `src.len()` entries of `dst` starting at `off`.
fn write_block(dst: &mut Vec<i128>, off: usize, src: &Vec<i128>)
    requires
        off + src@.len() <= old(dst)@.len(),
    ensures
        final(dst)@.len() == old(dst)@.len(),
        forall|k: int| 0 <= k < src@.len() ==> final(dst)@[off + k] == src@[k],
        forall|k: int| 0 <= k < old(dst)@.len() && !(off <= k < off + src@.len())
            ==> final(dst)@[k] == old(dst)@[k],
{
    let n = src.len();
    let dst_total = dst.len();
    let mut i: usize = 0;
    while i < n
        invariant
            i <= n,
            n == src@.len(),
            off + n <= dst@.len(),
            dst@.len() <= usize::MAX,
            dst@.len() == old(dst)@.len(),
            forall|k: int| 0 <= k < i ==> dst@[off + k] == src@[k],
            forall|k: int| 0 <= k < old(dst)@.len() && !(off <= k < off + i)
                ==> dst@[k] == old(dst)@[k],
        decreases n - i,
    {
        dst[off + i] = src[i];
        i = i + 1;
    }
}

/// Add `src` entrywise into the window of `dst` starting at `off`. `cd` and
/// `cs` bound the window entries and the addends.
fn add_block(dst: &mut Vec<i128>, off: usize, src: &Vec<i128>, Ghost(cd): Ghost<int>, Ghost(cs): Ghost<int>)
    requires
        off + src@.len() <= old(dst)@.len(),
        forall|k: int| 0 <= k < src@.len()
            ==> abs_le(#[trigger] old(dst)@[off + k] as int, cd),
        all_bounded(as_ints(src@), cs),
        cd >= 0,
        cs >= 0,
        cd + cs <= i128::MAX,
    ensures
        final(dst)@.len() == old(dst)@.len(),
        forall|k: int| 0 <= k < src@.len()
            ==> #[trigger] final(dst)@[off + k] as int
                == old(dst)@[off + k] as int + src@[k] as int,
        forall|k: int| 0 <= k < src@.len()
            ==> abs_le(#[trigger] final(dst)@[off + k] as int, cd + cs),
        forall|k: int| 0 <= k < old(dst)@.len() && !(off <= k < off + src@.len())
            ==> final(dst)@[k] == old(dst)@[k],
{
    let n = src.len();
    let dst_total = dst.len();
    let mut i: usize = 0;
    while i < n
        invariant
            i <= n,
            n == src@.len(),
            off + n <= dst@.len(),
            dst@.len() <= usize::MAX,
            dst@.len() == old(dst)@.len(),
            forall|k: int| i <= k < n
                ==> #[trigger] dst@[off + k] == old(dst)@[off + k],
            forall|k: int| 0 <= k < n
                ==> abs_le(#[trigger] old(dst)@[off + k] as int, cd),
            all_bounded(as_ints(src@), cs),
            cd >= 0,
            cs >= 0,
            cd + cs <= i128::MAX,
            forall|k: int| 0 <= k < i
                ==> #[trigger] dst@[off + k] as int
                    == old(dst)@[off + k] as int + src@[k] as int,
            forall|k: int| 0 <= k < i
                ==> abs_le(#[trigger] dst@[off + k] as int, cd + cs),
            forall|k: int| 0 <= k < old(dst)@.len() && !(off <= k < off + n)
                ==> dst@[k] == old(dst)@[k],
        decreases n - i,
    {
        let cur = dst[off + i];
        let inc = src[i];
        proof {
            assert(abs_le(as_ints(src@)[i as int], cs));
        }
        dst[off + i] = cur + inc;
        i = i + 1;
    }
}

/// The error an unsupported or mis-shaped `apply` call reports: modes the
/// basis cannot perform are backend failures, every other rejection is a
/// buffer-length mismatch.
pub open spec fn apply_err(tmode: TransposeMode, emode: EvalMode) -> Error {
    if !mode_supported(tmode, emode) {
        Error::BackendFailure
    } else {
        Error::DimensionMismatch
    }
}

/// `nelem * ncomp * per`, or `None` when it exceeds `usize`.
fn blocks_len(nelem: usize, ncomp: usize, per: usize) -> (r: Option<usize>)
    requires
        per >= 1,
        ncomp >= 1,
    ensures
        r matches Some(l) ==> l == nelem * ncomp * per,
        r is None ==> nelem * ncomp * per > usize::MAX,
{
    match nelem.checked_mul(ncomp) {
        Some(a) => match a.checked_mul(per) {
            Some(b) => Some(b),
            None => None,
        },
        None => {
            proof {
                assert(nelem * ncomp * per >= nelem * ncomp) by (nonlinear_arith)
                    requires per >= 1, nelem >= 0, ncomp >= 0;
            }
            None
        },
    }
}

impl Basis {
    /// Build a general (non-tensor-product) H1 basis from fully explicit
    /// matrices sized for the whole reference element. Fails with
    /// `InvalidShape` exactly when an array length does not match the shape
    /// implied by `nnodes`, `nqpts` and `dim`.
    pub fn create_H1(
        _ceed: &Ceed,
        topo: ElemTopology,
        ncomp: usize,
        nnodes: usize,
        nqpts: usize,
        interp: Vec<i128>,
        grad: Vec<i128>,
        qref: Vec<i128>,
        qweight: Vec<i128>,
        dim: usize,
    ) -> (r: Result<Basis, Error>)
        requires
            1 <= dim <= 3,
            1 <= ncomp,
            1 <= nnodes <= DENSE_SIDE_CAP,
            1 <= nqpts <= DENSE_SIDE_CAP,
            all_bounded(as_ints(interp@), VAL_CAP_DIM1 as int),
            all_bounded(as_ints(grad@), VAL_CAP_DIM1 as int),
            all_bounded(as_ints(qweight@), VAL_CAP_DIM1 as int),
        ensures
            r is Ok <==> {
                &&& interp@.len() == nqpts * nnodes
                &&& grad@.len() == dim * nqpts * nnodes
                &&& qref@.len() == dim * nqpts
                &&& qweight@.len() == nqpts
            },
            r is Err ==> r == Result::<Basis, Error>::Err(Error::InvalidShape),
            r matches Ok(b) ==> {
                &&& b@.wf()
                &&& !b@.tensor
                &&& b@.dim == dim
                &&& b@.ncomp == ncomp
                &&& b@.nnodes == nnodes
                &&& b@.nqpts == nqpts
                &&& b@.topo == topo
                &&& b@.interp == as_ints(interp@)
                &&& b@.grad == as_ints(grad@)
                &&& b@.qref == as_ints(qref@)
                &&& b@.qweight == as_ints(qweight@)
            },
    {
        let interp_len: usize = interp.len();
        let grad_len: usize = grad.len();
        let qref_len: usize = qref.len();
        let qweight_len: usize = qweight.len();
        proof {
            assert(dim * nqpts * nnodes == dim * (nqpts * nnodes)) by (nonlinear_arith);
        }
        let ok1 = match nqpts.checked_mul(nnodes) {
            Some(l) => interp_len == l,
            None => false,
        };
        let ok2 = match nqpts.checked_mul(nnodes) {
            Some(l) => match dim.checked_mul(l) {
                Some(l2) => grad_len == l2,
                None => false,
            },
            None => false,
        };
        let ok3 = match dim.checked_mul(nqpts) {
            Some(l) => qref_len == l,
            None => false,
        };
        let ok4 = qweight_len == nqpts;
        if !(ok1 && ok2 && ok3 && ok4) {
            return Err(Error::InvalidShape);
        }
        let mut wfull: Vec<i128> = Vec::new();
        let mut i: usize = 0;
        while i < nqpts
            invariant
                i <= nqpts,
                nqpts == qweight@.len(),
                wfull@.len() == i,
                forall|k: int| 0 <= k < i ==> wfull@[k] == qweight@[k],
            decreases nqpts - i,
        {
            wfull.push(qweight[i]);
            i = i + 1;
        }
        proof {
            assert(as_ints(wfull@) =~= as_ints(qweight@));
        }
        Ok(Basis {
            dim,
            ncomp,
            tensor: false,
            p1d: 0,
            q1d: 0,
            nnodes,
            nqpts,
            topo,
            interp,
            grad,
            qref,
            qweight,
            wfull,
        })
    }

    /// Build a tensor-product H1 basis from fully explicit 1-D matrices.
    /// The `dim`-dimensional interpolation and gradient operators are never
    /// materialized: `apply` contracts the 1-D matrices one reference axis
    /// at a time (sum factorization). Fails with `InvalidShape` exactly
    /// when an array length does not match `P1d`, `Q1d`.
    pub fn create_tensor_H1(
        _ceed: &Ceed,
        dim: usize,
        ncomp: usize,
        P1d: usize,
        Q1d: usize,
        interp1d: Vec<i128>,
        grad1d: Vec<i128>,
        qref1d: Vec<i128>,
        qweight1d: Vec<i128>,
    ) -> (r: Result<Basis, Error>)
        requires
            1 <= dim <= 3,
            1 <= ncomp,
            1 <= P1d <= TENSOR_SIDE_CAP,
            1 <= Q1d <= TENSOR_SIDE_CAP,
            all_bounded(as_ints(interp1d@), tensor_val_cap(dim as nat)),
            all_bounded(as_ints(grad1d@), tensor_val_cap(dim as nat)),
            all_bounded(as_ints(qweight1d@), tensor_val_cap(dim as nat)),
        ensures
            r is Ok <==> {
                &&& interp1d@.len() == Q1d * P1d
                &&& grad1d@.len() == Q1d * P1d
                &&& qref1d@.len() == Q1d
                &&& qweight1d@.len() == Q1d
            },
            r is Err ==> r == Result::<Basis, Error>::Err(Error::InvalidShape),
            r matches Ok(b) ==> {
                &&& b@.wf()
                &&& b@.tensor
                &&& b@.dim == dim
                &&& b@.ncomp == ncomp
                &&& b@.p1d == P1d
                &&& b@.q1d == Q1d
                &&& b@.nnodes == npow(P1d as nat, dim as nat)
                &&& b@.nqpts == npow(Q1d as nat, dim as nat)
                &&& b@.interp == as_ints(interp1d@)
                &&& b@.grad == as_ints(grad1d@)
                &&& b@.qref == as_ints(qref1d@)
                &&& b@.qweight == as_ints(qweight1d@)
            },
    {
        proof {
            assert(Q1d * P1d <= 1048576) by (nonlinear_arith)
                requires Q1d <= 1024, P1d <= 1024;
        }
        let qp: usize = Q1d * P1d;
        if !(interp1d.len() == qp && grad1d.len() == qp && qref1d.len() == Q1d
            && qweight1d.len() == Q1d) {
            return Err(Error::InvalidShape);
        }
        let nnodes = upow(P1d, dim);
        let nqpts = upow(Q1d, dim);
        let ghost cap = tensor_val_cap(dim as nat);
        let ghost qwi = as_ints(qweight1d@);
        proof {
            lemma_fcap_fits(1, dim as nat, dim as nat);
            assert(cap >= 1);
        }
        let mut wfull: Vec<i128> = Vec::new();
        let mut k: usize = 0;
        while k < nqpts
            invariant
                k <= nqpts,
                1 <= dim <= 3,
                1 <= Q1d <= TENSOR_SIDE_CAP,
                qweight1d@.len() == Q1d,
                qwi == as_ints(qweight1d@),
                all_bounded(qwi, cap),
                cap == tensor_val_cap(dim as nat),
                cap >= 1,
                wfull@.len() == k,
                forall|t: int| 0 <= t < k
                    ==> #[trigger] wfull@[t] as int == wprod(qwi, Q1d as nat, dim as nat, t),
            decreases nqpts - k,
        {
            let mut w: i128 = 1;
            let mut t: usize = k;
            let mut j: usize = 0;
            while j < dim
                invariant
                    j <= dim,
                    dim <= 3,
                    1 <= Q1d <= TENSOR_SIDE_CAP,
                    qweight1d@.len() == Q1d,
                    qwi == as_ints(qweight1d@),
                    all_bounded(qwi, cap),
                    cap == tensor_val_cap(dim as nat),
                    cap >= 1,
                    wprod(qwi, Q1d as nat, dim as nat, k as int)
                        == w as int * wprod(qwi, Q1d as nat, (dim - j) as nat, t as int),
                    abs_le(w as int, fcap(1, cap, j as nat)),
                decreases dim - j,
            {
                proof {
                    lemma_fcap_fits(1, dim as nat, dim as nat);
                    lemma_fcap_le(1, cap, j as nat, dim as nat);
                    lemma_fcap_le(1, cap, (j + 1) as nat, dim as nat);
                    assert(fcap(1, cap, (j + 1) as nat) == 1 * cap * fcap(1, cap, j as nat));
                }
                let e = qweight1d[t % Q1d];
                proof {
                    assert(abs_le(qwi[(t % Q1d) as int], cap));
                    assert(abs_le((w as int) * (e as int), fcap(1, cap, (j + 1) as nat)))
                        by (nonlinear_arith)
                        requires
                            abs_le(w as int, fcap(1, cap, j as nat)),
                            abs_le(e as int, cap),
                            cap >= 0,
                            fcap(1, cap, j as nat) >= 0,
                            fcap(1, cap, (j + 1) as nat) == 1 * cap * fcap(1, cap, j as nat);
                    let d_rem = (dim - j) as nat;
                    assert(wprod(qwi, Q1d as nat, d_rem, t as int)
                        == wprod(qwi, Q1d as nat, (d_rem - 1) as nat, t as int / Q1d as int)
                            * qwi[t as int % Q1d as int]);
                    assert(w as int * (wprod(qwi, Q1d as nat, (d_rem - 1) as nat,
                            t as int / Q1d as int) * qwi[t as int % Q1d as int])
                        == (w as int * qwi[t as int % Q1d as int])
                            * wprod(qwi, Q1d as nat, (d_rem - 1) as nat, t as int / Q1d as int))
                        by (nonlinear_arith);
                }
                w = w * e;
                t = t / Q1d;
                j = j + 1;
            }
            proof {
                assert(wprod(qwi, Q1d as nat, 0, t as int) == 1);
            }
            wfull.push(w);
            k = k + 1;
        }
        proof {
            lemma_npow_cap(P1d as nat, dim as nat);
            lemma_npow_cap(Q1d as nat, dim as nat);
        }
        Ok(Basis {
            dim,
            ncomp,
            tensor: true,
            p1d: P1d,
            q1d: Q1d,
            nnodes,
            nqpts,
            topo: ElemTopology::Line,
            interp: interp1d,
            grad: grad1d,
            qref: qref1d,
            qweight: qweight1d,
            wfull,
        })
    }

    /// Build a tensor-product Lagrange basis: nodes at the Gauss-Lobatto
    /// points of the reference interval, quadrature points and weights per
    /// `qmode`, and the 1-D Lagrange interpolation and gradient matrices
    /// evaluated there, in fixed point at `lagrange_scale(dim)`. The exact
    /// integer arithmetic provides the linear (two-node) basis with the
    /// closed-form quadrature rules of `lagrange_model_ok`; other node or
    /// point counts report `BackendFailure`.
    pub fn create_tensor_H1_Lagrange(
        ceed: &Ceed,
        dim: usize,
        ncomp: usize,
        P: usize,
        Q: usize,
        qmode: QuadMode,
    ) -> (r: Result<Basis, Error>)
        requires
            1 <= dim <= 3,
            1 <= ncomp,
        ensures
            r is Ok <==> (P == 2 && ((qmode == QuadMode::Gauss && (Q == 1 || Q == 2))
                || (qmode == QuadMode::GaussLobatto && (Q == 2 || Q == 3)))),
            r is Err ==> r == Result::<Basis, Error>::Err(Error::BackendFailure),
            r matches Ok(b) ==> {
                &&& b@.wf()
                &&& b@.tensor
                &&& b@.dim == dim
                &&& b@.ncomp == ncomp
                &&& b@.p1d == 2
                &&& b@.q1d == Q
                &&& b@.nnodes == npow(2, dim as nat)
                &&& b@.nqpts == npow(Q as nat, dim as nat)
                &&& lagrange_model_ok(b@, qmode)
            },
    {
        let supported = P == 2 && (match qmode {
            QuadMode::Gauss => Q == 1 || Q == 2,
            QuadMode::GaussLobatto => Q == 2 || Q == 3,
        });
        if !supported {
            return Err(Error::BackendFailure);
        }
        let s: i128 = if dim == 1 {
            1_099_511_627_776
        } else if dim == 2 {
            1_073_741_824
        } else {
            1_048_576
        };
        let ghost cap = tensor_val_cap(dim as nat);
        proof {
            assert(s as int == lagrange_scale(dim as nat));
            assert(2 * s <= cap);
        }
        let h: i128 = s / 2;
        let nh: i128 = -h;
        let ns: i128 = -s;
        let (interp1d, grad1d, qref1d, qweight1d): (Vec<i128>, Vec<i128>, Vec<i128>, Vec<i128>) =
            match qmode {
                QuadMode::Gauss => {
                    if Q == 1 {
                        (vec![h, h], vec![nh, h], vec![0], vec![2 * s])
                    } else {
                        proof {
                            assert(0 < s <= 1_099_511_627_776);
                            assert(s * s <= 1_099_511_627_776i128 * 1_099_511_627_776i128)
                                by (nonlinear_arith)
                                requires 0 < s <= 1_099_511_627_776;
                        }
                        let g = isqrt(s * s / 3);
                        proof {
                            assert(g <= s) by (nonlinear_arith)
                                requires
                                    0 <= g,
                                    0 < s,
                                    (g as int) * (g as int) <= (s as int) * (s as int) / 3;
                        }
                        let ng: i128 = -g;
                        let ehi: i128 = (s + g) / 2;
                        let elo: i128 = (s - g) / 2;
                        (vec![ehi, elo, elo, ehi],
                            vec![nh, h, nh, h], vec![ng, g], vec![s, s])
                    }
                },
                QuadMode::GaussLobatto => {
                    if Q == 2 {
                        (vec![s, 0, 0, s], vec![nh, h, nh, h], vec![ns, s], vec![s, s])
                    } else {
                        (vec![s, 0, h, h, 0, s], vec![nh, h, nh, h, nh, h],
                            vec![ns, 0, s], vec![s / 3, 4 * s / 3, s / 3])
                    }
                },
            };
        proof {
            assert(all_bounded(as_ints(interp1d@), cap)
                && all_bounded(as_ints(grad1d@), cap)
                && all_bounded(as_ints(qweight1d@), cap)) by {
                assert forall|i: int| 0 <= i < interp1d@.len()
                    implies abs_le(#[trigger] as_ints(interp1d@)[i], cap) by {
                    assert(as_ints(interp1d@)[i] == interp1d@[i] as int);
                }
                assert forall|i: int| 0 <= i < grad1d@.len()
                    implies abs_le(#[trigger] as_ints(grad1d@)[i], cap) by {
                    assert(as_ints(grad1d@)[i] == grad1d@[i] as int);
                }
                assert forall|i: int| 0 <= i < qweight1d@.len()
                    implies abs_le(#[trigger] as_ints(qweight1d@)[i], cap) by {
                    assert(as_ints(qweight1d@)[i] == qweight1d@[i] as int);
                }
            }
            assert(interp1d@.len() == Q * 2 && grad1d@.len() == Q * 2);
        }
        let ghost gi = as_ints(interp1d@);
        let ghost gg = as_ints(grad1d@);
        let ghost gr = as_ints(qref1d@);
        let ghost gw = as_ints(qweight1d@);
        let made = Basis::create_tensor_H1(ceed, dim, ncomp, 2, Q,
            interp1d, grad1d, qref1d, qweight1d);
        match made {
            Ok(b) => {
                proof {
                    let sm = lagrange_scale(dim as nat);
                    let nh = -(sm / 2);
                    let ns = -sm;
                    if qmode == QuadMode::Gauss && Q == 1 {
                        assert(b@.qref =~= seq![0int]);
                        assert(b@.qweight =~= seq![2 * sm]);
                        assert(b@.interp =~= seq![sm / 2, sm / 2]);
                        assert(b@.grad =~= seq![nh, sm / 2]);
                    } else if qmode == QuadMode::Gauss && Q == 2 {
                        let g = sqrt_floor(sm * sm / 3);
                        let ng = -g;
                        let ehi = (sm + g) / 2;
                        let elo = (sm - g) / 2;
                        assert(b@.qref =~= seq![ng, g]);
                        assert(b@.qweight =~= seq![sm, sm]);
                        assert(b@.interp =~= seq![ehi, elo, elo, ehi]);
                        assert(b@.grad =~= seq![nh, sm / 2, nh, sm / 2]);
                    } else if qmode == QuadMode::GaussLobatto && Q == 2 {
                        assert(b@.qref =~= seq![ns, sm]);
                        assert(b@.qweight =~= seq![sm, sm]);
                        assert(b@.interp =~= seq![sm, 0int, 0int, sm]);
                        assert(b@.grad =~= seq![nh, sm / 2, nh, sm / 2]);
                    } else {
                        assert(b@.qref =~= seq![ns, 0int, sm]);
                        assert(b@.qweight =~= seq![sm / 3, 4 * sm / 3, sm / 3]);
                        assert(b@.interp =~= seq![sm, 0int, sm / 2, sm / 2, 0int, sm]);
                        assert(b@.grad =~= seq![nh, sm / 2, nh, sm / 2, nh, sm / 2]);
                    }
                }
                Ok(b)
            },
            Err(_) => Err(Error::BackendFailure),
        }
    }

    /// The tensor-product engine behind `apply`: sum-factorized contraction
    /// of every block, after the shapes have been checked.
    #[allow(unused_variables)]
    fn apply_tensor(
        &self,
        nelem: usize,
        tmode: TransposeMode,
        is_grad: bool,
        nblk: usize,
        rows: usize,
        cols: usize,
        ud: &Vec<i128>,
        vd: &mut Vec<i128>,
        Ghost(m): Ghost<BasisModel>,
        Ghost(ui): Ghost<Seq<int>>,
        Ghost(out_spec): Ghost<Seq<int>>,
    ) -> (r: Result<(), Error>)
        requires
            self@.wf(),
            self@.tensor,
            m == self@,
            ui == as_ints(ud@),
            all_bounded(ui, m.cap()),
            rows as int == if is_grad { (m.dim * m.nqpts) as int } else { m.nqpts as int },
            cols == m.nnodes,
            nblk == nelem * m.ncomp,
            tmode is NoTranspose ==> ud@.len() == nblk * cols
                && old(vd)@.len() == nblk * rows,
            tmode is Transpose ==> ud@.len() == nblk * rows
                && old(vd)@.len() == nblk * cols,
            nblk * cols <= usize::MAX,
            nblk * rows <= usize::MAX,
            out_spec == tensor_apply_out(m, nelem as nat, tmode,
                if is_grad { EvalMode::Grad } else { EvalMode::Interp }, ui),
        ensures
            r is Ok,
            final(vd)@.len() == old(vd)@.len(),
            forall|k: int| 0 <= k < final(vd)@.len()
                ==> #[trigger] final(vd)@[k] as int == out_spec[k],
    {
        let p = self.p1d;
        let q = self.q1d;
        let d = self.dim;
        let nq = self.nqpts;
        let ghost cap = m.cap();
        let ghost imi = m.interp;
        let ghost gmi = m.grad;
        proof {
            lemma_npow_cap(p as nat, d as nat);
            lemma_npow_cap(q as nat, d as nat);
            lemma_fcap_fits(p as nat, d as nat, d as nat);
            lemma_fcap_fits(q as nat, d as nat, d as nat);
            assert(cols >= 1 && nq >= 1);
            assert(nblk * cols == nelem * m.ncomp * m.nnodes) by (nonlinear_arith)
                requires nblk == nelem * m.ncomp, cols == m.nnodes;
            if is_grad {
                assert(rows >= 1) by (nonlinear_arith)
                    requires rows as int == (m.dim * m.nqpts) as int, m.dim >= 1, m.nqpts >= 1;
                assert(nblk * rows == nelem * m.ncomp * (m.dim * m.nqpts)) by (nonlinear_arith)
                    requires nblk == nelem * m.ncomp,
                        rows as int == (m.dim * m.nqpts) as int;
                assert(nelem * m.ncomp * (m.dim * m.nqpts)
                    == nelem * m.ncomp * m.dim * m.nqpts) by (nonlinear_arith);
            } else {
                assert(nblk * rows == nelem * m.ncomp * m.nqpts) by (nonlinear_arith)
                    requires nblk == nelem * m.ncomp, rows == m.nqpts;
            }
        }
        match tmode {
            TransposeMode::NoTranspose => {
                let comps: usize = if is_grad { d } else { 1 };
                proof {
                    if is_grad {
                        assert(rows == comps * nq);
                    } else {
                        assert(comps * nq == nq) by (nonlinear_arith)
                            requires comps == 1;
                    }
                }
                let mut blk: usize = 0;
                while blk < nblk
                    invariant
                        blk <= nblk,
                        m == self@,
                        m.wf(),
                        m.tensor,
                        cap == m.cap(),
                        imi == m.interp,
                        gmi == m.grad,
                        ui == as_ints(ud@),
                        all_bounded(ui, cap),
                        1 <= p <= TENSOR_SIDE_CAP && p == m.p1d,
                        1 <= q <= TENSOR_SIDE_CAP && q == m.q1d,
                        1 <= d <= 3 && d == m.dim,
                        nq == m.nqpts,
                        cols == m.nnodes,
                        comps as int == if is_grad { d as int } else { 1int },
                        rows == comps * nq,
                        ud@.len() == nblk * cols,
                        vd@.len() == nblk * rows,
                        vd@.len() == old(vd)@.len(),
                        nblk * cols <= usize::MAX,
                        nblk * rows <= usize::MAX,
                        tmode is NoTranspose,
                        out_spec == tensor_apply_out(m, nelem as nat, tmode,
                            if is_grad { EvalMode::Grad } else { EvalMode::Interp }, ui),
                        nblk == nelem * m.ncomp,
                        cols >= 1,
                        nq >= 1,
                        rows >= 1,
                        nblk * cols as int == (nelem * m.ncomp * m.nnodes) as int,
                        is_grad ==> nblk * rows as int
                            == (nelem * m.ncomp * m.dim * m.nqpts) as int,
                        !is_grad ==> nblk * rows as int == (nelem * m.ncomp * m.nqpts) as int,
                        forall|k: int| 0 <= k < blk * rows
                            ==> #[trigger] vd@[k] as int == out_spec[k],
                    decreases nblk - blk,
                {
                    proof {
                        assert(blk * cols + cols <= nblk * cols && 0 <= blk * cols
                            && blk * rows + rows <= nblk * rows && 0 <= blk * rows)
                            by (nonlinear_arith)
                            requires blk < nblk, cols >= 1, rows >= 1;
                    }
                    let xb = copy_block(ud, blk * cols, cols);
                    proof {
                        assert(as_ints(xb@) =~= ui.subrange((blk * cols) as int,
                            (blk * cols + cols) as int));
                    }
                    let mut ax: usize = 0;
                    while ax < comps
                        invariant
                            ax <= comps,
                            blk < nblk,
                            m == self@,
                            m.wf(),
                            m.tensor,
                            cap == m.cap(),
                            imi == m.interp,
                            gmi == m.grad,
                            ui == as_ints(ud@),
                            all_bounded(ui, cap),
                            1 <= p <= TENSOR_SIDE_CAP && p == m.p1d,
                            1 <= q <= TENSOR_SIDE_CAP && q == m.q1d,
                            1 <= d <= 3 && d == m.dim,
                            nq == m.nqpts,
                            cols == m.nnodes,
                            comps as int == if is_grad { d as int } else { 1int },
                            rows == comps * nq,
                            ud@.len() == nblk * cols,
                            vd@.len() == nblk * rows,
                            vd@.len() == old(vd)@.len(),
                            nblk * cols <= usize::MAX,
                            nblk * rows <= usize::MAX,
                            blk * rows + rows <= nblk * rows,
                            0 <= blk * rows,
                            blk * cols + cols <= nblk * cols,
                            0 <= blk * cols,
                            xb@.len() == cols,
                            as_ints(xb@) == ui.subrange((blk * cols) as int,
                                (blk * cols + cols) as int),
                            tmode is NoTranspose,
                            out_spec == tensor_apply_out(m, nelem as nat, tmode,
                                if is_grad { EvalMode::Grad } else { EvalMode::Interp }, ui),
                            nblk == nelem * m.ncomp,
                        cols >= 1,
                        nq >= 1,
                        rows >= 1,
                        nblk * cols as int == (nelem * m.ncomp * m.nnodes) as int,
                        is_grad ==> nblk * rows as int
                            == (nelem * m.ncomp * m.dim * m.nqpts) as int,
                        !is_grad ==> nblk * rows as int == (nelem * m.ncomp * m.nqpts) as int,
                            forall|k: int| 0 <= k < blk * rows + ax * nq
                                ==> #[trigger] vd@[k] as int == out_spec[k],
                        decreases comps - ax,
                    {
                        let gsel: usize = if is_grad { ax } else { d };
                        let gmat: &Vec<i128> = if is_grad { &self.grad } else { &self.interp };
                        let rblk = tensor_block_fwd(&self.interp, gmat, gsel, p, q, d,
                            &xb, Ghost(cap));
                        proof {
                            assert(ax * nq + nq <= comps * nq && 0 <= ax * nq)
                                by (nonlinear_arith)
                                requires ax < comps, nq >= 1;
                        }
                        let off: usize = blk * rows + ax * nq;
                        write_block(vd, off, &rblk);
                        proof {
                            let emode_g = if is_grad { EvalMode::Grad } else { EvalMode::Interp };
                            assert forall|i: int| 0 <= i < nq
                                implies #[trigger] vd@[off + i] as int == out_spec[off + i] by {
                                let k2 = off + i;
                                assert(vd@[k2] as int == as_ints(rblk@)[i]);
                                if is_grad {
                                    lemma_idx3(blk as int, ax as int, i, d as nat, nq as nat);
                                    assert(k2 == blk * ((d * nq) as int) + ax * (nq as int) + i) by {
                                        assert(rows == d * nq);
                                        assert(blk * (rows as int) == blk * ((d * nq) as int));
                                    }
                                    assert(k2 / ((d * nq) as int) == blk as int
                                        && (k2 / (nq as int)) % (d as int) == ax as int
                                        && k2 % (nq as int) == i);
                                    assert((k2 / ((m.dim * m.nqpts) as int)) * (m.nnodes as int)
                                        == (blk * cols) as int) by {
                                        assert((blk as int) * (cols as int) == (blk * cols) as int);
                                    }
                                    assert(out_spec[k2] == chain_fwd(imi, gmi, ax as int,
                                        m.p1d, m.q1d, m.dim, 1,
                                        ui.subrange((blk * cols) as int,
                                            (blk * cols) as int + m.nnodes as int))[i]);
                                } else {
                                    assert(rows == nq);
                                    vstd::arithmetic::div_mod::lemma_fundamental_div_mod_converse(
                                        k2, nq as int, blk as int, i);
                                    assert((k2 / (m.nqpts as int)) * (m.nnodes as int)
                                        == (blk * cols) as int) by {
                                        assert((blk as int) * (cols as int) == (blk * cols) as int);
                                    }
                                    assert(0 <= k2 < (nelem * m.ncomp * m.nqpts) as int);
                                    assert(out_spec[k2] == chain_fwd(imi, imi, m.dim as int,
                                        m.p1d, m.q1d, m.dim, 1,
                                        ui.subrange((blk * cols) as int,
                                            (blk * cols) as int + m.nnodes as int))[i]);
                                }
                            }
                            assert forall|k: int| 0 <= k < blk * rows + (ax + 1) * nq
                                implies #[trigger] vd@[k] as int == out_spec[k] by {
                                assert((ax + 1) * nq == ax * nq + nq) by (nonlinear_arith);
                                if k >= blk * rows + ax * nq {
                                    let i = k - off;
                                    assert(vd@[off + i] as int == out_spec[off + i]);
                                    assert(off + i == k);
                                }
                            }
                        }
                        ax = ax + 1;
                    }
                    proof {
                        assert((blk + 1) * rows == blk * rows + comps * nq) by (nonlinear_arith)
                            requires rows == comps * nq;
                    }
                    blk = blk + 1;
                }
                Ok(())
            },
            TransposeMode::Transpose => {
                let mut blk: usize = 0;
                while blk < nblk
                    invariant
                        blk <= nblk,
                        m == self@,
                        m.wf(),
                        m.tensor,
                        cap == m.cap(),
                        imi == m.interp,
                        gmi == m.grad,
                        ui == as_ints(ud@),
                        all_bounded(ui, cap),
                        1 <= p <= TENSOR_SIDE_CAP && p == m.p1d,
                        1 <= q <= TENSOR_SIDE_CAP && q == m.q1d,
                        1 <= d <= 3 && d == m.dim,
                        nq == m.nqpts,
                        cols == m.nnodes,
                        rows as int == if is_grad { (m.dim * m.nqpts) as int } else { m.nqpts as int },
                        rows >= 1,
                        ud@.len() == nblk * rows,
                        vd@.len() == nblk * cols,
                        vd@.len() == old(vd)@.len(),
                        nblk * cols <= usize::MAX,
                        nblk * rows <= usize::MAX,
                        tmode is Transpose,
                        out_spec == tensor_apply_out(m, nelem as nat, tmode,
                            if is_grad { EvalMode::Grad } else { EvalMode::Interp }, ui),
                        nblk == nelem * m.ncomp,
                        cols >= 1,
                        nq >= 1,
                        rows >= 1,
                        nblk * cols as int == (nelem * m.ncomp * m.nnodes) as int,
                        is_grad ==> nblk * rows as int
                            == (nelem * m.ncomp * m.dim * m.nqpts) as int,
                        !is_grad ==> nblk * rows as int == (nelem * m.ncomp * m.nqpts) as int,
                        forall|k: int| 0 <= k < blk * cols
                            ==> #[trigger] vd@[k] as int == out_spec[k],
                    decreases nblk - blk,
                {
                    proof {
                        assert(blk * cols + cols <= nblk * cols && 0 <= blk * cols
                            && blk * rows + rows <= nblk * rows && 0 <= blk * rows)
                            by (nonlinear_arith)
                            requires blk < nblk, cols >= 1, rows >= 1;
                    }
                    let oblk: usize = blk * cols;
                    if !is_grad {
                        let yb = copy_block(ud, blk * rows, rows);
                        proof {
                            assert(as_ints(yb@) =~= ui.subrange((blk * rows) as int,
                                (blk * rows + rows) as int));
                        }
                        let rblk = tensor_block_tr(&self.interp, &self.interp, d, p, q, d,
                            &yb, Ghost(cap));
                        write_block(vd, oblk, &rblk);
                        proof {
                            assert forall|i: int| 0 <= i < cols
                                implies #[trigger] vd@[oblk + i] as int == out_spec[oblk + i] by {
                                let k2 = oblk + i;
                                assert(vd@[k2] as int == as_ints(rblk@)[i]);
                                vstd::arithmetic::div_mod::lemma_fundamental_div_mod_converse(
                                    k2, cols as int, blk as int, i);
                                assert((k2 / (m.nnodes as int)) * (m.nqpts as int)
                                    == (blk * rows) as int) by {
                                    assert((blk as int) * (rows as int) == (blk * rows) as int);
                                }
                                assert(out_spec[k2] == chain_tr(imi, imi, m.dim as int,
                                    m.p1d, m.q1d, m.dim, 1,
                                    ui.subrange((blk * rows) as int,
                                        (blk * rows) as int + m.nqpts as int))[i]);
                            }
                        }
                    } else {
                        let zeros = zero_vec(cols);
                        write_block(vd, oblk, &zeros);
                        let ghost blkoff = (blk * rows) as int;
                        proof {
                            lemma_fcap_fits(q as nat, d as nat, d as nat);
                            assert(3 * fcap(q as nat, cap, d as nat) <= i128::MAX)
                                by (nonlinear_arith)
                                requires 0 <= fcap(q as nat, cap, d as nat) < SUM_CAP as int;
                            assert forall|i: int| 0 <= i < cols
                                implies #[trigger] vd@[oblk + i] as int
                                    == grad_tr_sum(imi, gmi, m.p1d, m.q1d, m.dim,
                                        m.nqpts, ui, blkoff, i, 0)
                                    && abs_le(vd@[oblk + i] as int,
                                        0 * fcap(q as nat, cap, d as nat)) by {
                                assert(grad_tr_sum(imi, gmi, m.p1d, m.q1d, m.dim,
                                    m.nqpts, ui, blkoff, i, 0) == 0);
                                assert(vd@[oblk + i] == zeros@[i]);
                                assert(zeros@[i] == 0i128);
                                assert(vd@[oblk + i] == 0i128);
                            }
                        }
                        let mut ax: usize = 0;
                        while ax < d
                            invariant
                                ax <= d,
                                blk < nblk,
                                m == self@,
                                m.wf(),
                                m.tensor,
                                cap == m.cap(),
                                imi == m.interp,
                                gmi == m.grad,
                                ui == as_ints(ud@),
                                all_bounded(ui, cap),
                                1 <= p <= TENSOR_SIDE_CAP && p == m.p1d,
                                1 <= q <= TENSOR_SIDE_CAP && q == m.q1d,
                                1 <= d <= 3 && d == m.dim,
                                nq == m.nqpts,
                                cols == m.nnodes,
                                is_grad,
                                rows == d * nq,
                                rows >= 1,
                                oblk == blk * cols,
                                blkoff == (blk * rows) as int,
                                blk * rows + rows <= nblk * rows,
                                0 <= blk * rows,
                                blk * cols + cols <= nblk * cols,
                                ud@.len() == nblk * rows,
                                vd@.len() == nblk * cols,
                                vd@.len() == old(vd)@.len(),
                                nblk * cols <= usize::MAX,
                                nblk * rows <= usize::MAX,
                                3 * fcap(q as nat, cap, d as nat) <= i128::MAX,
                                0 <= fcap(q as nat, cap, d as nat),
                                tmode is Transpose,
                                out_spec == tensor_apply_out(m, nelem as nat, tmode,
                                    EvalMode::Grad, ui),
                                nblk == nelem * m.ncomp,
                        cols >= 1,
                        nq >= 1,
                        rows >= 1,
                        nblk * cols as int == (nelem * m.ncomp * m.nnodes) as int,
                        is_grad ==> nblk * rows as int
                            == (nelem * m.ncomp * m.dim * m.nqpts) as int,
                        !is_grad ==> nblk * rows as int == (nelem * m.ncomp * m.nqpts) as int,
                                forall|k: int| 0 <= k < blk * cols
                                    ==> #[trigger] vd@[k] as int == out_spec[k],
                                forall|i: int| 0 <= i < cols
                                    ==> #[trigger] vd@[oblk + i] as int
                                        == grad_tr_sum(imi, gmi, m.p1d, m.q1d, m.dim,
                                            m.nqpts, ui, blkoff, i, ax as nat),
                                forall|i: int| 0 <= i < cols
                                    ==> abs_le(#[trigger] vd@[oblk + i] as int,
                                        ax * fcap(q as nat, cap, d as nat)),
                            decreases d - ax,
                        {
                            proof {
                                assert(ax * nq + nq <= d * nq && 0 <= ax * nq)
                                    by (nonlinear_arith)
                                    requires ax < d, nq >= 1;
                            }
                            let yb = copy_block(ud, blk * rows + ax * nq, nq);
                            proof {
                                assert(as_ints(yb@) =~= ui.subrange(blkoff + (ax as int) * (nq as int),
                                    blkoff + (ax as int) * (nq as int) + nq as int)) by {
                                    assert((ax as int) * (nq as int) == (ax * nq) as int);
                                }
                            }
                            let rblk = tensor_block_tr(&self.interp, &self.grad, ax, p, q, d,
                                &yb, Ghost(cap));
                            proof {
                                assert((ax + 1) * fcap(q as nat, cap, d as nat)
                                    == ax * fcap(q as nat, cap, d as nat)
                                        + fcap(q as nat, cap, d as nat)) by (nonlinear_arith);
                                assert((ax + 1) * fcap(q as nat, cap, d as nat)
                                    <= 3 * fcap(q as nat, cap, d as nat)) by (nonlinear_arith)
                                    requires ax + 1 <= 3, 0 <= fcap(q as nat, cap, d as nat);
                                assert(0 <= ax * fcap(q as nat, cap, d as nat))
                                    by (nonlinear_arith)
                                    requires 0 <= ax, 0 <= fcap(q as nat, cap, d as nat);
                            }
                            add_block(vd, oblk, &rblk,
                                Ghost(ax * fcap(q as nat, cap, d as nat)),
                                Ghost(fcap(q as nat, cap, d as nat)));
                            proof {
                                assert forall|i: int| 0 <= i < cols
                                    implies #[trigger] vd@[oblk + i] as int
                                        == grad_tr_sum(imi, gmi, m.p1d, m.q1d, m.dim,
                                            m.nqpts, ui, blkoff, i, (ax + 1) as nat) by {
                                    assert(as_ints(rblk@)[i] == chain_tr(imi, gmi, ax as int,
                                        m.p1d, m.q1d, m.dim, 1,
                                        ui.subrange(blkoff + (ax as int) * (nq as int),
                                            blkoff + (ax as int) * (nq as int) + nq as int))[i]);
                                }
                            }
                            ax = ax + 1;
                        }
                        proof {
                            assert forall|i: int| 0 <= i < cols
                                implies #[trigger] vd@[oblk + i] as int == out_spec[oblk + i] by {
                                let k2 = oblk + i;
                                vstd::arithmetic::div_mod::lemma_fundamental_div_mod_converse(
                                    k2, cols as int, blk as int, i);
                                assert((k2 / (m.nnodes as int)) * ((m.dim * m.nqpts) as int)
                                    == blkoff) by {
                                    assert(rows == d * nq);
                                    assert((blk as int) * (rows as int) == (blk * rows) as int);
                                }
                            }
                        }
                    }
                    proof {
                        assert forall|k: int| 0 <= k < (blk + 1) * cols
                            implies #[trigger] vd@[k] as int == out_spec[k] by {
                            assert((blk + 1) * cols == blk * cols + cols) by (nonlinear_arith);
                            if k >= blk * cols {
                                let i = k - oblk;
                                assert(vd@[oblk + i] as int == out_spec[oblk + i]);
                                assert(oblk + i == k);
                            }
                        }
                    }
                    blk = blk + 1;
                }
                proof {
                    assert(nblk * cols == vd@.len());
                }
                Ok(())
            },
        }
    }

    /// Contract this basis against per-element data. Forward mode maps
    /// node-space data to quadrature-space data through the interpolation or
    /// gradient matrix; transpose mode applies the exact transpose of the
    /// forward operator; `Weight` writes the quadrature weights broadcast
    /// over elements and ignores the input buffer. Succeeds exactly when the
    /// mode is supported and the buffer lengths match the shape implied by
    /// `nelem`, the mode pair and the basis; on failure the output buffer is
    /// left untouched.
    pub fn apply(
        &self,
        nelem: usize,
        tmode: TransposeMode,
        emode: EvalMode,
        u: &Vector,
        v: &mut Vector,
    ) -> (r: Result<(), Error>)
        requires
            self@.wf(),
            (emode is Interp || emode is Grad) ==> all_bounded(as_ints(u@), self@.cap()),
        ensures
            r is Ok <==> shape_ok(
                self@, nelem as nat, tmode, emode, u@.len() as int, old(v)@.len() as int),
            r matches Err(e) ==> {
                &&& final(v)@ == old(v)@
                &&& e == apply_err(tmode, emode)
            },
            r is Ok ==> {
                &&& final(v)@.len() == old(v)@.len()
                &&& forall|k: int| 0 <= k < final(v)@.len()
                    ==> #[trigger] final(v)@[k] as int
                        == apply_out(self@, nelem as nat, tmode, emode, as_ints(u@))[k]
            },
    {
        let ghost m = self@;
        match emode {
            EvalMode::NoEval | EvalMode::Div | EvalMode::Curl => Err(Error::BackendFailure),
            EvalMode::Weight => {
                match tmode {
                    TransposeMode::Transpose => Err(Error::BackendFailure),
                    TransposeMode::NoTranspose => {
                        let vlen: usize = v.len();
                        let ok = match nelem.checked_mul(self.nqpts) {
                            Some(l) => vlen == l,
                            None => false,
                        };
                        if !ok {
                            return Err(Error::DimensionMismatch);
                        }
                        let nqpts = self.nqpts;
                        proof {
                            assert(nelem * nqpts <= usize::MAX);
                        }
                        let vd = v.borrow_data_mut();
                        let ghost wout = weight_out(m, nelem as nat);
                        let mut e: usize = 0;
                        while e < nelem
                            invariant
                                e <= nelem,
                                m == self@,
                                m.wf(),
                                nqpts == m.nqpts,
                                vd@.len() == nelem * nqpts,
                                nelem * nqpts <= usize::MAX,
                                wout == weight_out(m, nelem as nat),
                                forall|k: int| 0 <= k < e * nqpts
                                    ==> #[trigger] vd@[k] as int == wout[k],
                            decreases nelem - e,
                        {
                            proof {
                                assert(e * nqpts + nqpts <= nelem * nqpts) by (nonlinear_arith)
                                    requires e < nelem, nqpts >= 0;
                                assert(e * nqpts >= 0) by (nonlinear_arith)
                                    requires e >= 0, nqpts >= 0;
                            }
                            let base: usize = e * nqpts;
                            let mut i: usize = 0;
                            while i < nqpts
                                invariant
                                    i <= nqpts,
                                    m == self@,
                                    m.wf(),
                                    nqpts == m.nqpts,
                                    e < nelem,
                                    base == e * nqpts,
                                    base + nqpts <= nelem * nqpts,
                                    nelem * nqpts <= usize::MAX,
                                    vd@.len() == nelem * nqpts,
                                    wout == weight_out(m, nelem as nat),
                                    forall|k: int| 0 <= k < base + i
                                        ==> #[trigger] vd@[k] as int == wout[k],
                                decreases nqpts - i,
                            {
                                let w = self.wfull[i];
                                vd[base + i] = w;
                                proof {
                                    vstd::arithmetic::div_mod::lemma_fundamental_div_mod_converse(
                                        (base + i) as int, nqpts as int, e as int, i as int);
                                    assert(wout[(base + i) as int] == m.wfull[i as int]);
                                    assert(vd@[(base + i) as int] as int == m.wfull[i as int]);
                                }
                                i = i + 1;
                            }
                            proof {
                                assert((e + 1) * nqpts == e * nqpts + nqpts) by (nonlinear_arith);
                            }
                            e = e + 1;
                        }
                        Ok(())
                    },
                }
            },
            EvalMode::Interp | EvalMode::Grad => {
                let is_grad = match emode {
                    EvalMode::Grad => true,
                    _ => false,
                };
                let ulen_x: usize = u.len();
                let vlen_x: usize = v.len();
                proof {
                    assert(m.dim * m.nqpts * m.nnodes == (m.dim * m.nqpts) * m.nnodes)
                        by (nonlinear_arith);
                    assert(nelem * m.ncomp * (m.dim * m.nqpts)
                        == nelem * m.ncomp * m.dim * m.nqpts) by (nonlinear_arith);
                    if m.tensor {
                        lemma_npow_cap(m.p1d, m.dim);
                        lemma_npow_cap(m.q1d, m.dim);
                        assert(m.dim * m.nqpts <= 3 * 1073741824) by (nonlinear_arith)
                            requires 1 <= m.dim <= 3, m.nqpts <= 1073741824;
                    } else {
                        assert(m.dim * m.nqpts <= 3 * (DENSE_SIDE_CAP as int))
                            by (nonlinear_arith)
                            requires 1 <= m.dim <= 3, m.nqpts <= DENSE_SIDE_CAP;
                    }
                }
                let rows: usize = if is_grad { self.dim * self.nqpts } else { self.nqpts };
                let cols: usize = self.nnodes;
                proof {
                    assert(m.dim * m.nqpts >= 1) by (nonlinear_arith)
                        requires m.dim >= 1, m.nqpts >= 1;
                }
                let in_per: usize = match tmode {
                    TransposeMode::NoTranspose => cols,
                    TransposeMode::Transpose => rows,
                };
                let out_per: usize = match tmode {
                    TransposeMode::NoTranspose => rows,
                    TransposeMode::Transpose => cols,
                };
                let exp_u = blocks_len(nelem, self.ncomp, in_per);
                let exp_v = blocks_len(nelem, self.ncomp, out_per);
                let ok = match (exp_u, exp_v) {
                    (Some(a), Some(b)) => u.len() == a && v.len() == b,
                    _ => false,
                };
                if !ok {
                    return Err(Error::DimensionMismatch);
                }
                let nblk: usize = match nelem.checked_mul(self.ncomp) {
                    Some(x) => x,
                    None => {
                        proof {
                            assert(nelem * self@.ncomp * in_per >= nelem * self@.ncomp)
                                by (nonlinear_arith)
                                requires in_per >= 1, nelem >= 0, self@.ncomp >= 0;
                        }
                        return Err(Error::DimensionMismatch);
                    },
                };
                let ghost cap = m.cap();
                let ghost ui = as_ints(u@);
                let ghost out_spec = apply_out(m, nelem as nat, tmode, emode, ui);
                proof {
                    assert(nblk * in_per == nelem * m.ncomp * in_per
                        && nblk * out_per == nelem * m.ncomp * out_per) by (nonlinear_arith)
                        requires nblk == nelem * m.ncomp;
                    assert(u@.len() == nblk * in_per && old(v)@.len() == nblk * out_per);
                    assert(nblk * in_per <= usize::MAX && nblk * out_per <= usize::MAX);
                }
                let ud = u.borrow_data();
                let vd = v.borrow_data_mut();
                if self.tensor {
                    return self.apply_tensor(nelem, tmode, is_grad, nblk, rows, cols,
                        ud, vd, Ghost(m), Ghost(ui), Ghost(out_spec));
                }
                proof {
                    assert(cols * cap * cap < SUM_CAP as int) by (nonlinear_arith)
                        requires
                            1 <= cols <= DENSE_SIDE_CAP,
                            0 <= cap <= VAL_CAP_DIM1 as int;
                    assert(rows * cap * cap < SUM_CAP as int) by (nonlinear_arith)
                        requires
                            1 <= rows <= 3 * DENSE_SIDE_CAP,
                            0 <= cap <= VAL_CAP_DIM1 as int;
                }
                let mat: &Vec<i128> = if is_grad { &self.grad } else { &self.interp };
                match tmode {
                    TransposeMode::NoTranspose => {
                        let mut blk: usize = 0;
                        while blk < nblk
                            invariant
                                blk <= nblk,
                                m == self@,
                                m.wf(),
                                cap == m.cap(),
                                mat@.len() == rows * cols,
                                rows >= 1,
                                cols >= 1,
                                all_bounded(as_ints(mat@), cap),
                                all_bounded(ui, cap),
                                ui == as_ints(ud@),
                                cols * cap * cap < SUM_CAP as int,
                                ud@.len() == nblk * cols,
                                vd@.len() == nblk * rows,
                                nblk * cols <= usize::MAX,
                                nblk * rows <= usize::MAX,
                                out_spec == fwd_out(as_ints(mat@), rows as nat, cols as nat,
                                    nblk as nat, ui),
                                forall|k: int| 0 <= k < blk * rows
                                    ==> #[trigger] vd@[k] as int == out_spec[k],
                            decreases nblk - blk,
                        {
                            proof {
                                assert(blk * cols + cols <= nblk * cols && 0 <= blk * cols
                                    && blk * rows + rows <= nblk * rows && 0 <= blk * rows)
                                    by (nonlinear_arith)
                                    requires blk < nblk, cols >= 1, rows >= 1;
                            }
                            let xoff: usize = blk * cols;
                            let ooff: usize = blk * rows;
                            dense_block_fwd(mat, rows, cols, ud, xoff, vd, ooff,
                                Ghost(cap), Ghost(cap));
                            proof {
                                assert forall|i: int| 0 <= i < rows
                                    implies #[trigger] vd@[ooff + i] as int
                                        == out_spec[ooff + i] by {
                                    vstd::arithmetic::div_mod::lemma_fundamental_div_mod_converse(
                                        ooff + i, rows as int, blk as int, i);
                                    assert(((ooff + i) / rows as int) * cols as int
                                        == blk * cols as int);
                                }
                                assert forall|k: int| 0 <= k < (blk + 1) * rows
                                    implies #[trigger] vd@[k] as int == out_spec[k] by {
                                    assert((blk + 1) * rows == blk * rows + rows)
                                        by (nonlinear_arith);
                                    if k >= blk * rows {
                                        let i = k - ooff;
                                        assert(vd@[ooff + i] as int == out_spec[ooff + i]);
                                        assert(ooff + i == k);
                                    }
                                }
                            }
                            blk = blk + 1;
                        }
                        proof {
                            assert(nblk * rows == vd@.len());
                        }
                        Ok(())
                    },
                    TransposeMode::Transpose => {
                        let mut blk: usize = 0;
                        while blk < nblk
                            invariant
                                blk <= nblk,
                                m == self@,
                                m.wf(),
                                cap == m.cap(),
                                mat@.len() == rows * cols,
                                rows >= 1,
                                cols >= 1,
                                all_bounded(as_ints(mat@), cap),
                                all_bounded(ui, cap),
                                ui == as_ints(ud@),
                                rows * cap * cap < SUM_CAP as int,
                                ud@.len() == nblk * rows,
                                vd@.len() == nblk * cols,
                                nblk * cols <= usize::MAX,
                                nblk * rows <= usize::MAX,
                                out_spec == tr_out(as_ints(mat@), rows as nat, cols as nat,
                                    nblk as nat, ui),
                                forall|k: int| 0 <= k < blk * cols
                                    ==> #[trigger] vd@[k] as int == out_spec[k],
                            decreases nblk - blk,
                        {
                            proof {
                                assert(blk * cols + cols <= nblk * cols && 0 <= blk * cols
                                    && blk * rows + rows <= nblk * rows && 0 <= blk * rows)
                                    by (nonlinear_arith)
                                    requires blk < nblk, cols >= 1, rows >= 1;
                            }
                            let yoff: usize = blk * rows;
                            let ooff: usize = blk * cols;
                            dense_block_tr(mat, rows, cols, ud, yoff, vd, ooff,
                                Ghost(cap), Ghost(cap));
                            proof {
                                assert forall|j: int| 0 <= j < cols
                                    implies #[trigger] vd@[ooff + j] as int
                                        == out_spec[ooff + j] by {
                                    vstd::arithmetic::div_mod::lemma_fundamental_div_mod_converse(
                                        ooff + j, cols as int, blk as int, j);
                                    assert(((ooff + j) / cols as int) * rows as int
                                        == blk * rows as int);
                                }
                                assert forall|k: int| 0 <= k < (blk + 1) * cols
                                    implies #[trigger] vd@[k] as int == out_spec[k] by {
                                    assert((blk + 1) * cols == blk * cols + cols)
                                        by (nonlinear_arith);
                                    if k >= blk * cols {
                                        let j = k - ooff;
                                        assert(vd@[ooff + j] as int == out_spec[ooff + j]);
                                        assert(ooff + j == k);
                                    }
                                }
                            }
                            blk = blk + 1;
                        }
                        proof {
                            assert(nblk * cols == vd@.len());
                        }
                        Ok(())
                    },
                }
            },
        }
    }

    /// Reference element dimension.
    pub fn get_dimension(&self) -> (r: usize)
        ensures
            r == self@.dim,
    {
        self.dim
    }

    /// Reference element topology. Tensor-product bases live on the line,
    /// quadrilateral or hexahedron matching their dimension.
    pub fn get_topology(&self) -> (r: ElemTopology)
        requires
            self@.wf(),
        ensures
            self@.tensor ==> r == (if self@.dim == 1 { ElemTopology::Line }
                else if self@.dim == 2 { ElemTopology::Quad } else { ElemTopology::Hex }),
            !self@.tensor ==> r == self@.topo,
    {
        if self.tensor {
            if self.dim == 1 {
                ElemTopology::Line
            } else if self.dim == 2 {
                ElemTopology::Quad
            } else {
                ElemTopology::Hex
            }
        } else {
            self.topo
        }
    }

    /// Number of field components.
    pub fn get_num_components(&self) -> (r: usize)
        ensures
            r == self@.ncomp,
    {
        self.ncomp
    }

    /// Total number of nodes per component.
    pub fn get_num_nodes(&self) -> (r: usize)
        ensures
            r == self@.nnodes,
    {
        self.nnodes
    }

    /// Total number of quadrature points.
    pub fn get_num_quadrature_points(&self) -> (r: usize)
        ensures
            r == self@.nqpts,
    {
        self.nqpts
    }
}

} // verus!
