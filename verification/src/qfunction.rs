//! Pointwise kernels ("quadrature functions").
//!
//! A pointwise kernel evaluates a physics expression independently at every
//! one of `q` quadrature points across a batch: output entry `i` depends
//! only on input entries at point `i`. The built-in registry provides the
//! mass-matrix build kernels; `QFunctionByName` resolves a textual name
//! against it.

use vstd::prelude::*;
use crate::contract::{abs_le, all_bounded, as_ints};
use crate::vector::Vector;
use crate::{Ceed, Error};

verus! {

/// The kernels the built-in registry knows.
#[derive(Clone, Copy, Debug, PartialEq, Eq, Structural)]
pub enum KernelKind {
    /// One space dimension: the quadrature data is the Jacobian times the
    /// quadrature weight at each point.
    MassBuild1D,
    /// Two space dimensions: the quadrature data is the Jacobian
    /// determinant times the quadrature weight at each point.
    MassBuild2D,
}

/// Magnitude cap on kernel inputs in one dimension: one product per point.
pub const QF_VAL_CAP_1D: i128 = 1_152_921_504_606_846_976;

/// Magnitude cap on kernel inputs in two dimensions: a 2 x 2 determinant
/// times the weight per point.
pub const QF_VAL_CAP_2D: i128 = 1_099_511_627_776;

/// The input cap a kernel imposes so its products stay inside `i128`.
pub open spec fn kernel_cap(kind: KernelKind) -> int {
    match kind {
        KernelKind::MassBuild1D => QF_VAL_CAP_1D as int,
        KernelKind::MassBuild2D => QF_VAL_CAP_2D as int,
    }
}

/// Number of scalars the Jacobian field carries per quadrature point.
pub open spec fn jac_comps(kind: KernelKind) -> int {
    match kind {
        KernelKind::MassBuild1D => 1,
        KernelKind::MassBuild2D => 4,
    }
}

/// The value a kernel writes at point `i`: Jacobian determinant at `i`
/// times weight at `i`. The Jacobian field stores component `c` of point
/// `i` at `i + c * q`.
pub open spec fn kernel_at(kind: KernelKind, j: Seq<int>, w: Seq<int>, q: int, i: int) -> int {
    match kind {
        KernelKind::MassBuild1D => j[i] * w[i],
        KernelKind::MassBuild2D => (j[i] * j[i + 3 * q] - j[i + q] * j[i + 2 * q]) * w[i],
    }
}

/// The buffer lengths an apply call must offer: a Jacobian field, a weight
/// field, and one output, each covering `q` points.
pub open spec fn kernel_shape_ok(kind: KernelKind, q: int, ins: Seq<Vector>, outs: Seq<Vector>) -> bool {
    &&& ins.len() == 2
    &&& outs.len() == 1
    &&& ins[0]@.len() >= q * jac_comps(kind)
    &&& ins[1]@.len() >= q
    &&& outs[0]@.len() >= q
}

/// Shared core of the pointwise kernel wrappers.
pub struct QFunctionCore {
    kind: KernelKind,
}

impl View for QFunctionCore {
    type V = KernelKind;

    closed spec fn view(&self) -> KernelKind {
        self.kind
    }
}

impl QFunctionCore {
    /// Wrap a kernel of the registry, created against the given context.
    pub fn new(_ceed: &Ceed, kind: KernelKind) -> (r: Self)
        ensures
            r@ == kind,
    {
        QFunctionCore { kind }
    }

    /// Evaluate the kernel at each of `q` points. Succeeds exactly when two
    /// inputs and one output are given and each covers `q` points; then the
    /// first `q` entries of the output hold the kernel values and nothing
    /// else changes. On failure nothing changes.
    pub fn apply(&self, q: usize, input: &Vec<Vector>, output: &mut Vec<Vector>) -> (r: Result<(), Error>)
        requires
            forall|t: int| 0 <= t < input@.len()
                ==> all_bounded(as_ints(#[trigger] input@[t]@), kernel_cap(self@)),
        ensures
            r is Ok <==> kernel_shape_ok(self@, q as int, input@, old(output)@),
            r is Err ==> final(output)@ == old(output)@
                && r == Result::<(), Error>::Err(Error::DimensionMismatch),
            r is Ok ==> {
                &&& final(output)@.len() == old(output)@.len()
                &&& final(output)@[0]@.len() == old(output)@[0]@.len()
                &&& forall|i: int| 0 <= i < q
                    ==> #[trigger] final(output)@[0]@[i] as int
                        == kernel_at(self@, as_ints(input@[0]@), as_ints(input@[1]@),
                            q as int, i)
                &&& forall|i: int| q <= i < old(output)@[0]@.len()
                    ==> final(output)@[0]@[i] == old(output)@[0]@[i]
                &&& forall|t: int| 1 <= t < old(output)@.len()
                    ==> final(output)@[t] == old(output)@[t]
            },
    {
        let ghost kind = self.kind;
        let ghost cap = kernel_cap(self.kind);
        let jcomps: usize = match self.kind {
            KernelKind::MassBuild1D => 1,
            KernelKind::MassBuild2D => 4,
        };
        if !(input.len() == 2 && output.len() == 1) {
            return Err(Error::DimensionMismatch);
        }
        let l0: usize = input[0].len();
        let l1: usize = input[1].len();
        let lo: usize = output[0].len();
        let shapes_ok = match q.checked_mul(jcomps) {
            Some(need_j) => l0 >= need_j && l1 >= q && lo >= q,
            None => false,
        };
        if !shapes_ok {
            return Err(Error::DimensionMismatch);
        }
        proof {
            assert(q * jcomps <= usize::MAX);
        }
        let jvec = &input[0];
        let wvec = &input[1];
        let ghost ji = as_ints(jvec@);
        let ghost wi = as_ints(wvec@);
        let out0: &mut Vector = &mut output[0];
        let mut i: usize = 0;
        while i < q
            invariant
                i <= q,
                kind == self@,
                cap == kernel_cap(kind),
                input@.len() == 2,
                q * jcomps <= usize::MAX,
                ji == as_ints(input@[0]@),
                wi == as_ints(input@[1]@),
                jvec@ == input@[0]@,
                wvec@ == input@[1]@,
                all_bounded(ji, cap),
                all_bounded(wi, cap),
                jcomps as int == jac_comps(kind),
                jvec@.len() >= q * jcomps,
                wvec@.len() >= q,
                out0@.len() >= q,
                out0@.len() == old(output)@[0]@.len(),
                forall|k: int| 0 <= k < i
                    ==> #[trigger] out0@[k] as int == kernel_at(kind, ji, wi, q as int, k),
                forall|k: int| i <= k < out0@.len()
                    ==> out0@[k] == old(output)@[0]@[k],
            decreases q - i,
        {
            proof {
                assert(q * jcomps >= q * 1) by (nonlinear_arith)
                    requires jcomps >= 1, q >= 0;
                assert(cap >= 0);
            }
            let val: i128 = match self.kind {
                KernelKind::MassBuild1D => {
                    let jv = jvec.read_at(i);
                    let wv = wvec.read_at(i);
                    proof {
                        assert(abs_le(ji[i as int], cap) && abs_le(wi[i as int], cap));
                        assert(abs_le((jv as int) * (wv as int), cap * cap))
                            by (nonlinear_arith)
                            requires abs_le(jv as int, cap), abs_le(wv as int, cap), cap >= 0;
                        assert(cap * cap < i128::MAX) by (nonlinear_arith)
                            requires 0 <= cap <= QF_VAL_CAP_1D as int;
                    }
                    jv * wv
                },
                KernelKind::MassBuild2D => {
                    proof {
                        assert(i + 3 * q < 4 * q && i + 2 * q < 4 * q && i + q < 4 * q)
                            by (nonlinear_arith)
                            requires i < q;
                        assert(q * jcomps == 4 * q) by (nonlinear_arith)
                            requires jcomps == 4;
                    }
                    let a = jvec.read_at(i);
                    let d = jvec.read_at(i + 3 * q);
                    let b = jvec.read_at(i + q);
                    let c = jvec.read_at(i + 2 * q);
                    let wv = wvec.read_at(i);
                    proof {
                        assert(abs_le(ji[i as int], cap) && abs_le(ji[i + 3 * q], cap)
                            && abs_le(ji[i + q], cap) && abs_le(ji[i + 2 * q], cap)
                            && abs_le(wi[i as int], cap));
                        assert(abs_le((a as int) * (d as int), cap * cap)
                            && abs_le((b as int) * (c as int), cap * cap))
                            by (nonlinear_arith)
                            requires
                                abs_le(a as int, cap), abs_le(d as int, cap),
                                abs_le(b as int, cap), abs_le(c as int, cap), cap >= 0;
                        assert(abs_le((a as int) * (d as int) - (b as int) * (c as int),
                            2 * (cap * cap)));
                        assert(abs_le(((a as int) * (d as int) - (b as int) * (c as int))
                            * (wv as int), 2 * (cap * cap) * cap)) by (nonlinear_arith)
                            requires
                                abs_le((a as int) * (d as int) - (b as int) * (c as int),
                                    2 * (cap * cap)),
                                abs_le(wv as int, cap),
                                cap >= 0;
                        assert(2 * (cap * cap) * cap < i128::MAX) by (nonlinear_arith)
                            requires 0 <= cap <= QF_VAL_CAP_2D as int;
                        assert(2 * (cap * cap) < i128::MAX) by (nonlinear_arith)
                            requires 0 <= cap <= QF_VAL_CAP_2D as int;
                        assert(cap * cap < i128::MAX) by (nonlinear_arith)
                            requires 0 <= cap <= QF_VAL_CAP_2D as int;
                    }
                    (a * d - b * c) * wv
                },
            };
            out0.write_at(i, val);
            i = i + 1;
        }
        Ok(())
    }
}

/// A pointwise kernel wrapped from a kernel value.
pub struct QFunction {
    pub qf_core: QFunctionCore,
}

impl QFunction {
    /// Evaluate the wrapped kernel; see `QFunctionCore::apply`.
    pub fn apply(&self, q: usize, input: &Vec<Vector>, output: &mut Vec<Vector>) -> (r: Result<(), Error>)
        requires
            forall|t: int| 0 <= t < input@.len()
                ==> all_bounded(as_ints(#[trigger] input@[t]@), kernel_cap(self.qf_core@)),
        ensures
            r is Ok <==> kernel_shape_ok(self.qf_core@, q as int, input@, old(output)@),
            r is Err ==> final(output)@ == old(output)@
                && r == Result::<(), Error>::Err(Error::DimensionMismatch),
            r is Ok ==> {
                &&& final(output)@.len() == old(output)@.len()
                &&& final(output)@[0]@.len() == old(output)@[0]@.len()
                &&& forall|i: int| 0 <= i < q
                    ==> #[trigger] final(output)@[0]@[i] as int
                        == kernel_at(self.qf_core@, as_ints(input@[0]@),
                            as_ints(input@[1]@), q as int, i)
                &&& forall|i: int| q <= i < old(output)@[0]@.len()
                    ==> final(output)@[0]@[i] == old(output)@[0]@[i]
                &&& forall|t: int| 1 <= t < old(output)@.len()
                    ==> final(output)@[t] == old(output)@[t]
            },
    {
        self.qf_core.apply(q, input, output)
    }
}

/// A pointwise kernel resolved from the registry by name.
pub struct QFunctionByName {
    pub qf_core: QFunctionCore,
}

impl QFunctionByName {
    /// Resolve `name` against the registry. Succeeds exactly on the names
    /// the registry knows; otherwise reports `UnknownKernel`.
    pub fn create(ceed: &Ceed, name: String) -> (r: Result<Self, Error>)
        ensures
            r is Ok <==> (name@ == "Mass1DBuild"@ || name@ == "Mass2DBuild"@),
            r is Err ==> r == Result::<Self, Error>::Err(Error::UnknownKernel),
            r matches Ok(qf) ==> qf.qf_core@ == (if name@ == "Mass1DBuild"@ {
                KernelKind::MassBuild1D
            } else {
                KernelKind::MassBuild2D
            }),
    {
        if name == "Mass1DBuild".to_owned() {
            Ok(QFunctionByName { qf_core: QFunctionCore::new(ceed, KernelKind::MassBuild1D) })
        } else if name == "Mass2DBuild".to_owned() {
            Ok(QFunctionByName { qf_core: QFunctionCore::new(ceed, KernelKind::MassBuild2D) })
        } else {
            Err(Error::UnknownKernel)
        }
    }

    /// Evaluate the resolved kernel; see `QFunctionCore::apply`.
    pub fn apply(&self, q: usize, input: &Vec<Vector>, output: &mut Vec<Vector>) -> (r: Result<(), Error>)
        requires
            forall|t: int| 0 <= t < input@.len()
                ==> all_bounded(as_ints(#[trigger] input@[t]@), kernel_cap(self.qf_core@)),
        ensures
            r is Ok <==> kernel_shape_ok(self.qf_core@, q as int, input@, old(output)@),
            r is Err ==> final(output)@ == old(output)@
                && r == Result::<(), Error>::Err(Error::DimensionMismatch),
            r is Ok ==> {
                &&& final(output)@.len() == old(output)@.len()
                &&& final(output)@[0]@.len() == old(output)@[0]@.len()
                &&& forall|i: int| 0 <= i < q
                    ==> #[trigger] final(output)@[0]@[i] as int
                        == kernel_at(self.qf_core@, as_ints(input@[0]@),
                            as_ints(input@[1]@), q as int, i)
                &&& forall|i: int| q <= i < old(output)@[0]@.len()
                    ==> final(output)@[0]@[i] == old(output)@[0]@[i]
                &&& forall|t: int| 1 <= t < old(output)@.len()
                    ==> final(output)@[t] == old(output)@[t]
            },
    {
        self.qf_core.apply(q, input, output)
    }
}

} // verus!
