use ceed_core::basis::{Basis, EvalMode, QuadMode, TransposeMode};
use ceed_core::qfunction::{KernelKind, QFunction, QFunctionByName, QFunctionCore};
use ceed_core::vector::Vector;
use ceed_core::{Ceed, Error};

const SCALE_1D: i128 = 1_099_511_627_776; // 2^40

#[test]
fn mass1d_build_scales_by_quadrature_weight() {
    // Mass1DBuild with Q = 3 and a constant Jacobian determinant: the output
    // is the input scaled by the corresponding quadrature weight per point.
    let ceed = Ceed::default_init();
    let qf = QFunctionByName::create(&ceed, "Mass1DBuild".to_owned()).unwrap();
    let basis = Basis::create_tensor_H1_Lagrange(&ceed, 1, 1, 2, 3, QuadMode::GaussLobatto).unwrap();
    let ignored = Vector::new(&ceed, 2);
    let mut weights = Vector::new(&ceed, 3);
    basis
        .apply(1, TransposeMode::NoTranspose, EvalMode::Weight, &ignored, &mut weights)
        .unwrap();
    let jac: i128 = 1; // constant Jacobian determinant of 1.0 in units of itself
    let j = Vector::from_values(&ceed, vec![jac, jac, jac]);
    let w = Vector::from_values(
        &ceed,
        vec![weights.read_at(0), weights.read_at(1), weights.read_at(2)],
    );
    let inputs = vec![j, w];
    let mut outputs = vec![Vector::new(&ceed, 3)];
    qf.apply(3, &inputs, &mut outputs).unwrap();
    for i in 0..3 {
        assert_eq!(outputs[0].read_at(i), jac * weights.read_at(i));
    }
    // and concretely, the Gauss-Lobatto weights at scale 2^40:
    assert_eq!(outputs[0].read_at(0), SCALE_1D / 3);
    assert_eq!(outputs[0].read_at(1), 4 * SCALE_1D / 3);
    assert_eq!(outputs[0].read_at(2), SCALE_1D / 3);
}

#[test]
fn mass2d_build_uses_determinant() {
    let ceed = Ceed::default_init();
    let qf = QFunctionByName::create(&ceed, "Mass2DBuild".to_owned()).unwrap();
    // one point: J = [[2, 3], [4, 5]] stored component-major, w = 7
    let j = Vector::from_values(&ceed, vec![2, 3, 4, 5]);
    let w = Vector::from_values(&ceed, vec![7]);
    let inputs = vec![j, w];
    let mut outputs = vec![Vector::new(&ceed, 1)];
    qf.apply(1, &inputs, &mut outputs).unwrap();
    // det = 2 * 5 - 3 * 4 = -2; qdata = -2 * 7
    assert_eq!(outputs[0].read_at(0), -14);
}

#[test]
fn unknown_kernel_name_is_rejected() {
    let ceed = Ceed::default_init();
    let r = QFunctionByName::create(&ceed, "NoSuchKernel".to_owned());
    assert!(matches!(r, Err(Error::UnknownKernel)));
}

#[test]
fn kernel_apply_checks_buffer_lengths() {
    let ceed = Ceed::default_init();
    let core = QFunctionCore::new(&ceed, KernelKind::MassBuild1D);
    let qf = QFunction { qf_core: core };
    let j = Vector::from_values(&ceed, vec![1, 2]);
    let w = Vector::from_values(&ceed, vec![3, 4, 5]);
    let inputs = vec![j, w];
    let mut outputs = vec![Vector::from_values(&ceed, vec![42, 43, 44])];
    // three points asked, but the Jacobian field holds only two
    let r = qf.apply(3, &inputs, &mut outputs);
    assert_eq!(r, Err(Error::DimensionMismatch));
    assert_eq!(outputs[0].read_at(0), 42);
    assert_eq!(outputs[0].read_at(1), 43);
    assert_eq!(outputs[0].read_at(2), 44);
}

#[test]
fn kernel_is_pointwise() {
    // evaluating point i reads only point i: permuting other points does
    // not change entry i.
    let ceed = Ceed::default_init();
    let core = QFunctionCore::new(&ceed, KernelKind::MassBuild1D);
    let qf = QFunction { qf_core: core };
    let inputs1 = vec![
        Vector::from_values(&ceed, vec![10, 20, 30]),
        Vector::from_values(&ceed, vec![1, 2, 3]),
    ];
    let inputs2 = vec![
        Vector::from_values(&ceed, vec![10, 99, 77]),
        Vector::from_values(&ceed, vec![1, 5, 6]),
    ];
    let mut out1 = vec![Vector::new(&ceed, 3)];
    let mut out2 = vec![Vector::new(&ceed, 3)];
    qf.apply(3, &inputs1, &mut out1).unwrap();
    qf.apply(3, &inputs2, &mut out2).unwrap();
    assert_eq!(out1[0].read_at(0), out2[0].read_at(0));
    assert_eq!(out1[0].read_at(0), 10);
    assert_eq!(out1[0].read_at(1), 40);
    assert_eq!(out1[0].read_at(2), 90);
}
