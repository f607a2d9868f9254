use ceed_core::basis::{Basis, ElemTopology, EvalMode, QuadMode, TransposeMode};
use ceed_core::vector::Vector;
use ceed_core::{Ceed, Error};

const SCALE_1D: i128 = 1_099_511_627_776; // 2^40, the 1-D Lagrange fixed-point scale

fn dense_line_basis(ceed: &Ceed) -> Basis {
    // 2 nodes, 2 quadrature points, dimension 1: interp rows [3,5] and [7,11].
    Basis::create_H1(
        ceed,
        ElemTopology::Line,
        1,
        2,
        2,
        vec![3, 5, 7, 11],
        vec![1, -1, 2, -2],
        vec![-10, 10],
        vec![4, 4],
        1,
    )
    .unwrap()
}

#[test]
fn dense_interp_forward_exact() {
    let ceed = Ceed::default_init();
    let b = dense_line_basis(&ceed);
    let u = Vector::from_values(&ceed, vec![2, 9]);
    let mut v = Vector::new(&ceed, 2);
    b.apply(1, TransposeMode::NoTranspose, EvalMode::Interp, &u, &mut v)
        .unwrap();
    assert_eq!(v.read_at(0), 3 * 2 + 5 * 9);
    assert_eq!(v.read_at(1), 7 * 2 + 11 * 9);
}

#[test]
fn dense_transpose_is_adjoint() {
    // dot(y, A x) == dot(A^T y, x), exactly, over several elements.
    let ceed = Ceed::default_init();
    let b = dense_line_basis(&ceed);
    let x = Vector::from_values(&ceed, vec![2, 9, -4, 6]);
    let y = Vector::from_values(&ceed, vec![5, -3, 1, 8]);
    let mut ax = Vector::new(&ceed, 4);
    let mut aty = Vector::new(&ceed, 4);
    b.apply(2, TransposeMode::NoTranspose, EvalMode::Interp, &x, &mut ax)
        .unwrap();
    b.apply(2, TransposeMode::Transpose, EvalMode::Interp, &y, &mut aty)
        .unwrap();
    let mut lhs: i128 = 0;
    let mut rhs: i128 = 0;
    for i in 0..4 {
        lhs += y.read_at(i) * ax.read_at(i);
        rhs += aty.read_at(i) * x.read_at(i);
    }
    assert_eq!(lhs, rhs);
}

#[test]
fn dense_grad_adjoint() {
    let ceed = Ceed::default_init();
    let b = dense_line_basis(&ceed);
    let x = Vector::from_values(&ceed, vec![2, 9]);
    let y = Vector::from_values(&ceed, vec![5, -3]);
    let mut gx = Vector::new(&ceed, 2);
    let mut gty = Vector::new(&ceed, 2);
    b.apply(1, TransposeMode::NoTranspose, EvalMode::Grad, &x, &mut gx)
        .unwrap();
    b.apply(1, TransposeMode::Transpose, EvalMode::Grad, &y, &mut gty)
        .unwrap();
    assert_eq!(gx.read_at(0), 1 * 2 + (-1) * 9);
    assert_eq!(gx.read_at(1), 2 * 2 + (-2) * 9);
    let lhs = y.read_at(0) * gx.read_at(0) + y.read_at(1) * gx.read_at(1);
    let rhs = gty.read_at(0) * x.read_at(0) + gty.read_at(1) * x.read_at(1);
    assert_eq!(lhs, rhs);
}

#[test]
fn weight_ignores_input() {
    let ceed = Ceed::default_init();
    let b = dense_line_basis(&ceed);
    let u1 = Vector::from_values(&ceed, vec![123, -456]);
    let u2 = Vector::from_values(&ceed, vec![0, 0]);
    let mut v1 = Vector::new(&ceed, 4);
    let mut v2 = Vector::new(&ceed, 4);
    b.apply(2, TransposeMode::NoTranspose, EvalMode::Weight, &u1, &mut v1)
        .unwrap();
    b.apply(2, TransposeMode::NoTranspose, EvalMode::Weight, &u2, &mut v2)
        .unwrap();
    for i in 0..4 {
        assert_eq!(v1.read_at(i), 4);
        assert_eq!(v1.read_at(i), v2.read_at(i));
    }
}

#[test]
fn shape_violation_leaves_output_untouched() {
    // Input one entry shorter than num_elements * num_nodes * num_components.
    let ceed = Ceed::default_init();
    let b = dense_line_basis(&ceed);
    let u = Vector::from_values(&ceed, vec![2]);
    let mut v = Vector::from_values(&ceed, vec![71, 72]);
    let r = b.apply(1, TransposeMode::NoTranspose, EvalMode::Interp, &u, &mut v);
    assert_eq!(r, Err(Error::DimensionMismatch));
    assert_eq!(v.read_at(0), 71);
    assert_eq!(v.read_at(1), 72);
}

#[test]
fn unsupported_modes_fail() {
    let ceed = Ceed::default_init();
    let b = dense_line_basis(&ceed);
    let u = Vector::from_values(&ceed, vec![2, 9]);
    let mut v = Vector::new(&ceed, 2);
    for emode in [EvalMode::NoEval, EvalMode::Div, EvalMode::Curl] {
        let r = b.apply(1, TransposeMode::NoTranspose, emode, &u, &mut v);
        assert_eq!(r, Err(Error::BackendFailure));
    }
    let r = b.apply(1, TransposeMode::Transpose, EvalMode::Weight, &u, &mut v);
    assert_eq!(r, Err(Error::BackendFailure));
}

#[test]
fn construction_is_deterministic() {
    // Two bases from identical explicit arrays give identical outputs.
    let ceed = Ceed::default_init();
    let b1 = dense_line_basis(&ceed);
    let b2 = dense_line_basis(&ceed);
    let u = Vector::from_values(&ceed, vec![17, -5]);
    let mut v1 = Vector::new(&ceed, 2);
    let mut v2 = Vector::new(&ceed, 2);
    b1.apply(1, TransposeMode::NoTranspose, EvalMode::Interp, &u, &mut v1)
        .unwrap();
    b2.apply(1, TransposeMode::NoTranspose, EvalMode::Interp, &u, &mut v2)
        .unwrap();
    assert_eq!(v1.read_at(0), v2.read_at(0));
    assert_eq!(v1.read_at(1), v2.read_at(1));
}

#[test]
fn create_h1_rejects_bad_lengths() {
    let ceed = Ceed::default_init();
    let r = Basis::create_H1(
        &ceed,
        ElemTopology::Triangle,
        1,
        3,
        1,
        vec![1, 2], // needs 3 entries
        vec![1, 2, 3],
        vec![0],
        vec![2],
        2,
    );
    assert!(matches!(r, Err(Error::InvalidShape)));
}

#[test]
fn create_tensor_h1_rejects_bad_lengths() {
    let ceed = Ceed::default_init();
    let r = Basis::create_tensor_H1(&ceed, 1, 1, 2, 2, vec![1, 2, 3], vec![1, 2, 3, 4], vec![0, 0], vec![1, 1]);
    assert!(matches!(r, Err(Error::InvalidShape)));
}

#[test]
fn getters_report_shape() {
    let ceed = Ceed::default_init();
    let b = Basis::create_tensor_H1(
        &ceed,
        2,
        3,
        2,
        2,
        vec![1, 0, 0, 1],
        vec![-1, 1, -1, 1],
        vec![-1, 1],
        vec![1, 1],
    )
    .unwrap();
    assert_eq!(b.get_dimension(), 2);
    assert_eq!(b.get_num_components(), 3);
    assert_eq!(b.get_num_nodes(), 4);
    assert_eq!(b.get_num_quadrature_points(), 4);
    assert_eq!(b.get_topology(), ElemTopology::Quad);
    let dense = dense_line_basis(&ceed);
    assert_eq!(dense.get_topology(), ElemTopology::Line);
}

#[test]
fn tensor_interp_two_dims_sum_factorized() {
    // dim 2, P1d = 2, Q1d = 1: contract [3,5] along both axes of [[1,2],[3,4]].
    let ceed = Ceed::default_init();
    let b = Basis::create_tensor_H1(&ceed, 2, 1, 2, 1, vec![3, 5], vec![1, -1], vec![0], vec![2])
        .unwrap();
    let u = Vector::from_values(&ceed, vec![1, 2, 3, 4]);
    let mut v = Vector::new(&ceed, 1);
    b.apply(1, TransposeMode::NoTranspose, EvalMode::Interp, &u, &mut v)
        .unwrap();
    // inner axis: [3*1+5*2, 3*3+5*4] = [13, 29]; outer axis: 3*13 + 5*29 = 184
    assert_eq!(v.read_at(0), 184);
}

#[test]
fn tensor_transpose_is_adjoint_two_dims() {
    let ceed = Ceed::default_init();
    let b = Basis::create_tensor_H1(
        &ceed,
        2,
        1,
        2,
        2,
        vec![2, 7, 3, -4],
        vec![1, -1, 5, 2],
        vec![-1, 1],
        vec![1, 1],
    )
    .unwrap();
    let x = Vector::from_values(&ceed, vec![1, 2, 3, 4]);
    let y = Vector::from_values(&ceed, vec![-2, 5, 7, 1]);
    let mut ax = Vector::new(&ceed, 4);
    let mut aty = Vector::new(&ceed, 4);
    b.apply(1, TransposeMode::NoTranspose, EvalMode::Interp, &x, &mut ax)
        .unwrap();
    b.apply(1, TransposeMode::Transpose, EvalMode::Interp, &y, &mut aty)
        .unwrap();
    let mut lhs: i128 = 0;
    let mut rhs: i128 = 0;
    for i in 0..4 {
        lhs += y.read_at(i) * ax.read_at(i);
        rhs += aty.read_at(i) * x.read_at(i);
    }
    assert_eq!(lhs, rhs);
}

#[test]
fn tensor_weight_is_product_of_1d_weights() {
    let ceed = Ceed::default_init();
    let b = Basis::create_tensor_H1(
        &ceed,
        2,
        1,
        2,
        2,
        vec![1, 0, 0, 1],
        vec![-1, 1, -1, 1],
        vec![-1, 1],
        vec![3, 5],
    )
    .unwrap();
    let u = Vector::new(&ceed, 4);
    let mut v = Vector::new(&ceed, 8);
    b.apply(2, TransposeMode::NoTranspose, EvalMode::Weight, &u, &mut v)
        .unwrap();
    // point (i, j) has weight w[j] * w[i] with w = [3, 5], broadcast per element
    let expected = [9, 15, 15, 25];
    for e in 0..2 {
        for k in 0..4 {
            assert_eq!(v.read_at(e * 4 + k), expected[k]);
        }
    }
}

#[test]
fn lagrange_linear_interp_at_gauss_points() {
    // dimension 1, one component, P = 2, Q = 2: Gauss-Lobatto nodes {-1, 1},
    // Gauss points {-1/sqrt(3), 1/sqrt(3)}. The vector [1, 3] encodes
    // f(x) = 2 + x, which must interpolate to 2 -+ 1/sqrt(3) within 1e-9.
    let ceed = Ceed::default_init();
    let b = Basis::create_tensor_H1_Lagrange(&ceed, 1, 1, 2, 2, QuadMode::Gauss).unwrap();
    let c: i128 = 1 << 20;
    let u = Vector::from_values(&ceed, vec![c, 3 * c]);
    let mut v = Vector::new(&ceed, 2);
    b.apply(1, TransposeMode::NoTranspose, EvalMode::Interp, &u, &mut v)
        .unwrap();
    let unit = SCALE_1D as f64 * c as f64;
    let got0 = v.read_at(0) as f64 / unit;
    let got1 = v.read_at(1) as f64 / unit;
    let r3 = 1.0f64 / 3.0f64.sqrt();
    assert!((got0 - (2.0 - r3)).abs() < 1e-9);
    assert!((got1 - (2.0 + r3)).abs() < 1e-9);
}

#[test]
fn lagrange_constant_is_reproduced() {
    // Degree-zero exactness: a constant field interpolates to itself
    // (times the fixed-point scale) at every quadrature point.
    let ceed = Ceed::default_init();
    let b = Basis::create_tensor_H1_Lagrange(&ceed, 1, 1, 2, 2, QuadMode::Gauss).unwrap();
    let c: i128 = 9001;
    let u = Vector::from_values(&ceed, vec![c, c]);
    let mut v = Vector::new(&ceed, 2);
    b.apply(1, TransposeMode::NoTranspose, EvalMode::Interp, &u, &mut v)
        .unwrap();
    // rows of the interpolation matrix sum to the scale up to rounding of
    // the two halves; (s+g)/2 + (s-g)/2 == s exactly when s and g share
    // parity, else one unit short.
    let unit = SCALE_1D as f64 * c as f64;
    assert!((v.read_at(0) as f64 / unit - 1.0).abs() < 1e-9);
    assert!((v.read_at(1) as f64 / unit - 1.0).abs() < 1e-9);
}

#[test]
fn lagrange_gauss_lobatto_weights() {
    let ceed = Ceed::default_init();
    let b = Basis::create_tensor_H1_Lagrange(&ceed, 1, 1, 2, 3, QuadMode::GaussLobatto).unwrap();
    let u = Vector::new(&ceed, 2);
    let mut v = Vector::new(&ceed, 3);
    b.apply(1, TransposeMode::NoTranspose, EvalMode::Weight, &u, &mut v)
        .unwrap();
    assert_eq!(v.read_at(0), SCALE_1D / 3);
    assert_eq!(v.read_at(1), 4 * SCALE_1D / 3);
    assert_eq!(v.read_at(2), SCALE_1D / 3);
}

#[test]
fn lagrange_unsupported_counts_fail() {
    let ceed = Ceed::default_init();
    let r = Basis::create_tensor_H1_Lagrange(&ceed, 1, 1, 3, 2, QuadMode::Gauss);
    assert!(matches!(r, Err(Error::BackendFailure)));
    let r2 = Basis::create_tensor_H1_Lagrange(&ceed, 1, 1, 2, 1, QuadMode::GaussLobatto);
    assert!(matches!(r2, Err(Error::BackendFailure)));
}

#[test]
fn tensor_grad_forward_one_dim() {
    // Gradient of f(x) = 2 + x at the single Gauss point is 1 (times scale/2
    // per reference half-interval convention of the grad matrix rows).
    let ceed = Ceed::default_init();
    let b = Basis::create_tensor_H1_Lagrange(&ceed, 1, 1, 2, 1, QuadMode::Gauss).unwrap();
    let c: i128 = 1 << 10;
    let u = Vector::from_values(&ceed, vec![c, 3 * c]);
    let mut v = Vector::new(&ceed, 1);
    b.apply(1, TransposeMode::NoTranspose, EvalMode::Grad, &u, &mut v)
        .unwrap();
    // grad row is [-s/2, s/2]: derivative (3c - c) * s / 2 = c * s
    assert_eq!(v.read_at(0), c * SCALE_1D);
}
