use tinyrenderer::la::Cross;
use tinyrenderer::la::CrossAssign;
use tinyrenderer::la::Dot;
use tinyrenderer::la::LaError;
use tinyrenderer::la::Magnitude;
use tinyrenderer::la::Matrix;
use tinyrenderer::la::Normal;
use tinyrenderer::la::NormalAssign;
use tinyrenderer::la::Scale;
use tinyrenderer::la::ScaleAssign;
use tinyrenderer::la::Transpose;
use tinyrenderer::la::TransposeAssign;
use tinyrenderer::la::isqrt64;
use tinyrenderer::la::A;
use tinyrenderer::la::B;
use tinyrenderer::la::G;
use tinyrenderer::la::R;
use tinyrenderer::la::SCALE;
use tinyrenderer::la::W;
use tinyrenderer::la::X;
use tinyrenderer::la::Y;
use tinyrenderer::la::Z;

fn grid(rows: &[&[i64]]) -> Matrix {
    let g: Vec<Vec<i64>> = rows.iter().map(|r| r.to_vec()).collect();
    Matrix::from_grid(&g).unwrap()
}

#[test]
fn from_scalar_broadcasts_to_every_cell() {
    let m = Matrix::from_scalar(2, 3, 7).unwrap();
    assert_eq!(m.rows(), 2);
    assert_eq!(m.cols(), 3);
    for r in 0..2 {
        for c in 0..3 {
            assert_eq!(m.get(r, c), 7);
        }
    }
}

#[test]
fn from_row_broadcasts_to_every_row() {
    let m = Matrix::from_row(3, &vec![1, 2]).unwrap();
    assert_eq!(m.rows(), 3);
    assert_eq!(m.cols(), 2);
    for r in 0..3 {
        assert_eq!(m.get(r, 0), 1);
        assert_eq!(m.get(r, 1), 2);
    }
}

#[test]
fn from_grid_rejects_ragged_literal() {
    let g = vec![vec![1, 2], vec![3]];
    assert_eq!(Matrix::from_grid(&g).unwrap_err(), LaError::DimensionMismatch);
}

#[test]
fn add_then_sub_gives_back_original() {
    let a = grid(&[&[1, -2, 3], &[4, 5, -6]]);
    let b = grid(&[&[10, 20, 30], &[-40, 50, 60]]);
    let sum = a.add(&b).unwrap();
    let back = sum.sub(&b).unwrap();
    assert_eq!(back, a);
}

#[test]
fn add_rejects_shape_mismatch() {
    let a = grid(&[&[1, 2]]);
    let b = grid(&[&[1], &[2]]);
    assert_eq!(a.add(&b).unwrap_err(), LaError::DimensionMismatch);
    assert_eq!(a.sub(&b).unwrap_err(), LaError::DimensionMismatch);
}

#[test]
fn add_is_elementwise() {
    let a = grid(&[&[1, 2], &[3, 4]]);
    let b = grid(&[&[10, 20], &[30, 40]]);
    assert_eq!(a.add(&b).unwrap(), grid(&[&[11, 22], &[33, 44]]));
    assert_eq!(b.sub(&a).unwrap(), grid(&[&[9, 18], &[27, 36]]));
}

#[test]
fn mul_by_identity_gives_back_original() {
    let a = grid(&[&[1, 2, 3], &[4, 5, 6], &[7, 8, 9]]);
    let id = grid(&[&[1, 0, 0], &[0, 1, 0], &[0, 0, 1]]);
    assert_eq!(a.mul(&id).unwrap(), a);
}

#[test]
fn mul_accumulates_products() {
    // (1x2) * (2x1): [1 2] * [3; 4] = [11]
    let a = grid(&[&[1, 2]]);
    let b = grid(&[&[3], &[4]]);
    let p = a.mul(&b).unwrap();
    assert_eq!(p.rows(), 1);
    assert_eq!(p.cols(), 1);
    assert_eq!(p.get(0, 0), 11);
}

#[test]
fn mul_rejects_inner_mismatch() {
    let a = grid(&[&[1, 2]]);
    let b = grid(&[&[3, 4]]);
    assert_eq!(a.mul(&b).unwrap_err(), LaError::DimensionMismatch);
}

#[test]
fn transpose_twice_gives_back_original() {
    let a = grid(&[&[1, 2, 3], &[4, 5, 6]]);
    let t = a.transpose();
    assert_eq!(t.rows(), 3);
    assert_eq!(t.cols(), 2);
    assert_eq!(t.get(0, 1), 4);
    assert_eq!(t.transpose(), a);
}

#[test]
fn transpose_assign_requires_square() {
    let mut a = grid(&[&[1, 2], &[3, 4]]);
    a.transpose_assign().unwrap();
    assert_eq!(a, grid(&[&[1, 3], &[2, 4]]));
    let mut b = grid(&[&[1, 2, 3]]);
    assert_eq!(b.transpose_assign().unwrap_err(), LaError::DimensionMismatch);
    assert_eq!(b, grid(&[&[1, 2, 3]]));
}

#[test]
fn scale_multiplies_every_element() {
    let a = grid(&[&[1, -2], &[3, 4]]);
    assert_eq!(a.scale(3), grid(&[&[3, -6], &[9, 12]]));
    let mut b = grid(&[&[1, 2]]);
    b.scale_assign(-2);
    assert_eq!(b, grid(&[&[-2, -4]]));
}

#[test]
fn dot_is_commutative() {
    let a = grid(&[&[1, 2, 3]]);
    let b = grid(&[&[4, -5, 6]]);
    let ab = a.dot(&b).unwrap();
    let ba = b.dot(&a).unwrap();
    assert_eq!(ab, ba);
    assert_eq!(ab, 4 - 10 + 18);
}

#[test]
fn dot_rejects_non_vectors() {
    let a = grid(&[&[1, 2], &[3, 4]]);
    let b = grid(&[&[1, 2], &[3, 4]]);
    assert_eq!(a.dot(&b).unwrap_err(), LaError::DimensionMismatch);
    let c = grid(&[&[1, 2]]);
    let d = grid(&[&[1, 2, 3]]);
    assert_eq!(c.dot(&d).unwrap_err(), LaError::DimensionMismatch);
}

#[test]
fn cross_is_anticommutative() {
    let a = grid(&[&[1, 2, 3]]);
    let b = grid(&[&[4, 5, 6]]);
    let ab = a.cross(&b).unwrap();
    let ba = b.cross(&a).unwrap();
    assert_eq!(ab, grid(&[&[-3, 6, -3]]));
    assert_eq!(ba, ab.scale(-1));
}

#[test]
fn cross_assign_replaces_receiver() {
    let mut a = grid(&[&[1, 0, 0]]);
    let b = grid(&[&[0, 1, 0]]);
    a.cross_assign(&b).unwrap();
    assert_eq!(a, grid(&[&[0, 0, 1]]));
    let mut c = grid(&[&[1, 0]]);
    assert_eq!(c.cross_assign(&b).unwrap_err(), LaError::DimensionMismatch);
}

#[test]
fn isqrt_rounds_down() {
    assert_eq!(isqrt64(0), 0);
    assert_eq!(isqrt64(1), 1);
    assert_eq!(isqrt64(3), 1);
    assert_eq!(isqrt64(4), 2);
    assert_eq!(isqrt64(999_999), 999);
    assert_eq!(isqrt64(1_000_000_000_000), 1_000_000);
    assert_eq!(isqrt64(u64::MAX), 4_294_967_295);
}

#[test]
fn magnitude_of_scaled_three_four_is_five() {
    // (3, 4, 0) in fixed point: magnitude 5, at the same scale.
    let v = grid(&[&[3 * SCALE, 4 * SCALE, 0]]);
    assert_eq!(v.magnitude().unwrap(), 5 * SCALE);
    let m = grid(&[&[1, 2], &[3, 4]]);
    assert_eq!(m.magnitude().unwrap_err(), LaError::DimensionMismatch);
}

#[test]
fn normal_of_three_four_is_exact() {
    let v = grid(&[&[3 * SCALE, 4 * SCALE, 0]]);
    let n = v.normal().unwrap();
    assert_eq!(n, grid(&[&[600_000, 800_000, 0]]));
    assert_eq!(n.magnitude().unwrap(), SCALE);
}

#[test]
fn normal_of_nonzero_vector_has_magnitude_close_to_one() {
    // P6, within floating tolerance: the fixed-point normalization of any
    // nonzero vector has magnitude close to 1.0 (that is, close to SCALE).
    let cases: [[i64; 3]; 4] = [
        [SCALE, SCALE, 0],
        [123_456, -654_321, 999_999],
        [750_000, -250_000, 500_000],
        [2_000_000, -3_000_000, 4_000_000],
    ];
    for c in cases.iter() {
        let v = grid(&[&c[..]]);
        let n = v.normal().unwrap();
        let mag = n.magnitude().unwrap() as f64 / SCALE as f64;
        assert!(
            (mag - 1.0).abs() < 1e-3,
            "magnitude of normalized {:?} was {}",
            c,
            mag
        );
    }
}

#[test]
fn normal_of_zero_vector_is_refused() {
    let v = grid(&[&[0, 0, 0]]);
    assert_eq!(v.normal().unwrap_err(), LaError::ZeroMagnitude);
    let mut w = grid(&[&[0, 0]]);
    assert_eq!(w.normal_aasign().unwrap_err(), LaError::ZeroMagnitude);
    assert_eq!(w, grid(&[&[0, 0]]));
}

#[test]
fn normal_assign_replaces_receiver() {
    let mut v = grid(&[&[3 * SCALE, 4 * SCALE, 0]]);
    v.normal_aasign().unwrap();
    assert_eq!(v, grid(&[&[600_000, 800_000, 0]]));
}

#[test]
fn positional_and_color_accessors_alias_the_same_slots() {
    let v = grid(&[&[10, 20, 30, 40]]);
    assert_eq!(v.x(), 10);
    assert_eq!(v.y(), 20);
    assert_eq!(v.z(), 30);
    assert_eq!(v.w(), 40);
    assert_eq!(v.r(), v.x());
    assert_eq!(v.g(), v.y());
    assert_eq!(v.b(), v.z());
    assert_eq!(v.a(), v.w());
}

#[test]
fn narrow_keeps_the_leading_components() {
    let v = grid(&[&[1, 2, 3, 4]]);
    assert_eq!(v.narrow(3).unwrap(), grid(&[&[1, 2, 3]]));
    assert_eq!(v.narrow(2).unwrap(), grid(&[&[1, 2]]));
    assert_eq!(v.narrow(5).unwrap_err(), LaError::DimensionMismatch);
    let m = grid(&[&[1, 2], &[3, 4]]);
    assert_eq!(m.narrow(1).unwrap_err(), LaError::DimensionMismatch);
}
