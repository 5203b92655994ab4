use iqs::amp::Amp;
use iqs::kernel::{single_par_inner, single_par_outer, single_serial};
use iqs::operator::Matrix;
use iqs::Error;
use num::complex::Complex32;

fn amp(re: f32, im: f32) -> Amp {
    Amp { c: Complex32::new(re, im) }
}

fn state8() -> Vec<Amp> {
    vec![
        amp(0.1, 0.2),
        amp(-0.3, 0.05),
        amp(0.25, -0.1),
        amp(0.4, 0.3),
        amp(-0.2, -0.25),
        amp(0.15, 0.35),
        amp(0.05, -0.4),
        amp(0.3, 0.1),
    ]
}

fn assert_states_close(a: &[Amp], b: &[Amp]) {
    assert_eq!(a.len(), b.len());
    for i in 0..a.len() {
        assert!((a[i].c.re - b[i].c.re).abs() < 1e-6);
        assert!((a[i].c.im - b[i].c.im).abs() < 1e-6);
    }
}

#[test]
fn variants_agree_on_every_qubit() {
    let m = Matrix::h();
    for k in 0..3u32 {
        let mut s1 = state8();
        let mut s2 = state8();
        let mut s3 = state8();
        single_serial(k, &m, &mut s1).unwrap();
        single_par_outer(k, &m, &mut s2).unwrap();
        single_par_inner::<1>(k, &m, &mut s3).unwrap();
        assert_states_close(&s1, &s2);
        assert_states_close(&s1, &s3);
    }
    let m = Matrix::t();
    let mut s1 = state8();
    let mut s2 = state8();
    let mut s3 = state8();
    single_serial(2, &m, &mut s1).unwrap();
    single_par_outer(2, &m, &mut s2).unwrap();
    single_par_inner::<2>(2, &m, &mut s3).unwrap();
    assert_states_close(&s1, &s2);
    assert_states_close(&s1, &s3);
}

#[test]
fn serial_matches_pairwise_formula() {
    // Qubit 1 of a 3-qubit state: index pairs (0,2), (1,3), (4,6), (5,7).
    let m = Matrix::new(2, vec![amp(1., 0.), amp(2., 0.), amp(3., 0.), amp(4., 0.)]);
    let s0 = state8();
    let mut s = state8();
    single_serial(1, &m, &mut s).unwrap();
    for base in [0usize, 1, 4, 5] {
        let a0 = s0[base].c;
        let a1 = s0[base + 2].c;
        let e0 = m.get(0, 0).c * a0 + m.get(0, 1).c * a1;
        let e1 = m.get(1, 0).c * a0 + m.get(1, 1).c * a1;
        assert!((s[base].c - e0).norm() < 1e-6);
        assert!((s[base + 2].c - e1).norm() < 1e-6);
    }
}

#[test]
fn kernel_rejects_wrong_matrix_shape() {
    let m = Matrix::cx();
    let mut s = state8();
    assert_eq!(single_serial(0, &m, &mut s), Err(Error::MatrixShape));
    assert_eq!(single_par_outer(0, &m, &mut s), Err(Error::MatrixShape));
    assert_eq!(single_par_inner::<1>(0, &m, &mut s), Err(Error::MatrixShape));
}

#[test]
fn kernel_rejects_wrong_length() {
    let m = Matrix::x();
    let mut s = vec![amp(1., 0.), amp(0., 0.), amp(0., 0.)];
    assert_eq!(single_serial(1, &m, &mut s), Err(Error::LengthMismatch));
    assert_eq!(single_par_outer(1, &m, &mut s), Err(Error::LengthMismatch));
    assert_eq!(s.len(), 3);
    assert!(s[0].c == Complex32::new(1., 0.));
}

#[test]
fn tiled_kernel_rejects_tile_not_dividing_half() {
    let m = Matrix::x();
    let mut s = state8();
    // Half chunk width at qubit 1 is 2, which tile size 3 does not divide.
    assert_eq!(single_par_inner::<3>(1, &m, &mut s), Err(Error::LengthMismatch));
    assert_eq!(single_par_inner::<0>(1, &m, &mut s), Err(Error::LengthMismatch));
}
