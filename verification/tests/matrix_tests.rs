use iqs::amp::Amp;
use iqs::operator::Matrix;
use num::complex::Complex32;
use num::Complex;

fn amp(re: f32, im: f32) -> Amp {
    Amp { c: Complex32::new(re, im) }
}

fn close(a: Amp, re: f32, im: f32) -> bool {
    (a.c.re - re).abs() < 1e-5 && (a.c.im - im).abs() < 1e-5
}

#[test]
fn zeros() {
    let matrix = Matrix::zeros(2);
    for i in 0..1 {
        for j in 0..1 {
            assert!(matrix.get(i, j).c == Complex32::new(0., 0.));
        }
    }
}

#[test]
fn identity() {
    let matrix = Matrix::new(2, vec![amp(1., 0.), amp(0., 0.), amp(0., 0.), amp(1., 0.)]);
    assert!(matrix == Matrix::identity());
}

#[test]
fn x() {
    let matrix = Matrix::new(2, vec![amp(0., 0.), amp(1., 0.), amp(1., 0.), amp(0., 0.)]);
    assert!(matrix == Matrix::x());
}

#[test]
fn y() {
    let matrix = Matrix::new(2, vec![amp(0., 0.), amp(0., -1.), amp(0., 1.), amp(0., 0.)]);
    assert!(matrix == Matrix::y());
}

#[test]
fn z() {
    let matrix = Matrix::new(2, vec![amp(1., 0.), amp(0., 0.), amp(0., 0.), amp(-1., 0.)]);
    assert!(matrix == Matrix::z());
}

#[test]
fn h() {
    let v = Complex32::new(2., 0.).inv().sqrt();
    let matrix = Matrix::new(2, vec![amp(1., 0.), amp(1., 0.), amp(1., 0.), amp(-1., 0.)])
        .scale(Amp { c: v });
    assert!(matrix == Matrix::h());
}

#[test]
fn cx() {
    let matrix = Matrix::new(
        4,
        vec![
            amp(1., 0.),
            amp(0., 0.),
            amp(0., 0.),
            amp(0., 0.),
            amp(0., 0.),
            amp(1., 0.),
            amp(0., 0.),
            amp(0., 0.),
            amp(0., 0.),
            amp(0., 0.),
            amp(0., 0.),
            amp(1., 0.),
            amp(0., 0.),
            amp(0., 0.),
            amp(1., 0.),
            amp(0., 0.),
        ],
    );
    assert!(matrix == Matrix::cx());
}

#[test]
fn cy() {
    let matrix = Matrix::new(
        4,
        vec![
            amp(1., 0.),
            amp(0., 0.),
            amp(0., 0.),
            amp(0., 0.),
            amp(0., 0.),
            amp(1., 0.),
            amp(0., 0.),
            amp(0., 0.),
            amp(0., 0.),
            amp(0., 0.),
            amp(0., 0.),
            amp(0., -1.),
            amp(0., 0.),
            amp(0., 0.),
            amp(0., 1.),
            amp(0., 0.),
        ],
    );
    assert!(matrix == Matrix::cy());
}

#[test]
fn cz() {
    let matrix = Matrix::new(
        4,
        vec![
            amp(1., 0.),
            amp(0., 0.),
            amp(0., 0.),
            amp(0., 0.),
            amp(0., 0.),
            amp(1., 0.),
            amp(0., 0.),
            amp(0., 0.),
            amp(0., 0.),
            amp(0., 0.),
            amp(1., 0.),
            amp(0., 0.),
            amp(0., 0.),
            amp(0., 0.),
            amp(0., 0.),
            amp(-1., 0.),
        ],
    );
    assert!(matrix == Matrix::cz());
}

#[test]
fn hadamard_entries_to_tolerance() {
    let m = Matrix::h();
    let v = 0.5f32.sqrt();
    assert!(close(m.get(0, 0), v, 0.));
    assert!(close(m.get(0, 1), v, 0.));
    assert!(close(m.get(1, 0), v, 0.));
    assert!(close(m.get(1, 1), -v, 0.));
}

#[test]
fn phase_gates_entries() {
    let s = Matrix::s();
    assert!(close(s.get(0, 0), 1., 0.));
    assert!(close(s.get(0, 1), 0., 0.));
    assert!(close(s.get(1, 0), 0., 0.));
    assert!(close(s.get(1, 1), 0., 1.));
    let s_dag = Matrix::s_dag();
    assert!(close(s_dag.get(1, 1), 0., -1.));
    let v = 0.5f32.sqrt();
    let t = Matrix::t();
    assert!(close(t.get(1, 1), v, v));
    let t_dag = Matrix::t_dag();
    assert!(close(t_dag.get(1, 1), v, -v));
}

#[test]
fn phase_of_pi_is_z() {
    let m = Matrix::phase(1, 1);
    assert!(close(m.get(0, 0), 1., 0.));
    assert!(close(m.get(1, 1), -1., 0.));
}

#[test]
fn swap_matrix() {
    let m = Matrix::swap();
    let one = [(0usize, 0usize), (1, 2), (2, 1), (3, 3)];
    for i in 0..4 {
        for j in 0..4 {
            if one.contains(&(i, j)) {
                assert!(m.get(i, j).c == Complex32::new(1., 0.));
            } else {
                assert!(m.get(i, j).c == Complex32::new(0., 0.));
            }
        }
    }
}

#[test]
fn cnot_is_cx() {
    assert!(Matrix::cnot() == Matrix::cx());
}

#[test]
fn controlled_lifts_into_lower_right_block() {
    let u = Matrix::new(2, vec![amp(1., 2.), amp(3., 4.), amp(5., 6.), amp(7., 8.)]);
    let c = Matrix::controlled(u.clone());
    for i in 0..2 {
        for j in 0..2 {
            let expected = if i == j { Complex32::new(1., 0.) } else { Complex32::new(0., 0.) };
            assert!(c.get(i, j).c == expected);
            assert!(c.get(i, j + 2).c == Complex32::new(0., 0.));
            assert!(c.get(i + 2, j).c == Complex32::new(0., 0.));
            assert!(c.get(i + 2, j + 2).c == u.get(i, j).c);
        }
    }
}

#[test]
fn scale_multiplies_every_entry() {
    let m = Matrix::new(2, vec![amp(1., 0.), amp(0., 2.), amp(-3., 0.), amp(1., 1.)]);
    let s = amp(0., 1.);
    let r = m.clone().scale(s);
    for i in 0..2 {
        for j in 0..2 {
            assert!(r.get(i, j).c == Complex::new(0., 1.) * m.get(i, j).c);
        }
    }
}
