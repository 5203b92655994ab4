use iqs::amp::Amp;
use iqs::operator::{Matrix, Operator};
use iqs::register::Register;
use iqs::Error;
use num::complex::Complex32;

fn amp(re: f32, im: f32) -> Amp {
    Amp { c: Complex32::new(re, im) }
}

fn close(a: Amp, re: f32, im: f32) -> bool {
    (a.c.re - re).abs() < 1e-5 && (a.c.im - im).abs() < 1e-5
}

fn norm(reg: &Register) -> f32 {
    reg.state().iter().map(|a| a.c.norm_sqr()).sum()
}

fn single(target: u32, matrix: Matrix) -> Operator {
    Operator::Single { target, matrix }
}

fn controlled(control: u32, target: u32, matrix: Matrix) -> Operator {
    Operator::Controlled { target, control, matrix }
}

/// A 2-qubit register with a fixed, unnormalised spread of amplitudes.
fn spread_register() -> Register {
    let mut reg = Register::new(2).unwrap();
    reg.set_amplitude(0, amp(0.5, -0.1));
    reg.set_amplitude(1, amp(-0.25, 0.3));
    reg.set_amplitude(2, amp(0.1, 0.45));
    reg.set_amplitude(3, amp(0.35, 0.2));
    reg
}

#[test]
fn new_register_starts_at_zero() {
    let reg = Register::new(3).unwrap();
    assert_eq!(reg.num_qubits(), 3);
    assert_eq!(reg.state().len(), 8);
    for a in reg.state() {
        assert!(a.c == Complex32::new(0., 0.));
    }
}

#[test]
fn zero_qubits_is_invalid_configuration() {
    assert!(matches!(Register::new(0), Err(Error::InvalidConfiguration)));
}

#[test]
fn cx_maps_basis_ten_to_eleven() {
    // Control qubit 1 is set, target qubit 0 is clear: state |10>, index 2.
    let mut reg = Register::new(2).unwrap();
    reg.set_amplitude(2, amp(1., 0.));
    reg.apply(controlled(1, 0, Matrix::cx())).unwrap();
    let st = reg.state();
    assert!(close(st[0], 0., 0.));
    assert!(close(st[1], 0., 0.));
    assert!(close(st[2], 0., 0.));
    assert!(close(st[3], 1., 0.));
}

#[test]
fn hadamard_on_zero_gives_equal_superposition() {
    let mut reg = Register::new(1).unwrap();
    reg.set_amplitude(0, amp(1., 0.));
    reg.apply(single(0, Matrix::h())).unwrap();
    let v = 0.5f32.sqrt();
    let st = reg.state();
    assert!(close(st[0], v, 0.));
    assert!(close(st[1], v, 0.));
}

#[test]
fn swap_exchanges_single_set_bit() {
    // Amplitude 1 at index "01"; SWAP(control=0, target=1) moves it to "10".
    let mut reg = Register::new(2).unwrap();
    reg.set_amplitude(1, amp(1., 0.));
    reg.apply(controlled(0, 1, Matrix::swap())).unwrap();
    let st = reg.state();
    assert!(close(st[0], 0., 0.));
    assert!(close(st[1], 0., 0.));
    assert!(close(st[2], 1., 0.));
    assert!(close(st[3], 0., 0.));
}

#[test]
fn swap_fixes_states_zero_zero_and_one_one() {
    let mut reg = Register::new(2).unwrap();
    reg.set_amplitude(0, amp(0.6, 0.));
    reg.set_amplitude(3, amp(0., 0.8));
    reg.apply(controlled(0, 1, Matrix::swap())).unwrap();
    let st = reg.state();
    assert!(close(st[0], 0.6, 0.));
    assert!(close(st[1], 0., 0.));
    assert!(close(st[2], 0., 0.));
    assert!(close(st[3], 0., 0.8));
}

#[test]
fn controlled_gate_ignores_clear_control_bit() {
    // On a 3-qubit register, control qubit 2: the four indices with bit 2
    // clear keep their amplitudes for any controlled gate.
    let amps = [
        amp(0.1, 0.2),
        amp(-0.3, 0.05),
        amp(0.25, -0.1),
        amp(0.4, 0.3),
        amp(-0.2, -0.25),
        amp(0.15, 0.35),
        amp(0.05, -0.4),
        amp(0.3, 0.1),
    ];
    for gate in [Matrix::cx(), Matrix::cy(), Matrix::cz(), Matrix::controlled(Matrix::t())] {
        let mut r = Register::new(3).unwrap();
        for (i, a) in amps.iter().enumerate() {
            r.set_amplitude(i, *a);
        }
        r.apply(controlled(2, 0, gate)).unwrap();
        let st = r.state();
        for i in [0usize, 1, 2, 3] {
            assert!((st[i].c - amps[i].c).norm() < 1e-5);
        }
    }
}

#[test]
fn pauli_gates_are_involutions() {
    for gate in [Matrix::x(), Matrix::h(), Matrix::z()] {
        for target in 0..2u32 {
            let mut reg = spread_register();
            let before: Vec<Complex32> = reg.state().iter().map(|a| a.c).collect();
            reg.apply(single(target, gate.clone())).unwrap();
            reg.apply(single(target, gate.clone())).unwrap();
            let after = reg.state();
            for i in 0..4 {
                assert!((after[i].c - before[i]).norm() < 1e-5);
            }
        }
    }
}

#[test]
fn norm_is_preserved_by_gate_sequences() {
    let mut reg = spread_register();
    let n0 = norm(&reg);
    reg.apply(single(0, Matrix::h())).unwrap();
    reg.apply(single(1, Matrix::t())).unwrap();
    reg.apply(controlled(1, 0, Matrix::cx())).unwrap();
    reg.apply(single(0, Matrix::s_dag())).unwrap();
    reg.apply(controlled(0, 1, Matrix::swap())).unwrap();
    reg.apply(single(1, Matrix::y())).unwrap();
    reg.apply(controlled(0, 1, Matrix::cz())).unwrap();
    assert!((norm(&reg) - n0).abs() < 1e-5);
}

#[test]
fn controlled_gate_at_swapped_positions() {
    // CX with control 0 and target 1 maps |01> to |11>.
    let mut reg = Register::new(2).unwrap();
    reg.set_amplitude(1, amp(1., 0.));
    reg.apply(controlled(0, 1, Matrix::cx())).unwrap();
    let st = reg.state();
    assert!(close(st[1], 0., 0.));
    assert!(close(st[3], 1., 0.));
}

#[test]
fn controlled_gate_on_middle_qubits_of_four() {
    // On 4 qubits, CX(control=2, target=1): |0100> (index 4) becomes |0110>.
    let mut reg = Register::new(4).unwrap();
    reg.set_amplitude(4, amp(1., 0.));
    reg.apply(controlled(2, 1, Matrix::cx())).unwrap();
    let st = reg.state();
    assert!(close(st[4], 0., 0.));
    assert!(close(st[6], 1., 0.));
    for i in 0..16 {
        if i != 6 {
            assert!(close(st[i], 0., 0.));
        }
    }
}

#[test]
fn apply_rejects_out_of_range_qubits() {
    let mut reg = spread_register();
    assert_eq!(reg.apply(single(2, Matrix::x())), Err(Error::QubitOutOfRange));
    assert_eq!(reg.apply(controlled(2, 0, Matrix::cx())), Err(Error::QubitOutOfRange));
    assert_eq!(reg.apply(controlled(0, 5, Matrix::cx())), Err(Error::QubitOutOfRange));
}

#[test]
fn apply_rejects_equal_control_and_target() {
    let mut reg = spread_register();
    assert_eq!(reg.apply(controlled(1, 1, Matrix::cx())), Err(Error::ControlTargetEqual));
}

#[test]
fn apply_rejects_wrong_matrix_dimension() {
    let mut reg = spread_register();
    let before: Vec<Complex32> = reg.state().iter().map(|a| a.c).collect();
    assert_eq!(reg.apply(single(0, Matrix::cx())), Err(Error::MatrixShape));
    assert_eq!(reg.apply(controlled(1, 0, Matrix::x())), Err(Error::MatrixShape));
    let after = reg.state();
    for i in 0..4 {
        assert!(after[i].c == before[i]);
    }
}
