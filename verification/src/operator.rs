//! Gate matrices and gate application requests.
//!
//! A [`Matrix`] is a square complex matrix of dimension 2 (a single-qubit
//! gate) or 4 (a two-qubit gate), stored as a flat row-major vector with an
//! explicit dimension field.  Named constructors build the usual gates; every
//! constructor's contract pins each entry to an exact term over the amplitude
//! arithmetic of [`crate::amp`].  An [`Operator`] packages a matrix with the
//! qubit position(s) it is to be applied at.

use vstd::prelude::*;

use crate::amp::{amp_from_int, amp_inv, amp_mul, amp_sqrt, amp_unit_phase};
use crate::amp::{c_add, c_from_int, c_inv, c_mul, c_sqrt, c_unit_phase, Amp};

verus! {

/// The complex number zero.
pub open spec fn c_zero() -> Amp {
    c_from_int(0, 0)
}

/// The complex number one.
pub open spec fn c_one() -> Amp {
    c_from_int(1, 0)
}

/// The imaginary unit.
pub open spec fn c_i() -> Amp {
    c_from_int(0, 1)
}

/// Minus one.
pub open spec fn c_neg_one() -> Amp {
    c_from_int(-1, 0)
}

/// Minus the imaginary unit.
pub open spec fn c_neg_i() -> Amp {
    c_from_int(0, -1)
}

/// The normalisation factor of the Hadamard gate, `1 / sqrt(2)`, as the
/// library computes it: the principal square root of the reciprocal of two.
pub open spec fn c_inv_sqrt2() -> Amp {
    c_sqrt(c_inv(c_from_int(2, 0)))
}

/// A square complex matrix of dimension 2 or 4, row-major in a flat vector.
#[derive(Clone, PartialEq)]
pub struct Matrix {
    /// The dimension: 2 for a single-qubit gate, 4 for a two-qubit gate.
    pub dim: usize,
    /// The `dim * dim` entries, row-major.
    pub array: Vec<Amp>,
}

impl Matrix {
    /// The matrix holds exactly `dim * dim` entries for a dimension of 2 or 4.
    pub open spec fn wf(self) -> bool {
        &&& self.dim == 2 || self.dim == 4
        &&& self.array@.len() == self.dim * self.dim
    }

    /// A well-formed single-qubit gate matrix.
    pub open spec fn is2(self) -> bool {
        self.wf() && self.dim == 2
    }

    /// A well-formed two-qubit gate matrix.
    pub open spec fn is4(self) -> bool {
        self.wf() && self.dim == 4
    }

    /// The entry in row `i`, column `j`.
    pub open spec fn ent(self, i: int, j: int) -> Amp {
        self.array@[i * self.dim + j]
    }

    /// Wraps a flat row-major vector of entries as a matrix.
    pub fn new(dim: usize, array: Vec<Amp>) -> (r: Matrix)
        requires
            dim == 2 || dim == 4,
            array@.len() == dim * dim,
        ensures
            r.wf(),
            r.dim == dim,
            r.array@ == array@,
    {
        Matrix { dim, array }
    }

    /// The all-zero matrix of the given dimension.
    pub fn zeros(dim: usize) -> (r: Matrix)
        requires
            dim == 2 || dim == 4,
        ensures
            r.wf(),
            r.dim == dim,
            forall|i: int, j: int|
                0 <= i < dim && 0 <= j < dim ==> r.ent(i, j) == c_zero(),
    {
        let n = dim * dim;
        let mut array: Vec<Amp> = Vec::new();
        let mut k: usize = 0;
        while k < n
            invariant
                k <= n,
                array@.len() == k,
                forall|t: int| 0 <= t < k ==> array@[t] == c_zero(),
            decreases n - k,
        {
            array.push(amp_from_int(0, 0));
            k += 1;
        }
        let r = Matrix { dim, array };
        proof {
            assert forall|i: int, j: int|
                0 <= i < dim && 0 <= j < dim implies r.ent(i, j) == c_zero() by {
                assert(0 <= i * dim + j < dim * dim) by (nonlinear_arith)
                    requires 0 <= i < dim, 0 <= j < dim;
            }
        }
        r
    }

    /// The entry in row `i`, column `j`.
    pub fn get(&self, i: usize, j: usize) -> (r: Amp)
        requires
            self.wf(),
            i < self.dim,
            j < self.dim,
        ensures
            r == self.ent(i as int, j as int),
    {
        proof {
            assert(0 <= i * self.dim + j < self.dim * self.dim && self.dim * self.dim <= 16)
                by (nonlinear_arith)
                requires 0 <= i < self.dim, 0 <= j < self.dim, self.dim <= 4;
        }
        self.array[i * self.dim + j]
    }

    /// Multiplies every entry by the scalar `rhs`, from the left.
    pub fn scale(self, rhs: Amp) -> (r: Matrix)
        requires
            self.wf(),
        ensures
            r.wf(),
            r.dim == self.dim,
            forall|i: int, j: int|
                0 <= i < r.dim && 0 <= j < r.dim ==> r.ent(i, j) == c_mul(rhs, self.ent(i, j)),
    {
        let n = self.array.len();
        let mut array: Vec<Amp> = Vec::new();
        let mut k: usize = 0;
        while k < n
            invariant
                k <= n,
                n == self.array@.len(),
                array@.len() == k,
                forall|t: int| 0 <= t < k ==> array@[t] == c_mul(rhs, self.array@[t]),
            decreases n - k,
        {
            let e = amp_mul(rhs, self.array[k]);
            array.push(e);
            k += 1;
        }
        let r = Matrix { dim: self.dim, array };
        proof {
            assert forall|i: int, j: int|
                0 <= i < r.dim && 0 <= j < r.dim implies r.ent(i, j) == c_mul(
                rhs,
                self.ent(i, j),
            ) by {
                assert(0 <= i * r.dim + j < r.dim * r.dim) by (nonlinear_arith)
                    requires 0 <= i < r.dim, 0 <= j < r.dim;
            }
        }
        r
    }
}

/// Builds a 2x2 matrix from its four entries, row-major.
fn mat2(e00: Amp, e01: Amp, e10: Amp, e11: Amp) -> (r: Matrix)
    ensures
        r.is2(),
        r.ent(0, 0) == e00,
        r.ent(0, 1) == e01,
        r.ent(1, 0) == e10,
        r.ent(1, 1) == e11,
{
    let mut array: Vec<Amp> = Vec::new();
    array.push(e00);
    array.push(e01);
    array.push(e10);
    array.push(e11);
    Matrix { dim: 2, array }
}

// Single-qubit gates.
impl Matrix {
    /// The 2x2 identity.
    pub fn identity() -> (r: Matrix)
        ensures
            r.is2(),
            r.ent(0, 0) == c_one(),
            r.ent(0, 1) == c_zero(),
            r.ent(1, 0) == c_zero(),
            r.ent(1, 1) == c_one(),
    {
        mat2(amp_from_int(1, 0), amp_from_int(0, 0), amp_from_int(0, 0), amp_from_int(1, 0))
    }

    /// The Pauli X gate.
    pub fn x() -> (r: Matrix)
        ensures
            r.is2(),
            r.ent(0, 0) == c_zero(),
            r.ent(0, 1) == c_one(),
            r.ent(1, 0) == c_one(),
            r.ent(1, 1) == c_zero(),
    {
        mat2(amp_from_int(0, 0), amp_from_int(1, 0), amp_from_int(1, 0), amp_from_int(0, 0))
    }

    /// The Pauli Y gate.
    pub fn y() -> (r: Matrix)
        ensures
            r.is2(),
            r.ent(0, 0) == c_zero(),
            r.ent(0, 1) == c_neg_i(),
            r.ent(1, 0) == c_i(),
            r.ent(1, 1) == c_zero(),
    {
        mat2(amp_from_int(0, 0), amp_from_int(0, -1), amp_from_int(0, 1), amp_from_int(0, 0))
    }

    /// The Pauli Z gate.
    pub fn z() -> (r: Matrix)
        ensures
            r.is2(),
            r.ent(0, 0) == c_one(),
            r.ent(0, 1) == c_zero(),
            r.ent(1, 0) == c_zero(),
            r.ent(1, 1) == c_neg_one(),
    {
        mat2(amp_from_int(1, 0), amp_from_int(0, 0), amp_from_int(0, 0), amp_from_int(-1, 0))
    }

    /// The Hadamard gate: ones with a lower-right minus one, scaled by
    /// `1 / sqrt(2)`.
    pub fn h() -> (r: Matrix)
        ensures
            r.is2(),
            r.ent(0, 0) == c_mul(c_inv_sqrt2(), c_one()),
            r.ent(0, 1) == c_mul(c_inv_sqrt2(), c_one()),
            r.ent(1, 0) == c_mul(c_inv_sqrt2(), c_one()),
            r.ent(1, 1) == c_mul(c_inv_sqrt2(), c_neg_one()),
    {
        let m = mat2(
            amp_from_int(1, 0),
            amp_from_int(1, 0),
            amp_from_int(1, 0),
            amp_from_int(-1, 0),
        );
        let norm = amp_sqrt(amp_inv(amp_from_int(2, 0)));
        m.scale(norm)
    }

    /// The phase gate `diag(1, e^(i * pi * num / den))`, its angle given as a
    /// rational multiple of pi.
    pub fn phase(num: i64, den: i64) -> (r: Matrix)
        requires
            den != 0,
        ensures
            r.is2(),
            r.ent(0, 0) == c_one(),
            r.ent(0, 1) == c_zero(),
            r.ent(1, 0) == c_zero(),
            r.ent(1, 1) == c_unit_phase(num as int, den as int),
    {
        mat2(amp_from_int(1, 0), amp_from_int(0, 0), amp_from_int(0, 0), amp_unit_phase(num, den))
    }

    /// The S gate, a phase of pi over two.
    pub fn s() -> (r: Matrix)
        ensures
            r.is2(),
            r.ent(0, 0) == c_one(),
            r.ent(0, 1) == c_zero(),
            r.ent(1, 0) == c_zero(),
            r.ent(1, 1) == c_unit_phase(1, 2),
    {
        Self::phase(1, 2)
    }

    /// The adjoint of the S gate, a phase of minus pi over two.
    pub fn s_dag() -> (r: Matrix)
        ensures
            r.is2(),
            r.ent(0, 0) == c_one(),
            r.ent(0, 1) == c_zero(),
            r.ent(1, 0) == c_zero(),
            r.ent(1, 1) == c_unit_phase(-1, 2),
    {
        Self::phase(-1, 2)
    }

    /// The T gate, a phase of pi over four.
    pub fn t() -> (r: Matrix)
        ensures
            r.is2(),
            r.ent(0, 0) == c_one(),
            r.ent(0, 1) == c_zero(),
            r.ent(1, 0) == c_zero(),
            r.ent(1, 1) == c_unit_phase(1, 4),
    {
        Self::phase(1, 4)
    }

    /// The adjoint of the T gate, a phase of minus pi over four.
    pub fn t_dag() -> (r: Matrix)
        ensures
            r.is2(),
            r.ent(0, 0) == c_one(),
            r.ent(0, 1) == c_zero(),
            r.ent(1, 0) == c_zero(),
            r.ent(1, 1) == c_unit_phase(-1, 4),
    {
        Self::phase(-1, 4)
    }
}

// Two-qubit gates.
impl Matrix {
    /// Lifts a single-qubit gate `u` to the controlled two-qubit gate: the
    /// identity on the half where the control bit is zero, `u` on the half
    /// where it is one.  The basis index within the matrix is
    /// `2 * control_bit + target_bit`.
    pub fn controlled(u: Matrix) -> (r: Matrix)
        requires
            u.is2(),
        ensures
            r.is4(),
            r.ent(0, 0) == c_one(),
            r.ent(0, 1) == c_zero(),
            r.ent(1, 0) == c_zero(),
            r.ent(1, 1) == c_one(),
            forall|i: int, j: int|
                0 <= i < 2 && 2 <= j < 4 ==> r.ent(i, j) == c_zero(),
            forall|i: int, j: int|
                2 <= i < 4 && 0 <= j < 2 ==> r.ent(i, j) == c_zero(),
            forall|i: int, j: int|
                0 <= i < 2 && 0 <= j < 2 ==> r.ent(2 + i, 2 + j) == u.ent(i, j),
    {
        let mut array: Vec<Amp> = Vec::new();
        array.push(amp_from_int(1, 0));
        array.push(amp_from_int(0, 0));
        array.push(amp_from_int(0, 0));
        array.push(amp_from_int(0, 0));
        array.push(amp_from_int(0, 0));
        array.push(amp_from_int(1, 0));
        array.push(amp_from_int(0, 0));
        array.push(amp_from_int(0, 0));
        array.push(amp_from_int(0, 0));
        array.push(amp_from_int(0, 0));
        array.push(u.get(0, 0));
        array.push(u.get(0, 1));
        array.push(amp_from_int(0, 0));
        array.push(amp_from_int(0, 0));
        array.push(u.get(1, 0));
        array.push(u.get(1, 1));
        Matrix { dim: 4, array }
    }

    /// The controlled-NOT gate; another name for [`Matrix::cx`].
    pub fn cnot() -> (r: Matrix)
        ensures
            r.is4(),
            forall|i: int, j: int|
                0 <= i < 4 && 0 <= j < 4 ==> r.ent(i, j) == (
                    if (i == 0 && j == 0) || (i == 1 && j == 1) || (i == 2 && j == 3) || (i == 3
                        && j == 2) {
                    c_one()
                } else {
                    c_zero()
                }),
    {
        Self::cx()
    }

    /// The controlled Pauli X gate.
    pub fn cx() -> (r: Matrix)
        ensures
            r.is4(),
            forall|i: int, j: int|
                0 <= i < 4 && 0 <= j < 4 ==> r.ent(i, j) == (
                    if (i == 0 && j == 0) || (i == 1 && j == 1) || (i == 2 && j == 3) || (i == 3
                        && j == 2) {
                    c_one()
                } else {
                    c_zero()
                }),
    {
        Self::controlled(Self::x())
    }

    /// The controlled Pauli Y gate.
    pub fn cy() -> (r: Matrix)
        ensures
            r.is4(),
            forall|i: int, j: int|
                0 <= i < 4 && 0 <= j < 4 ==> r.ent(i, j) == (
                    if (i == 0 && j == 0) || (i == 1 && j == 1) {
                    c_one()
                } else if i == 2 && j == 3 {
                    c_neg_i()
                } else if i == 3 && j == 2 {
                    c_i()
                } else {
                    c_zero()
                }),
    {
        Self::controlled(Self::y())
    }

    /// The controlled Pauli Z gate.
    pub fn cz() -> (r: Matrix)
        ensures
            r.is4(),
            forall|i: int, j: int|
                0 <= i < 4 && 0 <= j < 4 ==> r.ent(i, j) == (
                    if (i == 0 && j == 0) || (i == 1 && j == 1) || (i == 2 && j == 2) {
                    c_one()
                } else if i == 3 && j == 3 {
                    c_neg_one()
                } else {
                    c_zero()
                }),
    {
        Self::controlled(Self::z())
    }

    /// The SWAP gate: the permutation exchanging the basis states where
    /// exactly one of the two qubits is set, fixing the other two.
    pub fn swap() -> (r: Matrix)
        ensures
            r.is4(),
            forall|i: int, j: int|
                0 <= i < 4 && 0 <= j < 4 ==> r.ent(i, j) == (
                    if (i == 0 && j == 0) || (i == 1 && j == 2) || (i == 2 && j == 1) || (i == 3
                        && j == 3) {
                    c_one()
                } else {
                    c_zero()
                }),
    {
        let mut array: Vec<Amp> = Vec::new();
        array.push(amp_from_int(1, 0));
        array.push(amp_from_int(0, 0));
        array.push(amp_from_int(0, 0));
        array.push(amp_from_int(0, 0));
        array.push(amp_from_int(0, 0));
        array.push(amp_from_int(0, 0));
        array.push(amp_from_int(1, 0));
        array.push(amp_from_int(0, 0));
        array.push(amp_from_int(0, 0));
        array.push(amp_from_int(1, 0));
        array.push(amp_from_int(0, 0));
        array.push(amp_from_int(0, 0));
        array.push(amp_from_int(0, 0));
        array.push(amp_from_int(0, 0));
        array.push(amp_from_int(0, 0));
        array.push(amp_from_int(1, 0));
        Matrix { dim: 4, array }
    }
}

/// The linear combination a row of a 2x2 matrix takes of an amplitude pair:
/// `m[r,0] * a0 + m[r,1] * a1`.
pub open spec fn row2(m: Matrix, r: int, a0: Amp, a1: Amp) -> Amp {
    c_add(c_mul(m.ent(r, 0), a0), c_mul(m.ent(r, 1), a1))
}

/// The linear combination a row of a 4x4 matrix takes of a gathered
/// four-tuple of amplitudes, summed left to right.
pub open spec fn row4(m: Matrix, r: int, a0: Amp, a1: Amp, a2: Amp, a3: Amp) -> Amp {
    c_add(
        c_add(c_add(c_mul(m.ent(r, 0), a0), c_mul(m.ent(r, 1), a1)), c_mul(m.ent(r, 2), a2)),
        c_mul(m.ent(r, 3), a3),
    )
}

/// Computes [`row2`] of the pair `(a0, a1)` for row `r`.
pub(crate) fn row2_exec(m: &Matrix, r: usize, a0: Amp, a1: Amp) -> (out: Amp)
    requires
        m.is2(),
        r < 2,
    ensures
        out == row2(*m, r as int, a0, a1),
{
    crate::amp::amp_add(amp_mul(m.get(r, 0), a0), amp_mul(m.get(r, 1), a1))
}

/// Computes [`row4`] of the gathered tuple for row `r`.
pub(crate) fn row4_exec(m: &Matrix, r: usize, a0: Amp, a1: Amp, a2: Amp, a3: Amp) -> (out: Amp)
    requires
        m.is4(),
        r < 4,
    ensures
        out == row4(*m, r as int, a0, a1, a2, a3),
{
    crate::amp::amp_add(
        crate::amp::amp_add(
            crate::amp::amp_add(amp_mul(m.get(r, 0), a0), amp_mul(m.get(r, 1), a1)),
            amp_mul(m.get(r, 2), a2),
        ),
        amp_mul(m.get(r, 3), a3),
    )
}

/// One gate application request: a single-qubit gate at a target position, or
/// a controlled two-qubit gate at a control and a target position.
pub enum Operator {
    /// Apply the 2x2 `matrix` to qubit `target`.
    Single { target: u32, matrix: Matrix },
    /// Apply the 4x4 `matrix` to the qubit pair, `control` gating `target`.
    Controlled { target: u32, control: u32, matrix: Matrix },
}

} // verus!
