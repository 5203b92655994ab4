//! The quantum register: a fixed qubit count and its state vector.
//!
//! A register of `n` qubits owns exactly `2^n` amplitudes.  [`Register::apply`]
//! dispatches a single-qubit gate to the kernel and carries out a controlled
//! two-qubit gate itself: it walks the `2^(n-2)` four-element index groups —
//! each group number expanded to a base index by inserting zero bits at the
//! control and target positions — gathers the four amplitudes of a group,
//! and scatters back the 4x4 matrix applied to them.

use vstd::prelude::*;

use crate::amp::Amp;
use crate::bits::{
    base_index, bit_at, code_of, ins_exec, lemma_code_bound, lemma_code_decompose, lemma_sibling,
};
use crate::kernel::{pow2_checked, single_ok, single_par_outer, single_step};
use crate::operator::{c_zero, row4, row4_exec, Matrix, Operator};
use crate::Error;
use vstd::arithmetic::div_mod::{
    lemma_div_multiples_vanish, lemma_mod_multiples_vanish, lemma_small_mod,
};
use vstd::arithmetic::power2::{
    lemma2_to64, lemma_pow2_adds, lemma_pow2_pos, lemma_pow2_strictly_increases,
    lemma_pow2_unfold, pow2,
};

verus! {

/// The whole-vector controlled-gate transform for target bit weight `dl` and
/// control bit weight `dh`: every index is sent to the row of the 4x4 matrix
/// selected by its two bits, applied to the four amplitudes of its group.
pub open spec fn controlled_step(m: Matrix, dl: int, dh: int, s: Seq<Amp>) -> Seq<Amp> {
    Seq::new(
        s.len(),
        |i: int|
            {
                let tb = bit_at(i, dl);
                let cb = bit_at(i, dh);
                let b = i - tb * dl - cb * dh;
                row4(m, 2 * cb + tb, s[b], s[b + dl], s[b + dh], s[b + dh + dl])
            },
    )
}

/// What a well-formed gate request demands of a register of `n` qubits.
pub open spec fn op_ok(gate: Operator, n: u32) -> bool {
    match gate {
        Operator::Single { target, matrix } => matrix.is2() && target < n,
        Operator::Controlled { target, control, matrix } => matrix.is4() && target < n && control
            < n && control != target,
    }
}

/// The error a rejected gate request is reported with: the matrix shape is
/// checked first, then the qubit range, then the control/target distinctness.
pub open spec fn op_err(gate: Operator, n: u32) -> Error {
    match gate {
        Operator::Single { target, matrix } => if !matrix.is2() {
            Error::MatrixShape
        } else {
            Error::QubitOutOfRange
        },
        Operator::Controlled { target, control, matrix } => if !matrix.is4() {
            Error::MatrixShape
        } else if !(target < n && control < n) {
            Error::QubitOutOfRange
        } else {
            Error::ControlTargetEqual
        },
    }
}

/// The state an accepted gate request leaves behind.
pub open spec fn op_step(gate: Operator, s: Seq<Amp>) -> Seq<Amp> {
    match gate {
        Operator::Single { target, matrix } => single_step(
            matrix,
            pow2(target as nat) as int,
            s,
        ),
        Operator::Controlled { target, control, matrix } => controlled_step(
            matrix,
            pow2(target as nat) as int,
            pow2(control as nat) as int,
            s,
        ),
    }
}

/// Coverage and uniqueness of the controlled-gate index enumeration.  For a
/// register of `n` qubits and distinct control and target positions below
/// `n`, the `2^(n-2)` group numbers map to `2^(n-2)` distinct base indices,
/// each inside the vector with both the control and the target bit clear;
/// and every one of the `2^n` indices is reached by exactly one four-way
/// expansion, namely that of its own group number with its own two bits.
pub proof fn lemma_controlled_enumeration(n: u32, target: u32, control: u32)
    requires
        target < n,
        control < n,
        control != target,
    ensures
        ({
            let dl = pow2(target as nat) as int;
            let dh = pow2(control as nat) as int;
            let d1 = if target < control { dl } else { dh };
            let d2 = if target < control { dh } else { dl };
            let l = pow2(n as nat) as int;
            &&& forall|c: int|
                0 <= c < pow2((n - 2) as nat) ==> {
                    let b = #[trigger] base_index(c, d1, d2);
                    0 <= b && b < l && bit_at(b, dl) == 0 && bit_at(b, dh) == 0 && code_of(
                        b,
                        d1,
                        d2,
                    ) == c
                }
            &&& forall|c1: int, c2: int|
                0 <= c1 < pow2((n - 2) as nat) && 0 <= c2 < pow2((n - 2) as nat) && c1 != c2
                    ==> base_index(c1, d1, d2) != base_index(c2, d1, d2)
            &&& forall|i: int|
                0 <= i < l ==> {
                    let c = #[trigger] code_of(i, d1, d2);
                    0 <= c < pow2((n - 2) as nat) && i == base_index(c, d1, d2) + bit_at(i, d1)
                        * d1 + bit_at(i, d2) * d2
                }
        }),
{
    let dl = pow2(target as nat) as int;
    let dh = pow2(control as nat) as int;
    let d1 = if target < control { dl } else { dh };
    let d2 = if target < control { dh } else { dl };
    let pl: u32 = if target < control { target } else { control };
    let ph: u32 = if target < control { control } else { target };
    let l = pow2(n as nat) as int;
    lemma_pow2_pos(target as nat);
    lemma_pow2_pos(control as nat);
    lemma_pow2_pos((pl + 1) as nat);
    lemma_pow2_unfold((pl + 1) as nat);
    lemma_pow2_adds((pl + 1) as nat, (ph - pl - 1) as nat);
    lemma_small_mod(0, pow2((pl + 1) as nat));
    lemma_mod_multiples_vanish(
        pow2((ph - pl - 1) as nat) as int,
        0,
        pow2((pl + 1) as nat) as int,
    );
    lemma_pow2_pos((ph - pl - 1) as nat);
    assert(d2 >= 2 * d1) by (nonlinear_arith)
        requires
            d2 == (2 * d1) * pow2((ph - pl - 1) as nat) as int,
            pow2((ph - pl - 1) as nat) as int >= 1,
            d1 >= 1;
    lemma_pow2_pos((ph + 1) as nat);
    lemma_pow2_pos((n - ph - 1) as nat);
    lemma_pow2_pos((n - 2) as nat);
    lemma_pow2_unfold((ph + 1) as nat);
    lemma_pow2_adds((ph + 1) as nat, (n - ph - 1) as nat);
    lemma_small_mod(0, pow2((ph + 1) as nat));
    lemma_mod_multiples_vanish(
        pow2((n - ph - 1) as nat) as int,
        0,
        pow2((ph + 1) as nat) as int,
    );
    lemma2_to64();
    lemma_pow2_adds(2, (n - 2) as nat);
    lemma_div_multiples_vanish(pow2((n - 2) as nat) as int, 4);
    assert(l == 4 * pow2((n - 2) as nat) as int && l >= 4 && l / 4 == pow2((n - 2) as nat) as int);
    crate::bits::lemma_enumeration_bijective(d1, d2, l);
}

/// An `n`-qubit register owning its `2^n` amplitudes.
pub struct Register {
    num_qubits: u32,
    state: Vec<Amp>,
}

impl View for Register {
    type V = Seq<Amp>;

    closed spec fn view(&self) -> Seq<Amp> {
        self.state@
    }
}

impl Register {
    /// The qubit count the register was built with.
    pub closed spec fn qubits(self) -> u32 {
        self.num_qubits
    }

    /// The register holds at least one qubit and exactly `2^n` amplitudes.
    pub closed spec fn wf(self) -> bool {
        self.num_qubits >= 1 && self.state@.len() == pow2(self.num_qubits as nat)
    }

    /// Builds a register of `num_qubits` qubits with every amplitude zero.
    /// A register of zero qubits is refused.
    pub fn new(num_qubits: u32) -> (r: Result<Register, Error>)
        requires
            pow2(num_qubits as nat) <= usize::MAX,
        ensures
            match r {
                Ok(reg) => num_qubits >= 1 && reg.wf() && reg.qubits() == num_qubits && reg@.len()
                    == pow2(num_qubits as nat) && forall|i: int|
                    0 <= i < reg@.len() ==> reg@[i] == c_zero(),
                Err(Error::InvalidConfiguration) => num_qubits == 0,
                Err(_) => false,
            },
    {
        if num_qubits == 0 {
            return Err(Error::InvalidConfiguration);
        }
        match pow2_checked(num_qubits) {
            None => {
                proof {
                    assert(false);
                }
                Err(Error::InvalidConfiguration)
            },
            Some(len) => {
                let mut state: Vec<Amp> = Vec::new();
                let mut i: usize = 0;
                while i < len
                    invariant
                        i <= len,
                        state@.len() == i,
                        forall|t: int| 0 <= t < i ==> state@[t] == c_zero(),
                    decreases len - i,
                {
                    state.push(crate::amp::amp_from_int(0, 0));
                    i += 1;
                }
                Ok(Register { num_qubits, state })
            },
        }
    }

    /// The qubit count.
    pub fn num_qubits(&self) -> (r: u32)
        ensures
            r == self.qubits(),
    {
        self.num_qubits
    }

    /// The state vector, for inspection.
    pub fn state(&self) -> (r: &Vec<Amp>)
        ensures
            r@ == self@,
    {
        &self.state
    }

    /// Overwrites the amplitude of one basis state.
    pub fn set_amplitude(&mut self, idx: usize, a: Amp)
        requires
            idx < old(self)@.len(),
        ensures
            final(self)@ == old(self)@.update(idx as int, a),
            final(self).qubits() == old(self).qubits(),
    {
        self.state.set(idx, a);
    }

    /// Applies one gate request to the state vector in place.  A request
    /// that fails its checks leaves the register untouched and reports why.
    pub fn apply(&mut self, gate: Operator) -> (r: Result<(), Error>)
        requires
            old(self).wf(),
        ensures
            final(self).wf(),
            final(self).qubits() == old(self).qubits(),
            match r {
                Ok(()) => op_ok(gate, old(self).qubits()) && final(self)@ == op_step(
                    gate,
                    old(self)@,
                ),
                Err(e) => !op_ok(gate, old(self).qubits()) && e == op_err(
                    gate,
                    old(self).qubits(),
                ) && final(self)@ == old(self)@,
            },
    {
        let n = self.num_qubits;
        match gate {
            Operator::Single { target, matrix } => {
                if !(matrix.dim == 2 && matrix.array.len() == 4) {
                    return Err(Error::MatrixShape);
                }
                if !(target < n) {
                    return Err(Error::QubitOutOfRange);
                }
                proof {
                    lemma_pow2_pos((target + 1) as nat);
                    lemma_pow2_unfold((target + 1) as nat);
                    lemma_pow2_adds((target + 1) as nat, (n - target - 1) as nat);
                    lemma_mod_multiples_vanish(
                        pow2((n - target - 1) as nat) as int,
                        0,
                        pow2((target + 1) as nat) as int,
                    );
                    lemma_small_mod(0, pow2((target + 1) as nat));
                    assert(single_ok(matrix, target, self.state@.len() as int));
                }
                let res = single_par_outer(target, &matrix, &mut self.state);
                match res {
                    Ok(()) => Ok(()),
                    Err(_) => {
                        proof {
                            assert(false);
                        }
                        Err(Error::MatrixShape)
                    },
                }
            },
            Operator::Controlled { target, control, matrix } => {
                if !(matrix.dim == 4 && matrix.array.len() == 16) {
                    return Err(Error::MatrixShape);
                }
                if !(target < n && control < n) {
                    return Err(Error::QubitOutOfRange);
                }
                if control == target {
                    return Err(Error::ControlTargetEqual);
                }
                self.apply_controlled(target, control, &matrix);
                Ok(())
            },
        }
    }

    /// The controlled-gate update: enumerates every base index whose control
    /// and target bits are both clear exactly once, by inserting two zero
    /// bits into an `(n-2)`-bit counter, and rewrites each four-element
    /// group through the 4x4 matrix.
    #[verifier::rlimit(100)]
    fn apply_controlled(&mut self, target: u32, control: u32, matrix: &Matrix)
        requires
            old(self).wf(),
            matrix.is4(),
            target < old(self).qubits(),
            control < old(self).qubits(),
            control != target,
        ensures
            final(self).wf(),
            final(self).qubits() == old(self).qubits(),
            final(self)@ == controlled_step(
                *matrix,
                pow2(target as nat) as int,
                pow2(control as nat) as int,
                old(self)@,
            ),
    {
        let n = self.num_qubits;
        let total = self.state.len();
        let ghost l = total as int;
        proof {
            lemma_pow2_pos(target as nat);
            lemma_pow2_pos(control as nat);
        }
        let dl = match pow2_checked(target) {
            Some(v) => v,
            None => {
                proof {
                    lemma_pow2_strictly_increases(target as nat, n as nat);
                    assert(false);
                }
                return ;
            },
        };
        let dh = match pow2_checked(control) {
            Some(v) => v,
            None => {
                proof {
                    lemma_pow2_strictly_increases(control as nat, n as nat);
                    assert(false);
                }
                return ;
            },
        };
        let (d1, d2) = if target < control {
            (dl, dh)
        } else {
            (dh, dl)
        };
        let ghost pl: u32 = if target < control { target } else { control };
        let ghost ph: u32 = if target < control { control } else { target };
        proof {
            // Geometry: d1 < d2 are powers of two, 2*d1 divides d2, and
            // 2*d2 divides the vector length 2^n; there are l/4 groups.
            lemma_pow2_pos((pl + 1) as nat);
            lemma_pow2_unfold((pl + 1) as nat);
            lemma_pow2_adds((pl + 1) as nat, (ph - pl - 1) as nat);
            lemma_small_mod(0, pow2((pl + 1) as nat));
            lemma_mod_multiples_vanish(
                pow2((ph - pl - 1) as nat) as int,
                0,
                pow2((pl + 1) as nat) as int,
            );
            lemma_pow2_pos((ph - pl - 1) as nat);
            assert(d2 as int >= 2 * d1 as int) by (nonlinear_arith)
                requires
                    d2 as int == (2 * d1 as int) * pow2((ph - pl - 1) as nat) as int,
                    pow2((ph - pl - 1) as nat) as int >= 1,
                    d1 as int >= 1;
            lemma_pow2_pos((ph + 1) as nat);
            lemma_pow2_pos((n - ph - 1) as nat);
            lemma_pow2_pos((n - 2) as nat);
            lemma_pow2_unfold((ph + 1) as nat);
            lemma_pow2_adds((ph + 1) as nat, (n - ph - 1) as nat);
            lemma_small_mod(0, pow2((ph + 1) as nat));
            lemma_mod_multiples_vanish(
                pow2((n - ph - 1) as nat) as int,
                0,
                pow2((ph + 1) as nat) as int,
            );
            lemma2_to64();
            lemma_pow2_adds(2, (n - 2) as nat);
            lemma_div_multiples_vanish(pow2((n - 2) as nat) as int, 4);
            assert(l == 4 * pow2((n - 2) as nat) as int && l >= 4);
            lemma_pow2_strictly_increases(pl as nat, ph as nat);
            assert(2 * (d2 as int) <= l) by (nonlinear_arith)
                requires
                    l == (2 * d2 as int) * pow2((n - ph - 1) as nat) as int,
                    pow2((n - ph - 1) as nat) as int >= 1,
                    d2 as int >= 1;
        }
        let count = total / 4;
        proof {
            assert(count as int == pow2((n - 2) as nat) && count as int == l / 4);
        }
        let ghost dli = dl as int;
        let ghost dhi = dh as int;
        let ghost d1i = d1 as int;
        let ghost d2i = d2 as int;
        let ghost orig = self.state@;
        let ghost cstep = controlled_step(*matrix, dli, dhi, orig);
        let mut c: usize = 0;
        while c < count
            invariant
                c <= count,
                self.num_qubits == n,
                matrix.is4(),
                self.state@.len() == l,
                l == pow2(n as nat),
                count as int == l / 4,
                d1 as int == d1i,
                d2 as int == d2i,
                dl as int == dli,
                dh as int == dhi,
                total as int == l,
                d1i >= 1,
                dli != dhi,
                d2i >= 2 * d1i,
                d2i % (2 * d1i) == 0,
                l % (2 * d2i) == 0,
                l >= 4,
                d1i == if target < control { dli } else { dhi },
                d2i == if target < control { dhi } else { dli },
                2 * d2i <= l,
                l == 4 * (count as int),
                orig == old(self)@,
                cstep == controlled_step(*matrix, dli, dhi, orig),
                cstep.len() == l,
                forall|i: int|
                    0 <= i < l && code_of(i, d1i, d2i) < c ==> self.state@[i] == cstep[i],
                forall|i: int|
                    0 <= i < l && code_of(i, d1i, d2i) >= c ==> self.state@[i] == orig[i],
            decreases count - c,
        {
            proof {
                lemma_sibling(c as int, d1i, d2i, l, 0, 0);
                lemma_sibling(c as int, d1i, d2i, l, 1, 0);
                lemma_sibling(c as int, d1i, d2i, l, 0, 1);
                lemma_sibling(c as int, d1i, d2i, l, 1, 1);
                crate::bits::lemma_ins0_parts(c as int, d1i);
                crate::bits::lemma_ins0_parts(
                    crate::bits::ins0(c as int, d1i),
                    d2i,
                );
                assert(crate::bits::ins0(c as int, d1i) <= 2 * c as int);
                assert(crate::bits::ins0(crate::bits::ins0(c as int, d1i), d2i) == base_index(
                    c as int,
                    d1i,
                    d2i,
                ));
                assert(base_index(c as int, d1i, d2i) + d1i + d2i < l);
            }
            let b = ins_exec(ins_exec(c, d1), d2);
            proof {
                assert(b as int == base_index(c as int, d1i, d2i));
            }
            let i1 = b + dl;
            let i2 = b + dh;
            let i3 = b + dh + dl;
            let ghost bi = b as int;
            proof {
                // The four group members carry the four bit patterns and all
                // map back to group c.
                assert(bi + dli + dhi < l && bit_at(bi, dli) == 0 && bit_at(bi, dhi) == 0
                    && bit_at(bi + dli, dli) == 1 && bit_at(bi + dli, dhi) == 0
                    && bit_at(bi + dhi, dli) == 0 && bit_at(bi + dhi, dhi) == 1
                    && bit_at(bi + dhi + dli, dli) == 1 && bit_at(bi + dhi + dli, dhi) == 1
                    && code_of(bi, d1i, d2i) == c && code_of(bi + dli, d1i, d2i) == c
                    && code_of(bi + dhi, d1i, d2i) == c && code_of(bi + dhi + dli, d1i, d2i) == c);
            }
            let a0 = self.state[b];
            let a1 = self.state[i1];
            let a2 = self.state[i2];
            let a3 = self.state[i3];
            proof {
                assert(a0 == orig[bi] && a1 == orig[bi + dli] && a2 == orig[bi + dhi] && a3
                    == orig[bi + dhi + dli]);
            }
            let r0 = row4_exec(matrix, 0, a0, a1, a2, a3);
            let r1 = row4_exec(matrix, 1, a0, a1, a2, a3);
            let r2 = row4_exec(matrix, 2, a0, a1, a2, a3);
            let r3 = row4_exec(matrix, 3, a0, a1, a2, a3);
            let ghost before = self.state@;
            self.state.set(b, r0);
            self.state.set(i1, r1);
            self.state.set(i2, r2);
            self.state.set(i3, r3);
            proof {
                let s = self.state@;
                assert forall|i: int| 0 <= i < l && code_of(i, d1i, d2i) < c + 1 implies s[i]
                    == cstep[i] by {
                    if code_of(i, d1i, d2i) == c {
                        lemma_code_decompose(i, d1i, d2i);
                        let tb = bit_at(i, dli);
                        let cb = bit_at(i, dhi);
                        assert(i == bi + tb * dli + cb * dhi) by {
                            assert(i == base_index(c as int, d1i, d2i) + bit_at(i, d1i) * d1i
                                + bit_at(i, d2i) * d2i);
                        }
                        assert(cstep[i] == row4(
                            *matrix,
                            2 * cb + tb,
                            orig[bi],
                            orig[bi + dli],
                            orig[bi + dhi],
                            orig[bi + dhi + dli],
                        ));
                        if tb == 0 && cb == 0 {
                            assert(i == bi && s[i] == r0);
                        } else if tb == 1 && cb == 0 {
                            assert(i == bi + dli && s[i] == r1);
                        } else if tb == 0 && cb == 1 {
                            assert(i == bi + dhi && s[i] == r2);
                        } else {
                            assert(i == bi + dhi + dli && s[i] == r3);
                        }
                    } else {
                        assert(i != bi && i != bi + dli && i != bi + dhi && i != bi + dhi + dli);
                        assert(s[i] == before[i]);
                    }
                }
            }
            c += 1;
        }
        proof {
            assert forall|i: int| 0 <= i < l implies self.state@[i] == cstep[i] by {
                lemma_code_bound(i, d1i, d2i, l);
            }
            assert(self.state@ =~= cstep);
        }
    }
}

} // verus!
