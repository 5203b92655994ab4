//! Simulation of quantum gate application on a dense complex state vector.
//!
//! A register of `n` qubits owns a vector of `2^n` complex amplitudes; a gate
//! is a 2x2 or 4x4 complex matrix applied at one or two qubit positions.  The
//! amplitude arithmetic itself is carried out by the `num` crate; what is
//! verified here is the index arithmetic that decides which amplitudes are
//! combined: the pairing of indices differing in one bit for single-qubit
//! gates, and the enumeration of four-element index groups for controlled
//! two-qubit gates.

use vstd::prelude::*;

pub mod amp;
pub mod bits;
pub mod kernel;
pub mod operator;
pub mod register;

verus! {

/// Failures surfaced by register construction and gate application.
#[derive(Clone, Copy, Debug, PartialEq, Eq, Structural)]
pub enum Error {
    /// The register was asked for zero qubits.
    InvalidConfiguration,
    /// A target or control qubit index is not below the register's qubit count.
    QubitOutOfRange,
    /// A controlled gate names the same qubit as control and target.
    ControlTargetEqual,
    /// A gate matrix does not have the dimension the operation calls for.
    MatrixShape,
    /// A state buffer length is not the exact multiple the kernel calls for.
    LengthMismatch,
}

} // verus!
