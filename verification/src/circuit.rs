//! The circuit data model: labelled registers, the supported gate
//! vocabulary, commands, and argument extraction.

use vstd::prelude::*;

verus! {

/// A reference to one element of a named register: the register's name
/// and its index path. Labels are carried through from the input
/// circuit to the outcome record unchanged, so downstream consumers can
/// associate packed bit positions with logical bits.
#[derive(Clone, Debug, PartialEq, Eq, Hash)]
pub struct UnitLabel {
    pub name: String,
    pub index: Vec<i64>,
}

/// The supported gate vocabulary of the input circuit format. Anything
/// outside it is carried as `Unsupported` and makes translation fail.
#[derive(Clone, Copy, Debug, PartialEq, Eq, Structural)]
pub enum OpKind {
    /// Pauli-X on one qubit.
    PauliX,
    /// Pauli-Y on one qubit.
    PauliY,
    /// Pauli-Z on one qubit.
    PauliZ,
    /// Hadamard on one qubit.
    Hadamard,
    /// Controlled-NOT; arguments are control then target.
    Cnot,
    /// Phased-X rotation with two symbolic angle parameters.
    PhasedX,
    /// Z⊗Z rotation on two qubits with one symbolic angle parameter.
    ZZPhase,
    /// Measurement; arguments are the qubit then the classical bit.
    Measure,
    /// Any operation outside the supported vocabulary.
    Unsupported,
}

/// One operation of the input circuit: a gate kind, its symbolic angle
/// parameter expressions (ASCII expression text, one entry per
/// parameter), and its argument indices (one per argument position,
/// already resolved against the declared register lists).
#[derive(Clone, Debug)]
pub struct Command {
    pub op: OpKind,
    pub params: Vec<Vec<u8>>,
    pub args: Vec<i64>,
}

/// A circuit: commands in program order, plus the declared qubit and
/// classical-bit label lists, which fix the circuit width and the
/// shape of the outcome record.
#[derive(Clone, Debug)]
pub struct Circuit {
    pub commands: Vec<Command>,
    pub qubits: Vec<UnitLabel>,
    pub bits: Vec<UnitLabel>,
}

/// Why translating a command failed. Every failure is fatal for the
/// whole run: there is no fallback value for a malformed command.
#[derive(Clone, Copy, Debug, PartialEq, Eq, Structural)]
pub enum TranslateError {
    /// A gate kind outside the supported vocabulary.
    UnsupportedOp,
    /// An argument index is missing or does not fit the simulator's
    /// index width.
    BadArgument,
    /// A symbolic angle parameter is missing.
    MissingParam,
}

/// What `get_arg` returns: the argument at `index`, exactly when it
/// exists and fits in a `u32`.
pub open spec fn spec_get_arg(cmd: Command, index: int) -> Result<u32, TranslateError> {
    if 0 <= index < cmd.args@.len() && 0 <= cmd.args@[index] <= u32::MAX {
        Ok(cmd.args@[index] as u32)
    } else {
        Err(TranslateError::BadArgument)
    }
}

/// Extract the argument index at position `index` of a command,
/// converted strictly to the simulator's index width.
pub fn get_arg(cmd: &Command, index: usize) -> (r: Result<u32, TranslateError>)
    ensures
        r == spec_get_arg(*cmd, index as int),
{
    if index < cmd.args.len() {
        let v = cmd.args[index];
        if 0 <= v && v <= u32::MAX as i64 {
            Ok(v as u32)
        } else {
            Err(TranslateError::BadArgument)
        }
    } else {
        Err(TranslateError::BadArgument)
    }
}

} // verus!
