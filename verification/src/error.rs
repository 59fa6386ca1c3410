//! The ways in which evaluation ends without a result.

use vstd::prelude::*;

verus! {

/// A run-time fault. Either one ends the execution of the whole program.
#[derive(Debug, Clone, PartialEq, Eq)]
pub enum EvalError {
    /// A variable was read before anything was assigned to it.
    UnboundVariable(String),
    /// The right operand of a division evaluated to zero.
    DivisionByZero,
}

/// Why the execution of a statement stopped before its end.
#[derive(Debug, Clone, PartialEq, Eq)]
pub enum Halt {
    /// Evaluation met a run-time fault.
    Fault(EvalError),
    /// A loop asked for another round when the budget of rounds was spent.
    OutOfFuel,
}

} // verus!
