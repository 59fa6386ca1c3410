//! Evaluation of arithmetic and boolean expressions against a store.
//!
//! Operands are evaluated from left to right and the first fault ends the
//! evaluation. Conjunction and disjunction do not short-circuit: the right
//! operand is evaluated, and may fault, whatever the left one yielded.

use vstd::prelude::*;
use crate::ast::{AExpr, BExpr};
use crate::error::EvalError;
use crate::state::State;

verus! {

/// The value of an arithmetic expression in the store `st`.
pub open spec fn aeval(e: AExpr, st: Map<Seq<char>, i64>) -> Result<i64, EvalError>
    decreases e,
{
    match e {
        AExpr::Val(val) => Ok(val),
        AExpr::Var(var) => if st.contains_key(var@) {
            Ok(st[var@])
        } else {
            Err(EvalError::UnboundVariable(var))
        },
        AExpr::BinOp(op, lhs, rhs) => match aeval(*lhs, st) {
            Err(fault) => Err(fault),
            Ok(l) => match aeval(*rhs, st) {
                Err(fault) => Err(fault),
                Ok(r) => match op.apply(l, r) {
                    Some(val) => Ok(val),
                    None => Err(EvalError::DivisionByZero),
                },
            },
        },
        AExpr::Neg(term) => match aeval(*term, st) {
            Err(fault) => Err(fault),
            Ok(val) => Ok(crate::arith::wrap(-val)),
        },
    }
}

/// The value of a boolean expression in the store `st`.
pub open spec fn beval(b: BExpr, st: Map<Seq<char>, i64>) -> Result<bool, EvalError>
    decreases b,
{
    match b {
        BExpr::Bool(val) => Ok(val),
        BExpr::And(lhs, rhs) => match beval(*lhs, st) {
            Err(fault) => Err(fault),
            Ok(l) => match beval(*rhs, st) {
                Err(fault) => Err(fault),
                Ok(r) => Ok(l && r),
            },
        },
        BExpr::Or(lhs, rhs) => match beval(*lhs, st) {
            Err(fault) => Err(fault),
            Ok(l) => match beval(*rhs, st) {
                Err(fault) => Err(fault),
                Ok(r) => Ok(l || r),
            },
        },
        BExpr::Not(term) => match beval(*term, st) {
            Err(fault) => Err(fault),
            Ok(val) => Ok(!val),
        },
        BExpr::Cmp(rel, lhs, rhs) => match aeval(lhs, st) {
            Err(fault) => Err(fault),
            Ok(l) => match aeval(rhs, st) {
                Err(fault) => Err(fault),
                Ok(r) => Ok(rel.holds(l, r)),
            },
        },
    }
}

/// The names of the variables that an arithmetic expression reads.
pub open spec fn aexpr_reads(e: AExpr) -> Set<Seq<char>>
    decreases e,
{
    match e {
        AExpr::Val(_) => Set::empty(),
        AExpr::Var(var) => set![var@],
        AExpr::BinOp(_, lhs, rhs) => aexpr_reads(*lhs).union(aexpr_reads(*rhs)),
        AExpr::Neg(term) => aexpr_reads(*term),
    }
}

/// The names of the variables that a boolean expression reads.
pub open spec fn bexpr_reads(b: BExpr) -> Set<Seq<char>>
    decreases b,
{
    match b {
        BExpr::Bool(_) => Set::empty(),
        BExpr::And(lhs, rhs) => bexpr_reads(*lhs).union(bexpr_reads(*rhs)),
        BExpr::Or(lhs, rhs) => bexpr_reads(*lhs).union(bexpr_reads(*rhs)),
        BExpr::Not(term) => bexpr_reads(*term),
        BExpr::Cmp(_, lhs, rhs) => aexpr_reads(lhs).union(aexpr_reads(rhs)),
    }
}

/// Whether a result is the fault of an unbound variable, whichever.
pub open spec fn is_unbound_fault<T>(res: Result<T, EvalError>) -> bool {
    res is Err && res->Err_0 is UnboundVariable
}

/// An arithmetic expression whose variables are all bound never reports an
/// unbound variable.
pub proof fn lemma_aeval_reads_bound(e: AExpr, st: Map<Seq<char>, i64>)
    requires
        aexpr_reads(e).subset_of(st.dom()),
    ensures
        !is_unbound_fault(aeval(e, st)),
    decreases e,
{
    match e {
        AExpr::Val(_) => {},
        AExpr::Var(var) => {
            assert(aexpr_reads(e).contains(var@));
        },
        AExpr::BinOp(_, lhs, rhs) => {
            lemma_aeval_reads_bound(*lhs, st);
            lemma_aeval_reads_bound(*rhs, st);
        },
        AExpr::Neg(term) => {
            lemma_aeval_reads_bound(*term, st);
        },
    }
}

/// A boolean expression whose variables are all bound never reports an
/// unbound variable.
pub proof fn lemma_beval_reads_bound(b: BExpr, st: Map<Seq<char>, i64>)
    requires
        bexpr_reads(b).subset_of(st.dom()),
    ensures
        !is_unbound_fault(beval(b, st)),
    decreases b,
{
    match b {
        BExpr::Bool(_) => {},
        BExpr::And(lhs, rhs) => {
            lemma_beval_reads_bound(*lhs, st);
            lemma_beval_reads_bound(*rhs, st);
        },
        BExpr::Or(lhs, rhs) => {
            lemma_beval_reads_bound(*lhs, st);
            lemma_beval_reads_bound(*rhs, st);
        },
        BExpr::Not(term) => {
            lemma_beval_reads_bound(*term, st);
        },
        BExpr::Cmp(_, lhs, rhs) => {
            lemma_aeval_reads_bound(lhs, st);
            lemma_aeval_reads_bound(rhs, st);
        },
    }
}

/// Reading a variable gives its binding, and a variable without a binding
/// gives `UnboundVariable` with its name, whatever else the store holds.
pub proof fn lemma_variable_read(var: String, st: Map<Seq<char>, i64>)
    ensures
        st.contains_key(var@) ==> aeval(AExpr::Var(var), st) == Ok::<i64, EvalError>(st[var@]),
        !st.contains_key(var@) ==> aeval(AExpr::Var(var), st) == Err::<i64, EvalError>(
            EvalError::UnboundVariable(var),
        ),
{
}

/// A division whose right operand evaluates to zero yields `DivisionByZero`,
/// whatever value the left operand has.
pub proof fn lemma_division_by_zero(lhs: AExpr, rhs: AExpr, st: Map<Seq<char>, i64>)
    requires
        aeval(lhs, st) is Ok,
        aeval(rhs, st) == Ok::<i64, EvalError>(0),
    ensures
        aeval(AExpr::BinOp(crate::ast::BinOp::Div, Box::new(lhs), Box::new(rhs)), st) == Err::<
            i64,
            EvalError,
        >(EvalError::DivisionByZero),
{
}

/// A fault in the left operand of a binary operation is the fault of the
/// operation: the right operand is not reached.
pub proof fn lemma_left_operand_fault_first(
    op: crate::ast::BinOp,
    lhs: AExpr,
    rhs: AExpr,
    st: Map<Seq<char>, i64>,
)
    requires
        aeval(lhs, st) is Err,
    ensures
        aeval(AExpr::BinOp(op, Box::new(lhs), Box::new(rhs)), st) == aeval(lhs, st),
{
}

/// Conjunction and disjunction evaluate both operands: a fault in the right
/// operand is the result even where the left operand alone would settle the
/// value, and a fault in the left operand comes before anything on the right.
pub proof fn lemma_connectives_evaluate_both(lhs: BExpr, rhs: BExpr, st: Map<Seq<char>, i64>)
    ensures
        beval(lhs, st) is Err ==> {
            &&& beval(BExpr::And(Box::new(lhs), Box::new(rhs)), st) == beval(lhs, st)
            &&& beval(BExpr::Or(Box::new(lhs), Box::new(rhs)), st) == beval(lhs, st)
        },
        beval(lhs, st) is Ok && beval(rhs, st) is Err ==> {
            &&& beval(BExpr::And(Box::new(lhs), Box::new(rhs)), st) == beval(rhs, st)
            &&& beval(BExpr::Or(Box::new(lhs), Box::new(rhs)), st) == beval(rhs, st)
        },
        beval(lhs, st) is Ok && beval(rhs, st) is Ok ==> {
            &&& beval(BExpr::And(Box::new(lhs), Box::new(rhs)), st) == Ok::<bool, EvalError>(
                beval(lhs, st)->Ok_0 && beval(rhs, st)->Ok_0,
            )
            &&& beval(BExpr::Or(Box::new(lhs), Box::new(rhs)), st) == Ok::<bool, EvalError>(
                beval(lhs, st)->Ok_0 || beval(rhs, st)->Ok_0,
            )
        },
{
}

/// An arithmetic expression reports a variable unbound only if the store
/// has no binding for it.
pub proof fn lemma_aeval_unbound(e: AExpr, st: Map<Seq<char>, i64>, var: String)
    requires
        aeval(e, st) == Err::<i64, EvalError>(EvalError::UnboundVariable(var)),
    ensures
        !st.contains_key(var@),
    decreases e,
{
    match e {
        AExpr::Val(_) => {},
        AExpr::Var(_) => {},
        AExpr::BinOp(op, lhs, rhs) => {
            if aeval(*lhs, st) is Err {
                lemma_aeval_unbound(*lhs, st, var);
            } else if aeval(*rhs, st) is Err {
                lemma_aeval_unbound(*rhs, st, var);
            }
        },
        AExpr::Neg(term) => {
            lemma_aeval_unbound(*term, st, var);
        },
    }
}

/// A boolean expression reports a variable unbound only if the store has no
/// binding for it.
pub proof fn lemma_beval_unbound(b: BExpr, st: Map<Seq<char>, i64>, var: String)
    requires
        beval(b, st) == Err::<bool, EvalError>(EvalError::UnboundVariable(var)),
    ensures
        !st.contains_key(var@),
    decreases b,
{
    match b {
        BExpr::Bool(_) => {},
        BExpr::And(lhs, rhs) => {
            if beval(*lhs, st) is Err {
                lemma_beval_unbound(*lhs, st, var);
            } else {
                lemma_beval_unbound(*rhs, st, var);
            }
        },
        BExpr::Or(lhs, rhs) => {
            if beval(*lhs, st) is Err {
                lemma_beval_unbound(*lhs, st, var);
            } else {
                lemma_beval_unbound(*rhs, st, var);
            }
        },
        BExpr::Not(term) => {
            lemma_beval_unbound(*term, st, var);
        },
        BExpr::Cmp(rel, lhs, rhs) => {
            if aeval(lhs, st) is Err {
                lemma_aeval_unbound(lhs, st, var);
            } else {
                lemma_aeval_unbound(rhs, st, var);
            }
        },
    }
}

/// Evaluates an arithmetic expression.
pub fn eval_aexpr(aexpr: &AExpr, state: &State) -> (res: Result<i64, EvalError>)
    requires
        state.wf(),
    ensures
        res == aeval(*aexpr, state@),
    decreases aexpr,
{
    match aexpr {
        AExpr::Val(val) => Ok(*val),
        AExpr::Var(var) => {
            match state.get(var) {
                Some(val) => Ok(val),
                None => Err(EvalError::UnboundVariable(var.clone())),
            }
        },
        AExpr::BinOp(bin_op, lhs, rhs) => {
            let l = match eval_aexpr(lhs, state) {
                Ok(val) => val,
                Err(fault) => { return Err(fault); },
            };
            let r = match eval_aexpr(rhs, state) {
                Ok(val) => val,
                Err(fault) => { return Err(fault); },
            };
            match bin_op {
                crate::ast::BinOp::Div => {
                    if r == 0 {
                        return Err(EvalError::DivisionByZero);
                    }
                },
                _ => {},
            }
            let op = bin_op.into_fn();
            Ok(op(l, r))
        },
        AExpr::Neg(term) => {
            match eval_aexpr(term, state) {
                Ok(val) => Ok(crate::arith::wrapping_neg(val)),
                Err(fault) => Err(fault),
            }
        },
    }
}

/// Evaluates a boolean expression.
pub fn eval_bexpr(bexpr: &BExpr, state: &State) -> (res: Result<bool, EvalError>)
    requires
        state.wf(),
    ensures
        res == beval(*bexpr, state@),
    decreases bexpr,
{
    match bexpr {
        BExpr::Bool(val) => Ok(*val),
        BExpr::And(lhs, rhs) => {
            let l = match eval_bexpr(lhs, state) {
                Ok(val) => val,
                Err(fault) => { return Err(fault); },
            };
            match eval_bexpr(rhs, state) {
                Ok(r) => Ok(l && r),
                Err(fault) => Err(fault),
            }
        },
        BExpr::Or(lhs, rhs) => {
            let l = match eval_bexpr(lhs, state) {
                Ok(val) => val,
                Err(fault) => { return Err(fault); },
            };
            match eval_bexpr(rhs, state) {
                Ok(r) => Ok(l || r),
                Err(fault) => Err(fault),
            }
        },
        BExpr::Not(term) => {
            match eval_bexpr(term, state) {
                Ok(val) => Ok(!val),
                Err(fault) => Err(fault),
            }
        },
        BExpr::Cmp(rel, lhs, rhs) => {
            let l = match eval_aexpr(lhs, state) {
                Ok(val) => val,
                Err(fault) => { return Err(fault); },
            };
            match eval_aexpr(rhs, state) {
                Ok(r) => Ok(rel.compare(l, r)),
                Err(fault) => Err(fault),
            }
        },
    }
}

} // verus!
