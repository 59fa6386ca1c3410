//! Assignment before use, read off the program text.
//!
//! A walk over a statement in execution order tracks the variables that are
//! certainly assigned and asks of every read whether its variable is among
//! them. A program that passes never halts on an unbound variable.

use vstd::prelude::*;
use crate::ast::Stmt;
use crate::error::EvalError;
use crate::exec::{run_program, run_seq, run_stmt, Run};
use crate::expr::{
    aexpr_reads,
    bexpr_reads,
    beval,
    lemma_aeval_reads_bound,
    lemma_beval_reads_bound,
};

verus! {

/// The variables that are certainly assigned when `s` has run to its end,
/// given that those in `before` were assigned when it started. A branch
/// counts only for what both branches assign, and a loop for nothing, since
/// its body may never run.
pub open spec fn assigned_after(s: Stmt, before: Set<Seq<char>>) -> Set<Seq<char>>
    decreases s, 0nat,
{
    match s {
        Stmt::Skip => before,
        Stmt::Asgn(var, _) => before.insert(var@),
        Stmt::Sequence(stmts) => assigned_after_seq(stmts@, before),
        Stmt::If(_, then_, else_) => assigned_after(*then_, before).intersect(
            assigned_after(*else_, before),
        ),
        Stmt::While(_, _) => before,
    }
}

/// The variables that are certainly assigned when a list of statements has
/// run to its end.
pub open spec fn assigned_after_seq(stmts: Seq<Stmt>, before: Set<Seq<char>>) -> Set<Seq<char>>
    decreases stmts, 1nat,
{
    if stmts.len() == 0 {
        before
    } else {
        assigned_after_seq(stmts.subrange(1, stmts.len() as int), assigned_after(stmts[0], before))
    }
}

/// Whether every read of a variable in `s` comes after an assignment to that
/// variable, given that the variables in `before` were assigned when `s`
/// starts.
pub open spec fn assigns_before_reads(s: Stmt, before: Set<Seq<char>>) -> bool
    decreases s, 0nat,
{
    match s {
        Stmt::Skip => true,
        Stmt::Asgn(_, aexpr) => aexpr_reads(aexpr).subset_of(before),
        Stmt::Sequence(stmts) => assigns_before_reads_seq(stmts@, before),
        Stmt::If(if_, then_, else_) => {
            &&& bexpr_reads(if_).subset_of(before)
            &&& assigns_before_reads(*then_, before)
            &&& assigns_before_reads(*else_, before)
        },
        Stmt::While(test, body) => {
            &&& bexpr_reads(test).subset_of(before)
            &&& assigns_before_reads(*body, before)
        },
    }
}

/// Whether every read of a variable in a list of statements comes after an
/// assignment to that variable.
pub open spec fn assigns_before_reads_seq(stmts: Seq<Stmt>, before: Set<Seq<char>>) -> bool
    decreases stmts, 1nat,
{
    stmts.len() == 0 || {
        &&& assigns_before_reads(stmts[0], before)
        &&& assigns_before_reads_seq(
            stmts.subrange(1, stmts.len() as int),
            assigned_after(stmts[0], before),
        )
    }
}

/// Whether a run halted on an unbound variable, whichever.
pub open spec fn halted_unbound(run: Run) -> bool {
    run.result is Err && run.result->Err_0 is Fault && run.result->Err_0->Fault_0 is UnboundVariable
}

/// A statement in which every read comes after an assignment never halts on
/// an unbound variable. What was assigned before stays bound, and when the
/// statement runs to its end, what it certainly assigns is bound.
pub proof fn lemma_assigned_reads_never_unbound(
    s: Stmt,
    before: Set<Seq<char>>,
    st: Map<Seq<char>, i64>,
    fuel: nat,
)
    requires
        assigns_before_reads(s, before),
        before.subset_of(st.dom()),
    ensures
        !halted_unbound(run_stmt(s, st, fuel)),
        before.subset_of(run_stmt(s, st, fuel).state.dom()),
        run_stmt(s, st, fuel).result is Ok ==> assigned_after(s, before).subset_of(
            run_stmt(s, st, fuel).state.dom(),
        ),
    decreases fuel, s, 0nat,
{
    match s {
        Stmt::Skip => {},
        Stmt::Asgn(var, aexpr) => {
            lemma_aeval_reads_bound(aexpr, st);
        },
        Stmt::Sequence(stmts) => {
            lemma_assigned_reads_never_unbound_seq(stmts@, before, st, fuel);
        },
        Stmt::If(if_, then_, else_) => {
            lemma_beval_reads_bound(if_, st);
            lemma_assigned_reads_never_unbound(*then_, before, st, fuel);
            lemma_assigned_reads_never_unbound(*else_, before, st, fuel);
        },
        Stmt::While(test, body) => {
            lemma_beval_reads_bound(test, st);
            if beval(test, st) == Ok::<bool, EvalError>(true) && fuel > 0 {
                let round = run_stmt(*body, st, (fuel - 1) as nat);
                lemma_assigned_reads_never_unbound(*body, before, st, (fuel - 1) as nat);
                if round.result is Ok {
                    lemma_assigned_reads_never_unbound(s, before, round.state, (fuel - 1) as nat);
                }
            }
        },
    }
}

/// A list of statements in which every read comes after an assignment never
/// halts on an unbound variable.
pub proof fn lemma_assigned_reads_never_unbound_seq(
    stmts: Seq<Stmt>,
    before: Set<Seq<char>>,
    st: Map<Seq<char>, i64>,
    fuel: nat,
)
    requires
        assigns_before_reads_seq(stmts, before),
        before.subset_of(st.dom()),
    ensures
        !halted_unbound(run_seq(stmts, st, fuel)),
        before.subset_of(run_seq(stmts, st, fuel).state.dom()),
        run_seq(stmts, st, fuel).result is Ok ==> assigned_after_seq(stmts, before).subset_of(
            run_seq(stmts, st, fuel).state.dom(),
        ),
    decreases fuel, stmts, 1nat,
{
    if stmts.len() > 0 {
        let head = run_stmt(stmts[0], st, fuel);
        lemma_assigned_reads_never_unbound(stmts[0], before, st, fuel);
        if head.result is Ok {
            let rest = stmts.subrange(1, stmts.len() as int);
            let mid = assigned_after(stmts[0], before);
            lemma_assigned_reads_never_unbound_seq(rest, mid, head.state, fuel);
            lemma_assigned_grows(stmts[0], before);
        }
    }
}

/// Nothing leaves the set of assigned variables.
pub proof fn lemma_assigned_grows(s: Stmt, before: Set<Seq<char>>)
    ensures
        before.subset_of(assigned_after(s, before)),
    decreases s, 0nat,
{
    match s {
        Stmt::Skip => {},
        Stmt::Asgn(_, _) => {},
        Stmt::Sequence(stmts) => {
            lemma_assigned_grows_seq(stmts@, before);
        },
        Stmt::If(_, then_, else_) => {
            lemma_assigned_grows(*then_, before);
            lemma_assigned_grows(*else_, before);
        },
        Stmt::While(_, _) => {},
    }
}

/// Nothing leaves the set of assigned variables over a list of statements.
pub proof fn lemma_assigned_grows_seq(stmts: Seq<Stmt>, before: Set<Seq<char>>)
    ensures
        before.subset_of(assigned_after_seq(stmts, before)),
    decreases stmts, 1nat,
{
    if stmts.len() > 0 {
        lemma_assigned_grows(stmts[0], before);
        lemma_assigned_grows_seq(
            stmts.subrange(1, stmts.len() as int),
            assigned_after(stmts[0], before),
        );
    }
}

/// A program in which no variable is read before an assignment to it never
/// halts on an unbound variable, on any budget.
pub proof fn lemma_program_never_unbound(prog: Stmt, fuel: nat)
    requires
        assigns_before_reads_seq(prog.top_level(), Set::empty()),
    ensures
        !halted_unbound(run_program(prog, fuel)),
{
    lemma_assigned_reads_never_unbound_seq(prog.top_level(), Set::empty(), Map::empty(), fuel);
}

} // verus!
