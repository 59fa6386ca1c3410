//! What holds of every run: sequencing, budgets, and the life of bindings.

use vstd::prelude::*;
use crate::ast::{AExpr, Stmt};
use crate::error::{EvalError, Halt};
use crate::exec::{done, failed, run_program, run_seq, run_stmt};
use crate::expr::{aeval, lemma_aeval_unbound, lemma_beval_unbound};

verus! {

/// A list of one statement runs as that statement.
pub proof fn lemma_seq_single(s: Stmt, st: Map<Seq<char>, i64>, fuel: nat)
    ensures
        run_seq(seq![s], st, fuel) == run_stmt(s, st, fuel),
{
    let one = seq![s];
    let head = run_stmt(s, st, fuel);
    assert(one.len() == 1);
    assert(one[0] == s);
    if head.result is Ok {
        let none = one.subrange(1, one.len() as int);
        assert(none.len() == 0);
        assert(head.result->Ok_0 == ());
        assert(head == done(head.state));
        assert(run_seq(none, head.state, fuel) == done(head.state));
    }
}

/// A program runs as its root statement runs from the empty store, whether
/// the root is one statement or a sequence of many.
pub proof fn lemma_program_is_root_statement(prog: Stmt, fuel: nat)
    ensures
        run_program(prog, fuel) == run_stmt(prog, Map::empty(), fuel),
{
    let st = Map::<Seq<char>, i64>::empty();
    match prog {
        Stmt::Sequence(stmts) => {},
        _ => {
            lemma_seq_single(prog, st, fuel);
        },
    }
}

/// Every program starts from the empty store: a program that begins by
/// reading a variable halts on `UnboundVariable` for it, whatever any
/// earlier program assigned.
pub proof fn lemma_program_starts_unbound(target: String, var: String, fuel: nat)
    ensures
        run_program(Stmt::Asgn(target, AExpr::Var(var)), fuel) == failed(
            Map::empty(),
            EvalError::UnboundVariable(var),
        ),
{
    let prog = Stmt::Asgn(target, AExpr::Var(var));
    lemma_program_is_root_statement(prog, fuel);
}

/// Running `first` followed by `rest` is running `first`, and then, only if
/// it reached its end, running `rest` from the store it left. If `first`
/// halts, that halt and the store at that moment are the outcome.
pub proof fn lemma_seq_concat(first: Seq<Stmt>, rest: Seq<Stmt>, st: Map<Seq<char>, i64>, fuel: nat)
    ensures
        run_seq(first + rest, st, fuel) == (if run_seq(first, st, fuel).result is Ok {
            run_seq(rest, run_seq(first, st, fuel).state, fuel)
        } else {
            run_seq(first, st, fuel)
        }),
    decreases first.len(),
{
    let all = first + rest;
    if first.len() == 0 {
        assert(all =~= rest);
    } else {
        assert(all[0] == first[0]);
        let head = run_stmt(first[0], st, fuel);
        assert(all.subrange(1, all.len() as int) =~= first.subrange(1, first.len() as int) + rest);
        if head.result is Ok {
            lemma_seq_concat(first.subrange(1, first.len() as int), rest, head.state, fuel);
        }
    }
}

/// A sequence of two statements runs left to right and stops at the first
/// halt. If the first statement halts, the second never runs. If the first
/// reaches its end, the outcome is that of the second run from the store the
/// first left, so what the first assigned is still there when the second
/// halts.
pub proof fn lemma_sequence_fail_fast(s1: Stmt, s2: Stmt, st: Map<Seq<char>, i64>, fuel: nat)
    ensures
        run_stmt(s1, st, fuel).result is Err ==> run_seq(seq![s1, s2], st, fuel) == run_stmt(
            s1,
            st,
            fuel,
        ),
        run_stmt(s1, st, fuel).result is Ok ==> run_seq(seq![s1, s2], st, fuel) == run_stmt(
            s2,
            run_stmt(s1, st, fuel).state,
            fuel,
        ),
{
    let both = seq![s1, s2];
    assert(both[0] == s1);
    assert(both.subrange(1, both.len() as int) =~= seq![s2]);
    let head = run_stmt(s1, st, fuel);
    if head.result is Ok {
        lemma_seq_single(s2, head.state, fuel);
    }
}

/// An assignment whose expression faults leaves the store as it was.
pub proof fn lemma_failed_assignment_keeps_store(
    var: String,
    aexpr: AExpr,
    st: Map<Seq<char>, i64>,
    fuel: nat,
)
    requires
        aeval(aexpr, st) is Err,
    ensures
        run_stmt(Stmt::Asgn(var, aexpr), st, fuel).state == st,
        run_stmt(Stmt::Asgn(var, aexpr), st, fuel).result == Err::<(), Halt>(
            Halt::Fault(aeval(aexpr, st)->Err_0),
        ),
{
}

/// Assigning a literal overwrites: after the assignment the variable holds
/// the literal, and assigning it again changes nothing.
pub proof fn lemma_assignment_overwrites(var: String, val: i64, st: Map<Seq<char>, i64>, fuel: nat)
    ensures
        run_stmt(Stmt::Asgn(var, AExpr::Val(val)), st, fuel) == done(st.insert(var@, val)),
        run_stmt(Stmt::Asgn(var, AExpr::Val(val)), st.insert(var@, val), fuel) == done(
            st.insert(var@, val),
        ),
        st.insert(var@, val)[var@] == val,
{
    assert(st.insert(var@, val).insert(var@, val) =~= st.insert(var@, val));
}

/// Two statements that are the same tree run alike.
pub proof fn lemma_same_tree_runs_alike(a: Stmt, b: Stmt, st: Map<Seq<char>, i64>, fuel: nat)
    requires
        a.same_tree(b),
    ensures
        run_stmt(a, st, fuel) == run_stmt(b, st, fuel),
    decreases fuel, a, 0nat,
{
    match a {
        Stmt::Skip => {},
        Stmt::Asgn(var, aexpr) => {},
        Stmt::Sequence(stmts) => {
            lemma_same_trees_run_alike(stmts@, b->Sequence_0@, st, fuel);
        },
        Stmt::If(if_, then_, else_) => {
            lemma_same_tree_runs_alike(*then_, *b->If_1, st, fuel);
            lemma_same_tree_runs_alike(*else_, *b->If_2, st, fuel);
        },
        Stmt::While(test, body) => {
            if fuel > 0 {
                let round = run_stmt(*body, st, (fuel - 1) as nat);
                lemma_same_tree_runs_alike(*body, *b->While_1, st, (fuel - 1) as nat);
                lemma_same_tree_runs_alike(a, b, round.state, (fuel - 1) as nat);
            }
        },
    }
}

/// Two lists of statements that are the same trees, member by member, run
/// alike.
pub proof fn lemma_same_trees_run_alike(
    a: Seq<Stmt>,
    b: Seq<Stmt>,
    st: Map<Seq<char>, i64>,
    fuel: nat,
)
    requires
        a.len() == b.len(),
        forall|i: int| 0 <= i < a.len() ==> (#[trigger] a[i]).same_tree(b[i]),
    ensures
        run_seq(a, st, fuel) == run_seq(b, st, fuel),
    decreases fuel, a, 1nat,
{
    if a.len() > 0 {
        let head = run_stmt(a[0], st, fuel);
        lemma_same_tree_runs_alike(a[0], b[0], st, fuel);
        let rest_a = a.subrange(1, a.len() as int);
        let rest_b = b.subrange(1, b.len() as int);
        assert forall|i: int| 0 <= i < rest_a.len() implies (#[trigger] rest_a[i]).same_tree(
            rest_b[i],
        ) by {
            assert(a[i + 1].same_tree(b[i + 1]));
        }
        lemma_same_trees_run_alike(rest_a, rest_b, head.state, fuel);
    }
}

/// A binding is never removed: what is bound when a statement starts is
/// bound in the store that its run leaves, however the run ends.
pub proof fn lemma_bindings_persist(s: Stmt, st: Map<Seq<char>, i64>, fuel: nat, key: Seq<char>)
    requires
        st.contains_key(key),
    ensures
        run_stmt(s, st, fuel).state.contains_key(key),
    decreases fuel, s, 0nat,
{
    match s {
        Stmt::Skip => {},
        Stmt::Asgn(var, aexpr) => {},
        Stmt::Sequence(stmts) => {
            lemma_bindings_persist_seq(stmts@, st, fuel, key);
        },
        Stmt::If(if_, then_, else_) => {
            lemma_bindings_persist(*then_, st, fuel, key);
            lemma_bindings_persist(*else_, st, fuel, key);
        },
        Stmt::While(test, body) => {
            if fuel > 0 {
                let round = run_stmt(*body, st, (fuel - 1) as nat);
                lemma_bindings_persist(*body, st, (fuel - 1) as nat, key);
                lemma_bindings_persist(s, round.state, (fuel - 1) as nat, key);
            }
        },
    }
}

/// A binding is never removed by a list of statements.
pub proof fn lemma_bindings_persist_seq(
    stmts: Seq<Stmt>,
    st: Map<Seq<char>, i64>,
    fuel: nat,
    key: Seq<char>,
)
    requires
        st.contains_key(key),
    ensures
        run_seq(stmts, st, fuel).state.contains_key(key),
    decreases fuel, stmts, 1nat,
{
    if stmts.len() > 0 {
        let head = run_stmt(stmts[0], st, fuel);
        lemma_bindings_persist(stmts[0], st, fuel, key);
        lemma_bindings_persist_seq(stmts.subrange(1, stmts.len() as int), head.state, fuel, key);
    }
}

/// A run that halts on `UnboundVariable` for a variable leaves a store in
/// which that variable has no binding: nothing was assigned to it before the
/// read that failed.
pub proof fn lemma_unbound_fault_means_unassigned(
    s: Stmt,
    st: Map<Seq<char>, i64>,
    fuel: nat,
    var: String,
)
    requires
        run_stmt(s, st, fuel).result == Err::<(), Halt>(
            Halt::Fault(EvalError::UnboundVariable(var)),
        ),
    ensures
        !run_stmt(s, st, fuel).state.contains_key(var@),
    decreases fuel, s, 0nat,
{
    match s {
        Stmt::Skip => {},
        Stmt::Asgn(name, aexpr) => {
            lemma_aeval_unbound(aexpr, st, var);
        },
        Stmt::Sequence(stmts) => {
            lemma_unbound_fault_means_unassigned_seq(stmts@, st, fuel, var);
        },
        Stmt::If(if_, then_, else_) => {
            match crate::expr::beval(if_, st) {
                Err(fault) => {
                    lemma_beval_unbound(if_, st, var);
                },
                Ok(test) => {
                    if test {
                        lemma_unbound_fault_means_unassigned(*then_, st, fuel, var);
                    } else {
                        lemma_unbound_fault_means_unassigned(*else_, st, fuel, var);
                    }
                },
            }
        },
        Stmt::While(test, body) => {
            match crate::expr::beval(test, st) {
                Err(fault) => {
                    lemma_beval_unbound(test, st, var);
                },
                Ok(go) => {
                    if go && fuel > 0 {
                        let round = run_stmt(*body, st, (fuel - 1) as nat);
                        if round.result is Ok {
                            lemma_unbound_fault_means_unassigned(
                                s,
                                round.state,
                                (fuel - 1) as nat,
                                var,
                            );
                        } else {
                            lemma_unbound_fault_means_unassigned(
                                *body,
                                st,
                                (fuel - 1) as nat,
                                var,
                            );
                        }
                    }
                },
            }
        },
    }
}

/// A list of statements that halts on `UnboundVariable` for a variable
/// leaves a store in which that variable has no binding.
pub proof fn lemma_unbound_fault_means_unassigned_seq(
    stmts: Seq<Stmt>,
    st: Map<Seq<char>, i64>,
    fuel: nat,
    var: String,
)
    requires
        run_seq(stmts, st, fuel).result == Err::<(), Halt>(
            Halt::Fault(EvalError::UnboundVariable(var)),
        ),
    ensures
        !run_seq(stmts, st, fuel).state.contains_key(var@),
    decreases fuel, stmts, 1nat,
{
    if stmts.len() > 0 {
        let head = run_stmt(stmts[0], st, fuel);
        if head.result is Ok {
            lemma_unbound_fault_means_unassigned_seq(
                stmts.subrange(1, stmts.len() as int),
                head.state,
                fuel,
                var,
            );
        } else {
            lemma_unbound_fault_means_unassigned(stmts[0], st, fuel, var);
        }
    }
}

/// A program that halts on `UnboundVariable` for a variable assigned
/// nothing to that variable before the read that failed. So a program in
/// which every read of a variable comes after an assignment to it never
/// halts on `UnboundVariable` for that variable.
pub proof fn lemma_program_unbound_fault_means_unassigned(prog: Stmt, fuel: nat, var: String)
    requires
        run_program(prog, fuel).result == Err::<(), Halt>(
            Halt::Fault(EvalError::UnboundVariable(var)),
        ),
    ensures
        !run_program(prog, fuel).state.contains_key(var@),
{
    lemma_program_is_root_statement(prog, fuel);
    lemma_unbound_fault_means_unassigned(prog, Map::empty(), fuel, var);
}

/// A variable that is bound when a statement starts is never reported
/// unbound by that statement: every read of it comes after an assignment.
pub proof fn lemma_bound_variable_never_unbound(
    s: Stmt,
    st: Map<Seq<char>, i64>,
    fuel: nat,
    var: String,
)
    requires
        st.contains_key(var@),
    ensures
        run_stmt(s, st, fuel).result != Err::<(), Halt>(
            Halt::Fault(EvalError::UnboundVariable(var)),
        ),
{
    lemma_bindings_persist(s, st, fuel, var@);
    if run_stmt(s, st, fuel).result == Err::<(), Halt>(
        Halt::Fault(EvalError::UnboundVariable(var)),
    ) {
        lemma_unbound_fault_means_unassigned(s, st, fuel, var);
    }
}

/// A run that did not stop for want of fuel ends the same way, with the same
/// store, on every larger budget.
pub proof fn lemma_fuel_monotone(s: Stmt, st: Map<Seq<char>, i64>, fuel: nat, more: nat)
    requires
        fuel <= more,
        run_stmt(s, st, fuel).result != Err::<(), Halt>(Halt::OutOfFuel),
    ensures
        run_stmt(s, st, more) == run_stmt(s, st, fuel),
    decreases fuel, s, 0nat,
{
    match s {
        Stmt::Skip => {},
        Stmt::Asgn(var, aexpr) => {},
        Stmt::Sequence(stmts) => {
            lemma_fuel_monotone_seq(stmts@, st, fuel, more);
        },
        Stmt::If(if_, then_, else_) => {
            match crate::expr::beval(if_, st) {
                Err(fault) => {},
                Ok(test) => {
                    if test {
                        lemma_fuel_monotone(*then_, st, fuel, more);
                    } else {
                        lemma_fuel_monotone(*else_, st, fuel, more);
                    }
                },
            }
        },
        Stmt::While(test, body) => {
            match crate::expr::beval(test, st) {
                Err(fault) => {},
                Ok(go) => {
                    if go {
                        assert(fuel > 0);
                        let round = run_stmt(*body, st, (fuel - 1) as nat);
                        lemma_fuel_monotone(*body, st, (fuel - 1) as nat, (more - 1) as nat);
                        if round.result is Ok {
                            lemma_fuel_monotone(
                                s,
                                round.state,
                                (fuel - 1) as nat,
                                (more - 1) as nat,
                            );
                        }
                    }
                },
            }
        },
    }
}

/// A list of statements that did not stop for want of fuel ends the same
/// way, with the same store, on every larger budget.
pub proof fn lemma_fuel_monotone_seq(
    stmts: Seq<Stmt>,
    st: Map<Seq<char>, i64>,
    fuel: nat,
    more: nat,
)
    requires
        fuel <= more,
        run_seq(stmts, st, fuel).result != Err::<(), Halt>(Halt::OutOfFuel),
    ensures
        run_seq(stmts, st, more) == run_seq(stmts, st, fuel),
    decreases fuel, stmts, 1nat,
{
    if stmts.len() > 0 {
        let head = run_stmt(stmts[0], st, fuel);
        lemma_fuel_monotone(stmts[0], st, fuel, more);
        if head.result is Ok {
            lemma_fuel_monotone_seq(stmts.subrange(1, stmts.len() as int), head.state, fuel, more);
        }
    }
}

} // verus!
