//! Execution of statements.
//!
//! A loop of the language need not end, so execution is metered: a run is
//! given a budget of rounds, its fuel. A loop spends one unit of it for each
//! round of its body, the body of that round runs on what is left, and a
//! loop that asks for a round on an empty budget halts the run. A run that
//! ends without that halt ends the same way on every larger budget.

use vstd::prelude::*;
use crate::ast::{Stmt, StmtIter};
use crate::error::{EvalError, Halt};
use crate::expr::{aeval, beval, eval_aexpr, eval_bexpr};
use crate::state::State;

verus! {

/// Where a run ended: the store it left behind, and whether it reached the
/// end of the statement or halted on the way. Nothing is rolled back: after
/// a halt the store holds every assignment made before it.
pub struct Run {
    pub state: Map<Seq<char>, i64>,
    pub result: Result<(), Halt>,
}

/// The run that reached its end with the store `st`.
pub open spec fn done(st: Map<Seq<char>, i64>) -> Run {
    Run { state: st, result: Ok(()) }
}

/// The run that halted on `fault` with the store `st`.
pub open spec fn failed(st: Map<Seq<char>, i64>, fault: EvalError) -> Run {
    Run { state: st, result: Err(Halt::Fault(fault)) }
}

/// The run of one statement from the store `st` on a budget of `fuel`.
pub open spec fn run_stmt(s: Stmt, st: Map<Seq<char>, i64>, fuel: nat) -> Run
    decreases fuel, s, 0nat,
{
    match s {
        Stmt::Skip => done(st),
        Stmt::Asgn(var, aexpr) => match aeval(aexpr, st) {
            Ok(val) => done(st.insert(var@, val)),
            Err(fault) => failed(st, fault),
        },
        Stmt::Sequence(stmts) => run_seq(stmts@, st, fuel),
        Stmt::If(if_, then_, else_) => match beval(if_, st) {
            Err(fault) => failed(st, fault),
            Ok(test) => if test {
                run_stmt(*then_, st, fuel)
            } else {
                run_stmt(*else_, st, fuel)
            },
        },
        Stmt::While(test, body) => match beval(test, st) {
            Err(fault) => failed(st, fault),
            Ok(go) => if !go {
                done(st)
            } else if fuel == 0 {
                Run { state: st, result: Err(Halt::OutOfFuel) }
            } else {
                let round = run_stmt(*body, st, (fuel - 1) as nat);
                if round.result is Ok {
                    run_stmt(s, round.state, (fuel - 1) as nat)
                } else {
                    round
                }
            },
        },
    }
}

/// The run of a list of statements, first to last, that stops at the first
/// one that halts.
pub open spec fn run_seq(stmts: Seq<Stmt>, st: Map<Seq<char>, i64>, fuel: nat) -> Run
    decreases fuel, stmts, 1nat,
{
    if stmts.len() == 0 {
        done(st)
    } else {
        let head = run_stmt(stmts[0], st, fuel);
        if head.result is Ok {
            run_seq(stmts.subrange(1, stmts.len() as int), head.state, fuel)
        } else {
            head
        }
    }
}

/// The run of a whole program: its top-level statements in source order,
/// from the empty store.
pub open spec fn run_program(prog: Stmt, fuel: nat) -> Run {
    run_seq(prog.top_level(), Map::empty(), fuel)
}

/// Executes a statement on `state` with a budget of `fuel` rounds.
///
/// Returns `Ok` when the statement ran to its end, and otherwise the halt
/// that stopped it. Either way `state` is left as the run left it.
pub fn eval_stmt(stmt: &Stmt, state: &mut State, fuel: u64) -> (res: Result<(), Halt>)
    requires
        old(state).wf(),
    ensures
        final(state).wf(),
        res == run_stmt(*stmt, old(state)@, fuel as nat).result,
        final(state)@ == run_stmt(*stmt, old(state)@, fuel as nat).state,
    decreases fuel, stmt,
{
    match stmt {
        Stmt::Skip => Ok(()),
        Stmt::Asgn(var, aexpr) => {
            match eval_aexpr(aexpr, state) {
                Ok(val) => {
                    state.set(var.clone(), val);
                    Ok(())
                },
                Err(fault) => Err(Halt::Fault(fault)),
            }
        },
        Stmt::Sequence(stmts) => {
            let mut i: usize = 0;
            assert(stmts@.subrange(0, stmts.len() as int) =~= stmts@);
            while i < stmts.len()
                invariant
                    state.wf(),
                    i <= stmts.len(),
                    stmt->Sequence_0 == *stmts,
                    *stmt is Sequence,
                    run_seq(stmts@, old(state)@, fuel as nat) == run_seq(
                        stmts@.subrange(i as int, stmts.len() as int),
                        state@,
                        fuel as nat,
                    ),
                decreases stmts.len() - i,
            {
                let ghost rest = stmts@.subrange(i as int, stmts.len() as int);
                assert(rest[0] == stmts@[i as int]);
                assert(rest.subrange(1, rest.len() as int) =~= stmts@.subrange(
                    i as int + 1,
                    stmts.len() as int,
                ));
                match eval_stmt(&stmts[i], state, fuel) {
                    Ok(()) => {},
                    Err(halt) => {
                        return Err(halt);
                    },
                }
                i += 1;
            }
            Ok(())
        },
        Stmt::If(if_, then_, else_) => {
            match eval_bexpr(if_, state) {
                Ok(test) => eval_stmt(if test { then_ } else { else_ }, state, fuel),
                Err(fault) => Err(Halt::Fault(fault)),
            }
        },
        Stmt::While(test, body) => {
            let mut left: u64 = fuel;
            loop
                invariant
                    state.wf(),
                    left <= fuel,
                    *stmt == Stmt::While(*test, *body),
                    run_stmt(*stmt, old(state)@, fuel as nat) == run_stmt(
                        *stmt,
                        state@,
                        left as nat,
                    ),
                decreases left,
            {
                let go = match eval_bexpr(test, state) {
                    Ok(go) => go,
                    Err(fault) => {
                        return Err(Halt::Fault(fault));
                    },
                };
                if !go {
                    return Ok(());
                }
                if left == 0 {
                    return Err(Halt::OutOfFuel);
                }
                left = left - 1;
                match eval_stmt(body, state, left) {
                    Ok(()) => {},
                    Err(halt) => {
                        return Err(halt);
                    },
                }
            }
        },
    }
}

/// Runs a program from a fresh, empty store with a budget of `fuel` rounds.
///
/// Returns the store that the program left behind when it ran to its end,
/// and otherwise the halt that stopped it. The outcome depends on the
/// program and the budget alone: no store outlives a call.
pub fn run_prog(prog: &Stmt, fuel: u64) -> (res: Result<State, Halt>)
    ensures
        match res {
            Ok(state) => state.wf() && run_program(*prog, fuel as nat) == done(state@),
            Err(halt) => run_program(*prog, fuel as nat).result == Err::<(), Halt>(halt),
        },
{
    let mut state = State::new();
    let mut iter = StmtIter::new(prog);
    let ghost top = prog.top_level();
    assert(top.subrange(0, top.len() as int) =~= top);
    loop
        invariant
            state.wf(),
            top == prog.top_level(),
            iter@.len() <= top.len(),
            forall|j: int|
                0 <= j < iter@.len() ==> *(#[trigger] iter@[j]) == top[top.len() - iter@.len() + j],
            run_program(*prog, fuel as nat) == run_seq(
                top.subrange(top.len() - iter@.len(), top.len() as int),
                state@,
                fuel as nat,
            ),
        decreases iter@.len(),
    {
        let ghost rest = top.subrange(top.len() - iter@.len(), top.len() as int);
        let ghost before = iter@;
        match iter.next() {
            None => {
                assert(rest.len() == 0);
                return Ok(state);
            },
            Some(stmt) => {
                assert(*stmt == rest[0]);
                assert(rest.subrange(1, rest.len() as int) =~= top.subrange(
                    top.len() - iter@.len(),
                    top.len() as int,
                ));
                assert forall|j: int| 0 <= j < iter@.len() implies *(#[trigger] iter@[j]) == top[top.len()
                    - iter@.len() + j] by {
                    assert(iter@[j] == before[j + 1]);
                }
                match eval_stmt(stmt, &mut state, fuel) {
                    Ok(()) => {},
                    Err(halt) => {
                        return Err(halt);
                    },
                }
            },
        }
    }
}

} // verus!
