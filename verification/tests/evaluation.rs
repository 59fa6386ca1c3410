use imp_lang::ast::{AExpr, BExpr, Cmp, Stmt};
use imp_lang::error::{EvalError, Halt};
use imp_lang::exec::{eval_stmt, run_prog};
use imp_lang::expr::{eval_aexpr, eval_bexpr};
use imp_lang::state::State;

fn var(name: &str) -> AExpr {
    AExpr::Var(name.to_string())
}

fn asgn(name: &str, value: AExpr) -> Stmt {
    Stmt::Asgn(name.to_string(), value)
}

fn unbound(name: &str) -> EvalError {
    EvalError::UnboundVariable(name.to_string())
}

fn store(pairs: &[(&str, i64)]) -> State {
    let mut state = State::new();
    for (name, value) in pairs {
        state.set(name.to_string(), *value);
    }
    state
}

#[test]
fn literals_and_variables_evaluate_to_their_values() {
    let state = store(&[("x", 9)]);
    assert_eq!(eval_aexpr(&AExpr::Val(-4), &state), Ok(-4));
    assert_eq!(eval_aexpr(&var("x"), &state), Ok(9));
    assert_eq!(eval_aexpr(&var("y"), &state), Err(unbound("y")));
}

#[test]
fn binary_operations_compute_exact_values() {
    let state = store(&[("x", 7)]);
    assert_eq!(eval_aexpr(&AExpr::add(var("x"), AExpr::Val(4)), &state), Ok(11));
    assert_eq!(eval_aexpr(&AExpr::sub(var("x"), AExpr::Val(9)), &state), Ok(-2));
    assert_eq!(eval_aexpr(&AExpr::mult(var("x"), AExpr::Val(6)), &state), Ok(42));
    assert_eq!(eval_aexpr(&AExpr::div(var("x"), AExpr::Val(2)), &state), Ok(3));
    assert_eq!(eval_aexpr(&AExpr::div(AExpr::Val(-7), AExpr::Val(2)), &state), Ok(-3));
    assert_eq!(eval_aexpr(&AExpr::Neg(Box::new(var("x"))), &state), Ok(-7));
}

#[test]
fn overflow_wraps_in_expressions() {
    let state = State::new();
    assert_eq!(eval_aexpr(&AExpr::add(AExpr::Val(i64::MAX), AExpr::Val(1)), &state), Ok(i64::MIN));
    assert_eq!(eval_aexpr(&AExpr::sub(AExpr::Val(i64::MIN), AExpr::Val(1)), &state), Ok(i64::MAX));
    assert_eq!(eval_aexpr(&AExpr::mult(AExpr::Val(i64::MAX), AExpr::Val(2)), &state), Ok(-2));
    assert_eq!(eval_aexpr(&AExpr::div(AExpr::Val(i64::MIN), AExpr::Val(-1)), &state), Ok(i64::MIN));
    assert_eq!(eval_aexpr(&AExpr::Neg(Box::new(AExpr::Val(i64::MIN))), &state), Ok(i64::MIN));
}

#[test]
fn division_by_zero_is_a_fault_whatever_the_dividend() {
    let state = store(&[("z", 0)]);
    for l in [0, 1, -1, i64::MIN, i64::MAX] {
        assert_eq!(
            eval_aexpr(&AExpr::div(AExpr::Val(l), AExpr::Val(0)), &state),
            Err(EvalError::DivisionByZero)
        );
        assert_eq!(
            eval_aexpr(&AExpr::div(AExpr::Val(l), var("z")), &state),
            Err(EvalError::DivisionByZero)
        );
    }
    let zero = AExpr::sub(AExpr::Val(2), AExpr::Val(2));
    assert_eq!(eval_aexpr(&AExpr::div(AExpr::Val(5), zero), &state), Err(EvalError::DivisionByZero));
}

#[test]
fn the_left_operand_faults_first() {
    let state = State::new();
    let e = AExpr::add(var("a"), var("b"));
    assert_eq!(eval_aexpr(&e, &state), Err(unbound("a")));
    let e = AExpr::div(var("a"), AExpr::Val(0));
    assert_eq!(eval_aexpr(&e, &state), Err(unbound("a")));
    let e = AExpr::add(AExpr::div(AExpr::Val(1), AExpr::Val(0)), var("b"));
    assert_eq!(eval_aexpr(&e, &state), Err(EvalError::DivisionByZero));
    let e = AExpr::add(AExpr::Val(1), var("b"));
    assert_eq!(eval_aexpr(&e, &state), Err(unbound("b")));
}

#[test]
fn boolean_connectives_compute_truth_tables() {
    let state = State::new();
    for l in [false, true] {
        for r in [false, true] {
            assert_eq!(eval_bexpr(&BExpr::and(BExpr::Bool(l), BExpr::Bool(r)), &state), Ok(l && r));
            assert_eq!(eval_bexpr(&BExpr::or(BExpr::Bool(l), BExpr::Bool(r)), &state), Ok(l || r));
        }
        assert_eq!(eval_bexpr(&BExpr::not(BExpr::Bool(l)), &state), Ok(!l));
    }
}

#[test]
fn connectives_do_not_short_circuit() {
    let state = State::new();
    let faulty = BExpr::cmp(Cmp::Eq, var("x"), AExpr::Val(0));
    let e = BExpr::and(BExpr::Bool(false), faulty.clone());
    assert_eq!(eval_bexpr(&e, &state), Err(unbound("x")));
    let e = BExpr::or(BExpr::Bool(true), faulty.clone());
    assert_eq!(eval_bexpr(&e, &state), Err(unbound("x")));
}

#[test]
fn connectives_report_the_left_fault_first() {
    let state = State::new();
    let left = BExpr::cmp(Cmp::Eq, var("l"), AExpr::Val(0));
    let right = BExpr::cmp(Cmp::Eq, AExpr::div(AExpr::Val(1), AExpr::Val(0)), AExpr::Val(0));
    assert_eq!(eval_bexpr(&BExpr::and(left.clone(), right.clone()), &state), Err(unbound("l")));
    assert_eq!(eval_bexpr(&BExpr::or(left.clone(), right.clone()), &state), Err(unbound("l")));
    assert_eq!(
        eval_bexpr(&BExpr::and(right.clone(), left.clone()), &state),
        Err(EvalError::DivisionByZero)
    );
}

#[test]
fn comparisons_evaluate_both_sides_left_to_right() {
    let state = store(&[("x", 3)]);
    assert_eq!(eval_bexpr(&BExpr::cmp(Cmp::Lt, var("x"), AExpr::Val(4)), &state), Ok(true));
    assert_eq!(eval_bexpr(&BExpr::cmp(Cmp::Ge, var("x"), AExpr::Val(4)), &state), Ok(false));
    assert_eq!(eval_bexpr(&BExpr::cmp(Cmp::Neq, var("x"), var("x")), &state), Ok(false));
    assert_eq!(eval_bexpr(&BExpr::cmp(Cmp::Eq, var("a"), var("b")), &state), Err(unbound("a")));
    assert_eq!(eval_bexpr(&BExpr::cmp(Cmp::Eq, var("x"), var("b")), &state), Err(unbound("b")));
}

#[test]
fn skip_changes_nothing() {
    let mut state = store(&[("x", 1)]);
    assert_eq!(eval_stmt(&Stmt::Skip, &mut state, 0), Ok(()));
    assert_eq!(state.bindings(), vec![("x".to_string(), 1)]);
}

#[test]
fn a_sequence_stops_at_the_first_fault_and_keeps_earlier_assignments() {
    let prog = Stmt::from(vec![
        asgn("x", AExpr::Val(1)),
        asgn("y", AExpr::div(AExpr::Val(1), AExpr::Val(0))),
        asgn("z", AExpr::Val(3)),
    ]);
    let mut state = State::new();
    let res = eval_stmt(&prog, &mut state, 10);
    assert_eq!(res, Err(Halt::Fault(EvalError::DivisionByZero)));
    assert_eq!(state.get(&"x".to_string()), Some(1));
    assert_eq!(state.get(&"y".to_string()), None);
    assert_eq!(state.get(&"z".to_string()), None);
}

#[test]
fn a_failed_assignment_keeps_the_old_binding() {
    let mut state = store(&[("x", 1)]);
    let res = eval_stmt(&asgn("x", var("nope")), &mut state, 10);
    assert_eq!(res, Err(Halt::Fault(unbound("nope"))));
    assert_eq!(state.get(&"x".to_string()), Some(1));
}

#[test]
fn assigning_twice_overwrites() {
    let s = asgn("x", AExpr::Val(5));
    let mut state = State::new();
    assert_eq!(eval_stmt(&s, &mut state, 0), Ok(()));
    assert_eq!(eval_stmt(&s, &mut state, 0), Ok(()));
    assert_eq!(state.bindings(), vec![("x".to_string(), 5)]);
}

#[test]
fn a_conditional_runs_exactly_one_branch() {
    let s = Stmt::ite(
        BExpr::cmp(Cmp::Lt, AExpr::Val(2), AExpr::Val(1)),
        asgn("a", AExpr::Val(1)),
        asgn("b", AExpr::Val(2)),
    );
    let mut state = State::new();
    assert_eq!(eval_stmt(&s, &mut state, 0), Ok(()));
    assert_eq!(state.bindings(), vec![("b".to_string(), 2)]);
}

#[test]
fn a_faulty_guard_runs_no_branch() {
    let s = Stmt::ite(
        BExpr::cmp(Cmp::Lt, var("g"), AExpr::Val(1)),
        asgn("a", AExpr::Val(1)),
        asgn("b", AExpr::Val(2)),
    );
    let mut state = State::new();
    assert_eq!(eval_stmt(&s, &mut state, 5), Err(Halt::Fault(unbound("g"))));
    assert!(state.bindings().is_empty());
}

#[test]
fn a_variable_assigned_before_it_is_read_is_never_reported() {
    let prog = Stmt::from(vec![
        asgn("x", AExpr::Val(2)),
        asgn("y", AExpr::mult(var("x"), var("x"))),
        asgn("x", AExpr::add(var("x"), var("y"))),
    ]);
    let state = run_prog(&prog, 10).unwrap();
    assert_eq!(state.bindings(), vec![("x".to_string(), 6), ("y".to_string(), 4)]);
}

#[test]
fn a_loop_with_a_false_guard_needs_no_fuel() {
    let s = Stmt::While(BExpr::Bool(false), Box::new(asgn("x", AExpr::Val(1))));
    let mut state = State::new();
    assert_eq!(eval_stmt(&s, &mut state, 0), Ok(()));
    assert!(state.bindings().is_empty());
}

#[test]
fn an_endless_loop_runs_out_of_fuel() {
    let s = Stmt::While(BExpr::Bool(true), Box::new(Stmt::Skip));
    assert_eq!(run_prog(&s, 1000).err(), Some(Halt::OutOfFuel));
    assert_eq!(run_prog(&s, 0).err(), Some(Halt::OutOfFuel));
}

fn countdown(from: i64) -> Stmt {
    Stmt::from(vec![
        asgn("x", AExpr::Val(from)),
        Stmt::While(
            BExpr::cmp(Cmp::Gt, var("x"), AExpr::Val(0)),
            Box::new(asgn("x", AExpr::sub(var("x"), AExpr::Val(1)))),
        ),
    ])
}

#[test]
fn a_loop_spends_one_unit_of_fuel_for_each_round() {
    let prog = countdown(10);
    let mut state = State::new();
    assert_eq!(eval_stmt(&prog, &mut state, 10), Ok(()));
    assert_eq!(state.get(&"x".to_string()), Some(0));
    let mut state = State::new();
    assert_eq!(eval_stmt(&prog, &mut state, 9), Err(Halt::OutOfFuel));
    assert_eq!(state.get(&"x".to_string()), Some(1));
}

#[test]
fn more_fuel_does_not_change_a_finished_run() {
    let prog = countdown(10);
    let small = run_prog(&prog, 10).unwrap().bindings();
    let large = run_prog(&prog, u64::MAX).unwrap().bindings();
    assert_eq!(small, large);
}

#[test]
fn a_fault_in_a_loop_body_ends_the_loop() {
    let prog = Stmt::from(vec![
        asgn("x", AExpr::Val(2)),
        Stmt::While(
            BExpr::Bool(true),
            Box::new(Stmt::from(vec![
                asgn("x", AExpr::sub(var("x"), AExpr::Val(1))),
                asgn("y", AExpr::div(AExpr::Val(10), var("x"))),
            ])),
        ),
    ]);
    let mut state = State::new();
    let res = eval_stmt(&prog, &mut state, 100);
    assert_eq!(res, Err(Halt::Fault(EvalError::DivisionByZero)));
    assert_eq!(state.bindings(), vec![("x".to_string(), 0), ("y".to_string(), 10)]);
}

#[test]
fn a_fault_in_a_loop_guard_ends_the_loop() {
    let prog = Stmt::While(BExpr::cmp(Cmp::Gt, var("x"), AExpr::Val(0)), Box::new(Stmt::Skip));
    assert_eq!(run_prog(&prog, 100).err(), Some(Halt::Fault(unbound("x"))));
}

#[test]
fn a_nested_loop_runs_to_its_end() {
    // i := 0; n := 0; while i < 3 do (j := 0; while j < 4 do (n := n + 1; j := j + 1); i := i + 1)
    let inner = Stmt::While(
        BExpr::cmp(Cmp::Lt, var("j"), AExpr::Val(4)),
        Box::new(Stmt::from(vec![
            asgn("n", AExpr::add(var("n"), AExpr::Val(1))),
            asgn("j", AExpr::add(var("j"), AExpr::Val(1))),
        ])),
    );
    let outer = Stmt::While(
        BExpr::cmp(Cmp::Lt, var("i"), AExpr::Val(3)),
        Box::new(Stmt::from(vec![
            asgn("j", AExpr::Val(0)),
            inner,
            asgn("i", AExpr::add(var("i"), AExpr::Val(1))),
        ])),
    );
    let prog = Stmt::from(vec![asgn("i", AExpr::Val(0)), asgn("n", AExpr::Val(0)), outer]);
    let state = run_prog(&prog, 100).unwrap();
    assert_eq!(state.get(&"n".to_string()), Some(12));
    assert_eq!(state.get(&"i".to_string()), Some(3));
    assert_eq!(state.get(&"j".to_string()), Some(4));
}

#[test]
fn a_program_runs_the_same_as_one_statement_or_as_a_sequence_of_one() {
    let single = asgn("x", AExpr::Val(8));
    let wrapped = Stmt::from(vec![asgn("x", AExpr::Val(8))]);
    assert_eq!(
        run_prog(&single, 1).unwrap().bindings(),
        run_prog(&wrapped, 1).unwrap().bindings()
    );
}

#[test]
fn a_read_after_an_assignment_in_both_branches_succeeds() {
    let prog = Stmt::from(vec![
        asgn("c", AExpr::Val(0)),
        Stmt::ite(
            BExpr::cmp(Cmp::Eq, var("c"), AExpr::Val(0)),
            asgn("x", AExpr::Val(1)),
            asgn("x", AExpr::Val(2)),
        ),
        asgn("y", AExpr::add(var("x"), var("c"))),
    ]);
    let state = run_prog(&prog, 10).unwrap();
    assert_eq!(state.get(&"y".to_string()), Some(1));
}

#[test]
fn a_read_of_a_variable_assigned_only_in_a_loop_that_never_runs_fails() {
    let prog = Stmt::from(vec![
        Stmt::While(BExpr::Bool(false), Box::new(asgn("x", AExpr::Val(1)))),
        asgn("y", var("x")),
    ]);
    assert_eq!(run_prog(&prog, 10).err(), Some(Halt::Fault(unbound("x"))));
}
