use imp_lang::ast::{AExpr, BExpr, BinOp, Cmp, Stmt, StmtIter};

fn var(name: &str) -> AExpr {
    AExpr::Var(name.to_string())
}

#[test]
fn arithmetic_constructors_build_binary_nodes() {
    let l = AExpr::Val(1);
    let r = var("x");
    assert_eq!(
        AExpr::add(l.clone(), r.clone()),
        AExpr::BinOp(BinOp::Add, Box::new(l.clone()), Box::new(r.clone()))
    );
    assert_eq!(
        AExpr::sub(l.clone(), r.clone()),
        AExpr::BinOp(BinOp::Sub, Box::new(l.clone()), Box::new(r.clone()))
    );
    assert_eq!(
        AExpr::mult(l.clone(), r.clone()),
        AExpr::BinOp(BinOp::Mult, Box::new(l.clone()), Box::new(r.clone()))
    );
    assert_eq!(
        AExpr::div(l.clone(), r.clone()),
        AExpr::BinOp(BinOp::Div, Box::new(l), Box::new(r))
    );
}

#[test]
fn operands_keep_their_sides() {
    let e = AExpr::sub(AExpr::Val(1), AExpr::Val(2));
    match e {
        AExpr::BinOp(BinOp::Sub, l, r) => {
            assert_eq!(*l, AExpr::Val(1));
            assert_eq!(*r, AExpr::Val(2));
        }
        _ => panic!("not a subtraction"),
    }
}

#[test]
fn expressions_convert_from_names_and_numbers() {
    assert_eq!(AExpr::from("x".to_string()), AExpr::Var("x".to_string()));
    assert_eq!(AExpr::from(42i64), AExpr::Val(42));
}

#[test]
fn boolean_constructors_build_their_nodes() {
    let t = BExpr::Bool(true);
    let f = BExpr::Bool(false);
    assert_eq!(
        BExpr::and(t.clone(), f.clone()),
        BExpr::And(Box::new(t.clone()), Box::new(f.clone()))
    );
    assert_eq!(
        BExpr::or(t.clone(), f.clone()),
        BExpr::Or(Box::new(t.clone()), Box::new(f.clone()))
    );
    assert_eq!(BExpr::not(t.clone()), BExpr::Not(Box::new(t)));
    assert_eq!(
        BExpr::cmp(Cmp::Le, AExpr::Val(1), var("y")),
        BExpr::Cmp(Cmp::Le, AExpr::Val(1), var("y"))
    );
}

#[test]
fn conditional_constructor_keeps_both_branches() {
    let s = Stmt::ite(BExpr::Bool(true), Stmt::Skip, Stmt::Asgn("x".to_string(), AExpr::Val(1)));
    assert_eq!(
        s,
        Stmt::If(
            BExpr::Bool(true),
            Box::new(Stmt::Skip),
            Box::new(Stmt::Asgn("x".to_string(), AExpr::Val(1)))
        )
    );
}

#[test]
fn a_list_of_statements_converts_to_a_sequence() {
    let s = Stmt::from(vec![Stmt::Skip, Stmt::Skip]);
    assert_eq!(s, Stmt::Sequence(vec![Stmt::Skip, Stmt::Skip]));
}

#[test]
fn a_sequence_iterates_over_its_members_in_order() {
    let a = Stmt::Asgn("a".to_string(), AExpr::Val(1));
    let b = Stmt::Skip;
    let c = Stmt::Asgn("c".to_string(), AExpr::Val(3));
    let prog = Stmt::from(vec![a.clone(), b.clone(), c.clone()]);
    let mut it = StmtIter::new(&prog);
    assert_eq!(it.next(), Some(&a));
    assert_eq!(it.next(), Some(&b));
    assert_eq!(it.next(), Some(&c));
    assert_eq!(it.next(), None);
    assert_eq!(it.next(), None);
}

#[test]
fn a_single_statement_iterates_as_itself() {
    let prog = Stmt::While(BExpr::Bool(false), Box::new(Stmt::Skip));
    let mut it = prog.into_iter();
    assert_eq!(it.next(), Some(&prog));
    assert_eq!(it.next(), None);
}

#[test]
fn an_empty_sequence_iterates_over_nothing() {
    let prog = Stmt::Sequence(Vec::new());
    let mut it = StmtIter::new(&prog);
    assert_eq!(it.next(), None);
}

#[test]
fn a_nested_sequence_is_one_top_level_statement() {
    let inner = Stmt::from(vec![Stmt::Skip, Stmt::Skip]);
    let prog = Stmt::from(vec![inner.clone()]);
    let mut it = StmtIter::new(&prog);
    assert_eq!(it.next(), Some(&inner));
    assert_eq!(it.next(), None);
}

#[test]
fn a_copy_of_a_tree_equals_the_tree() {
    let prog = Stmt::from(vec![
        Stmt::Asgn("x".to_string(), AExpr::Neg(Box::new(AExpr::Val(3)))),
        Stmt::ite(
            BExpr::not(BExpr::cmp(Cmp::Gt, var("x"), AExpr::Val(0))),
            Stmt::from(vec![Stmt::Skip]),
            Stmt::While(BExpr::Bool(false), Box::new(Stmt::Skip)),
        ),
    ]);
    assert_eq!(prog.clone(), prog);
}
