//! The abstract syntax of the language: arithmetic expressions, boolean
//! expressions and statements, with declarative constructors.
//!
//! Every node owns its children exclusively. Construction never validates:
//! any tree is a program, and run-time faults are found by evaluation.

use std::collections::VecDeque;
use vstd::prelude::*;
use crate::arith::{wrap, wrapped_quotient, wrapping_add, wrapping_div, wrapping_mul, wrapping_sub};

verus! {

/// A binary arithmetic operator.
#[derive(Debug, Clone, Copy, PartialEq, Eq)]
pub enum BinOp {
    Add,
    Sub,
    Mult,
    Div,
}

impl BinOp {
    /// What the operator yields on `l` and `r`: the wrapped two's-complement
    /// result, or `None` for a division by zero.
    pub open spec fn apply(self, l: i64, r: i64) -> Option<i64> {
        match self {
            BinOp::Add => Some(wrap(l + r)),
            BinOp::Sub => Some(wrap(l - r)),
            BinOp::Mult => Some(wrap(l * r)),
            BinOp::Div => if r == 0 {
                None
            } else {
                Some(wrapped_quotient(l, r))
            },
        }
    }

    /// The operator as a function on two integers. The function accepts every
    /// pair of operands on which the operator is defined, that is every pair
    /// but a division by zero, and returns what `apply` gives.
    pub fn into_fn(self) -> (f: impl Fn(i64, i64) -> i64)
        ensures
            forall|l: i64, r: i64| self.apply(l, r).is_some() ==> call_requires(f, (l, r)),
            forall|l: i64, r: i64, o: i64|
                call_ensures(f, (l, r), o) ==> self.apply(l, r) == Some(o),
    {
        move |l: i64, r: i64| -> (o: i64)
            requires
                self.apply(l, r).is_some(),
            ensures
                self.apply(l, r) == Some(o),
            {
                match self {
                    BinOp::Add => wrapping_add(l, r),
                    BinOp::Sub => wrapping_sub(l, r),
                    BinOp::Mult => wrapping_mul(l, r),
                    BinOp::Div => wrapping_div(l, r),
                }
            }
    }
}

/// An arithmetic expression.
#[derive(Debug, PartialEq, Eq)]
pub enum AExpr {
    /// An integer literal.
    Val(i64),
    /// A reference to a variable by name.
    Var(String),
    /// A binary operation on two subexpressions.
    BinOp(BinOp, Box<AExpr>, Box<AExpr>),
    /// Arithmetic negation.
    Neg(Box<AExpr>),
}

impl AExpr {
    /// The sum of two expressions.
    pub fn add(lhs: Self, rhs: Self) -> (e: Self)
        ensures
            e == AExpr::BinOp(BinOp::Add, Box::new(lhs), Box::new(rhs)),
    {
        Self::BinOp(BinOp::Add, Box::new(lhs), Box::new(rhs))
    }

    /// The difference of two expressions, `lhs` minus `rhs`.
    pub fn sub(lhs: Self, rhs: Self) -> (e: Self)
        ensures
            e == AExpr::BinOp(BinOp::Sub, Box::new(lhs), Box::new(rhs)),
    {
        Self::BinOp(BinOp::Sub, Box::new(lhs), Box::new(rhs))
    }

    /// The product of two expressions.
    pub fn mult(lhs: Self, rhs: Self) -> (e: Self)
        ensures
            e == AExpr::BinOp(BinOp::Mult, Box::new(lhs), Box::new(rhs)),
    {
        Self::BinOp(BinOp::Mult, Box::new(lhs), Box::new(rhs))
    }

    /// The quotient of two expressions, `lhs` by `rhs`.
    pub fn div(lhs: Self, rhs: Self) -> (e: Self)
        ensures
            e == AExpr::BinOp(BinOp::Div, Box::new(lhs), Box::new(rhs)),
    {
        Self::BinOp(BinOp::Div, Box::new(lhs), Box::new(rhs))
    }
}

impl Clone for AExpr {
    fn clone(&self) -> (e: Self)
        ensures
            e == *self,
        decreases self,
    {
        match self {
            AExpr::Val(val) => AExpr::Val(*val),
            AExpr::Var(var) => AExpr::Var(var.clone()),
            AExpr::BinOp(op, lhs, rhs) => AExpr::BinOp(
                *op,
                Box::new((**lhs).clone()),
                Box::new((**rhs).clone()),
            ),
            AExpr::Neg(term) => AExpr::Neg(Box::new((**term).clone())),
        }
    }
}

impl From<String> for AExpr {
    fn from(value: String) -> (e: Self)
        ensures
            e == AExpr::Var(value),
    {
        Self::Var(value)
    }
}

impl vstd::std_specs::convert::FromSpecImpl<String> for AExpr {
    open spec fn obeys_from_spec() -> bool {
        true
    }

    open spec fn from_spec(value: String) -> Self {
        AExpr::Var(value)
    }
}

impl From<i64> for AExpr {
    fn from(value: i64) -> (e: Self)
        ensures
            e == AExpr::Val(value),
    {
        Self::Val(value)
    }
}

impl vstd::std_specs::convert::FromSpecImpl<i64> for AExpr {
    open spec fn obeys_from_spec() -> bool {
        true
    }

    open spec fn from_spec(value: i64) -> Self {
        AExpr::Val(value)
    }
}

/// A comparison operator on integers.
#[derive(Debug, Clone, Copy, PartialEq, Eq)]
pub enum Cmp {
    Eq,
    Neq,
    Le,
    Lt,
    Ge,
    Gt,
}

impl Cmp {
    /// Whether the relation holds between `l` and `r`.
    pub open spec fn holds(self, l: i64, r: i64) -> bool {
        match self {
            Cmp::Eq => l == r,
            Cmp::Neq => l != r,
            Cmp::Le => l <= r,
            Cmp::Lt => l < r,
            Cmp::Ge => l >= r,
            Cmp::Gt => l > r,
        }
    }

    /// Decides the relation between `l` and `r`.
    pub fn compare(&self, l: i64, r: i64) -> (b: bool)
        ensures
            b == self.holds(l, r),
    {
        match self {
            Cmp::Eq => l == r,
            Cmp::Neq => l != r,
            Cmp::Le => l <= r,
            Cmp::Lt => l < r,
            Cmp::Ge => l >= r,
            Cmp::Gt => l > r,
        }
    }
}

/// A boolean expression. The operands of a comparison are arithmetic.
#[derive(Debug, PartialEq, Eq)]
pub enum BExpr {
    Bool(bool),
    And(Box<BExpr>, Box<BExpr>),
    Or(Box<BExpr>, Box<BExpr>),
    Not(Box<BExpr>),
    Cmp(Cmp, AExpr, AExpr),
}

impl BExpr {
    /// The conjunction of two expressions.
    pub fn and(lhs: Self, rhs: Self) -> (b: Self)
        ensures
            b == BExpr::And(Box::new(lhs), Box::new(rhs)),
    {
        Self::And(Box::new(lhs), Box::new(rhs))
    }

    /// The disjunction of two expressions.
    pub fn or(lhs: Self, rhs: Self) -> (b: Self)
        ensures
            b == BExpr::Or(Box::new(lhs), Box::new(rhs)),
    {
        Self::Or(Box::new(lhs), Box::new(rhs))
    }

    /// The negation of an expression.
    pub fn not(term: Self) -> (b: Self)
        ensures
            b == BExpr::Not(Box::new(term)),
    {
        Self::Not(Box::new(term))
    }

    /// The comparison of two arithmetic expressions.
    pub fn cmp(cmp: Cmp, lhs: AExpr, rhs: AExpr) -> (b: Self)
        ensures
            b == BExpr::Cmp(cmp, lhs, rhs),
    {
        Self::Cmp(cmp, lhs, rhs)
    }
}

impl Clone for BExpr {
    fn clone(&self) -> (b: Self)
        ensures
            b == *self,
        decreases self,
    {
        match self {
            BExpr::Bool(val) => BExpr::Bool(*val),
            BExpr::And(lhs, rhs) => BExpr::And(
                Box::new((**lhs).clone()),
                Box::new((**rhs).clone()),
            ),
            BExpr::Or(lhs, rhs) => BExpr::Or(Box::new((**lhs).clone()), Box::new((**rhs).clone())),
            BExpr::Not(term) => BExpr::Not(Box::new((**term).clone())),
            BExpr::Cmp(cmp, lhs, rhs) => BExpr::Cmp(*cmp, lhs.clone(), rhs.clone()),
        }
    }
}

/// A statement, the unit of execution.
#[derive(Debug, PartialEq, Eq)]
pub enum Stmt {
    /// Does nothing.
    Skip,
    /// Binds a variable to the value of an expression.
    Asgn(String, AExpr),
    /// Runs its members from left to right.
    Sequence(Vec<Stmt>),
    /// Runs the first branch if the guard holds, else the second.
    If(BExpr, Box<Stmt>, Box<Stmt>),
    /// Runs the body for as long as the guard holds.
    While(BExpr, Box<Stmt>),
}

impl Stmt {
    /// The top-level statements of a program in source order: the members
    /// of a sequence, or the statement itself where it is no sequence.
    pub open spec fn top_level(self) -> Seq<Stmt> {
        match self {
            Stmt::Sequence(stmts) => stmts@,
            _ => seq![self],
        }
    }

    /// Whether `other` is the same tree as `self`: the same nodes with the
    /// same labels, the members of each sequence the same in number and in
    /// order. How the vector of a sequence is stored is left out of account.
    pub open spec fn same_tree(self, other: Stmt) -> bool
        decreases self,
    {
        match self {
            Stmt::Skip => other is Skip,
            Stmt::Asgn(var, aexpr) => other == self,
            Stmt::Sequence(stmts) => {
                &&& other is Sequence
                &&& other->Sequence_0@.len() == stmts@.len()
                &&& forall|i: int|
                    0 <= i < stmts@.len() ==> (#[trigger] stmts@[i]).same_tree(
                        other->Sequence_0@[i],
                    )
            },
            Stmt::If(if_, then_, else_) => {
                &&& other is If
                &&& other->If_0 == if_
                &&& then_.same_tree(*other->If_1)
                &&& else_.same_tree(*other->If_2)
            },
            Stmt::While(test, body) => {
                &&& other is While
                &&& other->While_0 == test
                &&& body.same_tree(*other->While_1)
            },
        }
    }

    /// The conditional with the guard `if_` and both of its branches.
    pub fn ite(if_: BExpr, then_: Self, else_: Self) -> (s: Self)
        ensures
            s == Stmt::If(if_, Box::new(then_), Box::new(else_)),
    {
        Self::If(if_, Box::new(then_), Box::new(else_))
    }

    /// A cursor over the top-level statements of `self`.
    pub fn into_iter(&self) -> (it: StmtIter<&Stmt>)
        ensures
            it@.len() == self.top_level().len(),
            forall|i: int| 0 <= i < it@.len() ==> *(#[trigger] it@[i]) == self.top_level()[i],
    {
        StmtIter::new(self)
    }
}

impl Clone for Stmt {
    /// A copy of the tree, node for node. A sequence is copied into a fresh
    /// vector that holds copies of the same members in the same order.
    fn clone(&self) -> (s: Self)
        ensures
            self.same_tree(s),
        decreases self,
    {
        match self {
            Stmt::Skip => Stmt::Skip,
            Stmt::Asgn(var, aexpr) => Stmt::Asgn(var.clone(), aexpr.clone()),
            Stmt::Sequence(stmts) => {
                let mut copy: Vec<Stmt> = Vec::new();
                let mut i: usize = 0;
                while i < stmts.len()
                    invariant
                        *self == Stmt::Sequence(*stmts),
                        i <= stmts.len(),
                        copy@.len() == i,
                        forall|j: int|
                            0 <= j < i ==> (#[trigger] stmts@[j]).same_tree(copy@[j]),
                    decreases stmts.len() - i,
                {
                    assert(self->Sequence_0 == *stmts);
                    copy.push(stmts[i].clone());
                    i += 1;
                }
                Stmt::Sequence(copy)
            },
            Stmt::If(if_, then_, else_) => Stmt::If(
                if_.clone(),
                Box::new((**then_).clone()),
                Box::new((**else_).clone()),
            ),
            Stmt::While(test, body) => Stmt::While(test.clone(), Box::new((**body).clone())),
        }
    }
}

impl From<Vec<Stmt>> for Stmt {
    fn from(value: Vec<Stmt>) -> (s: Self)
        ensures
            s == Stmt::Sequence(value),
    {
        Self::Sequence(value)
    }
}

impl vstd::std_specs::convert::FromSpecImpl<Vec<Stmt>> for Stmt {
    open spec fn obeys_from_spec() -> bool {
        true
    }

    open spec fn from_spec(value: Vec<Stmt>) -> Self {
        Stmt::Sequence(value)
    }
}

/// A finite, non-restartable cursor that hands out items front to back.
pub struct StmtIter<T> {
    stmts: VecDeque<T>,
}

impl<T> View for StmtIter<T> {
    type V = Seq<T>;

    /// The items that are still to come, next one first.
    closed spec fn view(&self) -> Seq<T> {
        self.stmts@
    }
}

impl<T> StmtIter<T> {
    /// Hands out the front item and drops it from the cursor; `None` once
    /// the cursor is empty.
    pub fn next(&mut self) -> (item: Option<T>)
        ensures
            old(self)@.len() == 0 ==> item.is_none() && final(self)@ == old(self)@,
            old(self)@.len() > 0 ==> item == Some(old(self)@[0]) && final(self)@ == old(
                self,
            )@.subrange(1, old(self)@.len() as int),
    {
        self.stmts.pop_front()
    }
}

impl<'stmt> StmtIter<&'stmt Stmt> {
    /// A cursor over the top-level statements of `stmts`.
    pub fn new(stmts: &'stmt Stmt) -> (it: Self)
        ensures
            it@.len() == stmts.top_level().len(),
            forall|i: int| 0 <= i < it@.len() ==> *(#[trigger] it@[i]) == stmts.top_level()[i],
    {
        let mut queue: VecDeque<&'stmt Stmt> = VecDeque::new();
        if let Stmt::Sequence(seq) = stmts {
            let mut i: usize = 0;
            while i < seq.len()
                invariant
                    i <= seq.len(),
                    queue@.len() == i,
                    forall|j: int| 0 <= j < i ==> *(#[trigger] queue@[j]) == seq@[j],
                decreases seq.len() - i,
            {
                queue.push_back(&seq[i]);
                i += 1;
            }
        } else {
            queue.push_back(stmts);
        }
        Self { stmts: queue }
    }
}

} // verus!
