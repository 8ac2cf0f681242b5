//! Labelled abstract syntax of the While language, as built by a front end,
//! and the view of each construct in the mathematical model.

use crate::framework::L;
use crate::model::{Arith, Assign, Elem, Expr, Guard, Logic, Stmt};
use vstd::prelude::*;

verus! {

pub type Integer = i64;

pub type Label = Integer;

pub type Name = String;

pub type Program = Statement;

/// The label of a definition made before the program starts.
pub const UNDEF: Label = -1;

/* Enums */

#[derive(Debug, PartialEq, Eq, Hash)]
pub enum Block {
    AssignmentStmt(AssignmentStmt),
    SkipStmt(SkipStmt),
    Condition(Condition),
}

#[derive(Debug, PartialEq, Eq, Hash)]
pub enum Statement {
    AssignmentStmt(AssignmentStmt),
    SkipStmt(SkipStmt),
    SequenceStmt(SequenceStmt),
    IfElseStmt(IfElseStmt),
    WhileStmt(WhileStmt),
}

#[derive(Debug, PartialEq, Eq, Hash)]
pub enum Expression {
    ArithmeticExpression(Box<ArithmeticExpression>),
    BooleanExpression(Box<BooleanExpression>),
}

#[derive(Debug, PartialEq, Eq, Hash)]
pub enum ArithmeticExpression {
    VarExp(VarExp),
    NumExp(NumExp),
    AddExp(AddExp),
    SubExp(SubExp),
    MulExp(MulExp),
    DivExp(DivExp),
}

#[derive(Debug, PartialEq, Eq, Hash)]
pub enum BooleanExpression {
    CTrue(CTrue),
    CFalse(CFalse),
    NotExp(NotExp),
    AndExp(AndExp),
    OrExp(OrExp),
    EqExp(EqExp),
    GTExp(GTExp),
    LTExp(LTExp),
    GEqExp(GEqExp),
    LEqExp(LEqExp),
}

/* Statements */

#[derive(Debug, PartialEq, Eq, Hash)]
pub struct AssignmentStmt {
    pub name: Name,
    pub exp: Box<Expression>,
    pub label: Label,
}

#[derive(Debug, PartialEq, Eq, Hash)]
pub struct SkipStmt {
    pub label: Label,
}

#[derive(Debug, PartialEq, Eq, Hash)]
pub struct SequenceStmt {
    pub s1: Box<Statement>,
    pub s2: Box<Statement>,
}

#[derive(Debug, PartialEq, Eq, Hash)]
pub struct IfElseStmt {
    pub condition: Condition,
    pub then_stmt: Box<Statement>,
    pub else_stmt: Box<Statement>,
}

#[derive(Debug, PartialEq, Eq, Hash)]
pub struct WhileStmt {
    pub condition: Condition,
    pub stmt: Box<Statement>,
}

#[derive(Debug, PartialEq, Eq, Hash)]
pub struct Condition {
    pub exp: Box<BooleanExpression>,
    pub label: Label,
}

/* Arithmetic expressions */

#[derive(Debug, PartialEq, Eq, Hash)]
pub struct VarExp {
    pub name: Name,
}

#[derive(Debug, PartialEq, Eq, Hash)]
pub struct NumExp {
    pub value: Integer,
}

#[derive(Debug, PartialEq, Eq, Hash)]
pub struct AddExp {
    pub left: Box<ArithmeticExpression>,
    pub right: Box<ArithmeticExpression>,
}

#[derive(Debug, PartialEq, Eq, Hash)]
pub struct SubExp {
    pub left: Box<ArithmeticExpression>,
    pub right: Box<ArithmeticExpression>,
}

#[derive(Debug, PartialEq, Eq, Hash)]
pub struct MulExp {
    pub left: Box<ArithmeticExpression>,
    pub right: Box<ArithmeticExpression>,
}

#[derive(Debug, PartialEq, Eq, Hash)]
pub struct DivExp {
    pub left: Box<ArithmeticExpression>,
    pub right: Box<ArithmeticExpression>,
}

/* Boolean expressions */

#[derive(Debug, PartialEq, Eq, Hash)]
pub struct CTrue {}

#[derive(Debug, PartialEq, Eq, Hash)]
pub struct CFalse {}

#[derive(Debug, PartialEq, Eq, Hash)]
pub struct NotExp {
    pub exp: Box<BooleanExpression>,
}

#[derive(Debug, PartialEq, Eq, Hash)]
pub struct AndExp {
    pub left: Box<BooleanExpression>,
    pub right: Box<BooleanExpression>,
}

#[derive(Debug, PartialEq, Eq, Hash)]
pub struct OrExp {
    pub left: Box<BooleanExpression>,
    pub right: Box<BooleanExpression>,
}

/* Relational expressions */

#[derive(Debug, PartialEq, Eq, Hash)]
pub struct EqExp {
    pub left: Box<ArithmeticExpression>,
    pub right: Box<ArithmeticExpression>,
}

#[derive(Debug, PartialEq, Eq, Hash)]
pub struct GTExp {
    pub left: Box<ArithmeticExpression>,
    pub right: Box<ArithmeticExpression>,
}

#[derive(Debug, PartialEq, Eq, Hash)]
pub struct LTExp {
    pub left: Box<ArithmeticExpression>,
    pub right: Box<ArithmeticExpression>,
}

#[derive(Debug, PartialEq, Eq, Hash)]
pub struct GEqExp {
    pub left: Box<ArithmeticExpression>,
    pub right: Box<ArithmeticExpression>,
}

#[derive(Debug, PartialEq, Eq, Hash)]
pub struct LEqExp {
    pub left: Box<ArithmeticExpression>,
    pub right: Box<ArithmeticExpression>,
}

/* Views */

impl ArithmeticExpression {
    /// The construct as a value of the model.
    pub open spec fn model(self) -> Arith
        decreases self,
    {
        match self {
            ArithmeticExpression::VarExp(e) => Arith::Var(e.name@),
            ArithmeticExpression::NumExp(e) => Arith::Num(e.value),
            ArithmeticExpression::AddExp(e) => Arith::Add(
                Box::new(e.left.model()),
                Box::new(e.right.model()),
            ),
            ArithmeticExpression::SubExp(e) => Arith::Sub(
                Box::new(e.left.model()),
                Box::new(e.right.model()),
            ),
            ArithmeticExpression::MulExp(e) => Arith::Mul(
                Box::new(e.left.model()),
                Box::new(e.right.model()),
            ),
            ArithmeticExpression::DivExp(e) => Arith::Div(
                Box::new(e.left.model()),
                Box::new(e.right.model()),
            ),
        }
    }
}

impl View for ArithmeticExpression {
    type V = Arith;

    open spec fn view(&self) -> Arith {
        self.model()
    }
}

impl BooleanExpression {
    /// The construct as a value of the model.
    pub open spec fn model(self) -> Logic
        decreases self,
    {
        match self {
            BooleanExpression::CTrue(_) => Logic::True,
            BooleanExpression::CFalse(_) => Logic::False,
            BooleanExpression::NotExp(e) => Logic::Not(Box::new(e.exp.model())),
            BooleanExpression::AndExp(e) => Logic::And(
                Box::new(e.left.model()),
                Box::new(e.right.model()),
            ),
            BooleanExpression::OrExp(e) => Logic::Or(
                Box::new(e.left.model()),
                Box::new(e.right.model()),
            ),
            BooleanExpression::EqExp(e) => Logic::Eq(e.left@, e.right@),
            BooleanExpression::GTExp(e) => Logic::Gt(e.left@, e.right@),
            BooleanExpression::LTExp(e) => Logic::Lt(e.left@, e.right@),
            BooleanExpression::GEqExp(e) => Logic::Geq(e.left@, e.right@),
            BooleanExpression::LEqExp(e) => Logic::Leq(e.left@, e.right@),
        }
    }
}

impl View for BooleanExpression {
    type V = Logic;

    open spec fn view(&self) -> Logic {
        self.model()
    }
}

impl View for Expression {
    type V = Expr;

    open spec fn view(&self) -> Expr {
        match self {
            Expression::ArithmeticExpression(e) => Expr::Arith(e@),
            Expression::BooleanExpression(e) => Expr::Logic(e@),
        }
    }
}

impl View for AssignmentStmt {
    type V = Assign;

    open spec fn view(&self) -> Assign {
        Assign { name: self.name@, exp: self.exp@, label: self.label }
    }
}

impl View for SkipStmt {
    type V = Label;

    open spec fn view(&self) -> Label {
        self.label
    }
}

impl View for Condition {
    type V = Guard;

    open spec fn view(&self) -> Guard {
        Guard { exp: self.exp@, label: self.label }
    }
}

impl Statement {
    /// The construct as a value of the model.
    pub open spec fn model(self) -> Stmt
        decreases self,
    {
        match self {
            Statement::AssignmentStmt(s) => Stmt::Assign(s@),
            Statement::SkipStmt(s) => Stmt::Skip(s.label),
            Statement::SequenceStmt(s) => Stmt::Sequence(
                Box::new(s.s1.model()),
                Box::new(s.s2.model()),
            ),
            Statement::IfElseStmt(s) => Stmt::IfElse(
                s.condition@,
                Box::new(s.then_stmt.model()),
                Box::new(s.else_stmt.model()),
            ),
            Statement::WhileStmt(s) => Stmt::While(s.condition@, Box::new(s.stmt.model())),
        }
    }
}

impl View for Statement {
    type V = Stmt;

    open spec fn view(&self) -> Stmt {
        self.model()
    }
}

impl View for Block {
    type V = Elem;

    open spec fn view(&self) -> Elem {
        match self {
            Block::AssignmentStmt(s) => Elem::Assign(s@),
            Block::SkipStmt(s) => Elem::Skip(s.label),
            Block::Condition(c) => Elem::Guard(c@),
        }
    }
}

/* Copies */

impl Clone for VarExp {
    fn clone(&self) -> (r: Self)
        ensures
            r == *self,
    {
        VarExp { name: self.name.clone() }
    }
}

impl Clone for NumExp {
    fn clone(&self) -> (r: Self)
        ensures
            r == *self,
    {
        NumExp { value: self.value }
    }
}

impl Clone for AddExp {
    fn clone(&self) -> (r: Self)
        ensures
            r == *self,
    {
        AddExp { left: Box::new((*self.left).clone()), right: Box::new((*self.right).clone()) }
    }
}

impl Clone for SubExp {
    fn clone(&self) -> (r: Self)
        ensures
            r == *self,
    {
        SubExp { left: Box::new((*self.left).clone()), right: Box::new((*self.right).clone()) }
    }
}

impl Clone for MulExp {
    fn clone(&self) -> (r: Self)
        ensures
            r == *self,
    {
        MulExp { left: Box::new((*self.left).clone()), right: Box::new((*self.right).clone()) }
    }
}

impl Clone for DivExp {
    fn clone(&self) -> (r: Self)
        ensures
            r == *self,
    {
        DivExp { left: Box::new((*self.left).clone()), right: Box::new((*self.right).clone()) }
    }
}

impl Clone for EqExp {
    fn clone(&self) -> (r: Self)
        ensures
            r == *self,
    {
        EqExp { left: Box::new((*self.left).clone()), right: Box::new((*self.right).clone()) }
    }
}

impl Clone for GTExp {
    fn clone(&self) -> (r: Self)
        ensures
            r == *self,
    {
        GTExp { left: Box::new((*self.left).clone()), right: Box::new((*self.right).clone()) }
    }
}

impl Clone for LTExp {
    fn clone(&self) -> (r: Self)
        ensures
            r == *self,
    {
        LTExp { left: Box::new((*self.left).clone()), right: Box::new((*self.right).clone()) }
    }
}

impl Clone for GEqExp {
    fn clone(&self) -> (r: Self)
        ensures
            r == *self,
    {
        GEqExp { left: Box::new((*self.left).clone()), right: Box::new((*self.right).clone()) }
    }
}

impl Clone for LEqExp {
    fn clone(&self) -> (r: Self)
        ensures
            r == *self,
    {
        LEqExp { left: Box::new((*self.left).clone()), right: Box::new((*self.right).clone()) }
    }
}

impl Clone for ArithmeticExpression {
    fn clone(&self) -> (r: Self)
        ensures
            r == *self,
        decreases self,
    {
        match self {
            ArithmeticExpression::VarExp(e) => ArithmeticExpression::VarExp(e.clone()),
            ArithmeticExpression::NumExp(e) => ArithmeticExpression::NumExp(e.clone()),
            ArithmeticExpression::AddExp(e) => ArithmeticExpression::AddExp(
                AddExp { left: Box::new((*e.left).clone()), right: Box::new((*e.right).clone()) },
            ),
            ArithmeticExpression::SubExp(e) => ArithmeticExpression::SubExp(
                SubExp { left: Box::new((*e.left).clone()), right: Box::new((*e.right).clone()) },
            ),
            ArithmeticExpression::MulExp(e) => ArithmeticExpression::MulExp(
                MulExp { left: Box::new((*e.left).clone()), right: Box::new((*e.right).clone()) },
            ),
            ArithmeticExpression::DivExp(e) => ArithmeticExpression::DivExp(
                DivExp { left: Box::new((*e.left).clone()), right: Box::new((*e.right).clone()) },
            ),
        }
    }
}

impl Clone for CTrue {
    fn clone(&self) -> (r: Self)
        ensures
            r == *self,
    {
        CTrue {}
    }
}

impl Clone for CFalse {
    fn clone(&self) -> (r: Self)
        ensures
            r == *self,
    {
        CFalse {}
    }
}

impl Clone for NotExp {
    fn clone(&self) -> (r: Self)
        ensures
            r == *self,
    {
        NotExp { exp: Box::new((*self.exp).clone()) }
    }
}

impl Clone for AndExp {
    fn clone(&self) -> (r: Self)
        ensures
            r == *self,
    {
        AndExp { left: Box::new((*self.left).clone()), right: Box::new((*self.right).clone()) }
    }
}

impl Clone for OrExp {
    fn clone(&self) -> (r: Self)
        ensures
            r == *self,
    {
        OrExp { left: Box::new((*self.left).clone()), right: Box::new((*self.right).clone()) }
    }
}

impl Clone for BooleanExpression {
    fn clone(&self) -> (r: Self)
        ensures
            r == *self,
        decreases self,
    {
        match self {
            BooleanExpression::CTrue(_) => BooleanExpression::CTrue(CTrue {}),
            BooleanExpression::CFalse(_) => BooleanExpression::CFalse(CFalse {}),
            BooleanExpression::NotExp(e) => BooleanExpression::NotExp(
                NotExp { exp: Box::new((*e.exp).clone()) },
            ),
            BooleanExpression::AndExp(e) => BooleanExpression::AndExp(
                AndExp { left: Box::new((*e.left).clone()), right: Box::new((*e.right).clone()) },
            ),
            BooleanExpression::OrExp(e) => BooleanExpression::OrExp(
                OrExp { left: Box::new((*e.left).clone()), right: Box::new((*e.right).clone()) },
            ),
            BooleanExpression::EqExp(e) => BooleanExpression::EqExp(e.clone()),
            BooleanExpression::GTExp(e) => BooleanExpression::GTExp(e.clone()),
            BooleanExpression::LTExp(e) => BooleanExpression::LTExp(e.clone()),
            BooleanExpression::GEqExp(e) => BooleanExpression::GEqExp(e.clone()),
            BooleanExpression::LEqExp(e) => BooleanExpression::LEqExp(e.clone()),
        }
    }
}

impl Clone for Expression {
    fn clone(&self) -> (r: Self)
        ensures
            r == *self,
    {
        match self {
            Expression::ArithmeticExpression(e) => Expression::ArithmeticExpression(
                Box::new((**e).clone()),
            ),
            Expression::BooleanExpression(e) => Expression::BooleanExpression(
                Box::new((**e).clone()),
            ),
        }
    }
}

impl Clone for Condition {
    fn clone(&self) -> (r: Self)
        ensures
            r == *self,
    {
        Condition { exp: Box::new((*self.exp).clone()), label: self.label }
    }
}

impl Clone for AssignmentStmt {
    fn clone(&self) -> (r: Self)
        ensures
            r == *self,
    {
        AssignmentStmt {
            name: self.name.clone(),
            exp: Box::new((*self.exp).clone()),
            label: self.label,
        }
    }
}

impl Clone for SkipStmt {
    fn clone(&self) -> (r: Self)
        ensures
            r == *self,
    {
        SkipStmt { label: self.label }
    }
}

impl Clone for SequenceStmt {
    fn clone(&self) -> (r: Self)
        ensures
            r == *self,
    {
        SequenceStmt { s1: Box::new((*self.s1).clone()), s2: Box::new((*self.s2).clone()) }
    }
}

impl Clone for IfElseStmt {
    fn clone(&self) -> (r: Self)
        ensures
            r == *self,
    {
        IfElseStmt {
            condition: self.condition.clone(),
            then_stmt: Box::new((*self.then_stmt).clone()),
            else_stmt: Box::new((*self.else_stmt).clone()),
        }
    }
}

impl Clone for WhileStmt {
    fn clone(&self) -> (r: Self)
        ensures
            r == *self,
    {
        WhileStmt { condition: self.condition.clone(), stmt: Box::new((*self.stmt).clone()) }
    }
}

impl Clone for Statement {
    fn clone(&self) -> (r: Self)
        ensures
            r == *self,
        decreases self,
    {
        match self {
            Statement::AssignmentStmt(s) => Statement::AssignmentStmt(s.clone()),
            Statement::SkipStmt(s) => Statement::SkipStmt(s.clone()),
            Statement::SequenceStmt(s) => Statement::SequenceStmt(
                SequenceStmt { s1: Box::new((*s.s1).clone()), s2: Box::new((*s.s2).clone()) },
            ),
            Statement::IfElseStmt(s) => Statement::IfElseStmt(
                IfElseStmt {
                    condition: s.condition.clone(),
                    then_stmt: Box::new((*s.then_stmt).clone()),
                    else_stmt: Box::new((*s.else_stmt).clone()),
                },
            ),
            Statement::WhileStmt(s) => Statement::WhileStmt(
                WhileStmt { condition: s.condition.clone(), stmt: Box::new((*s.stmt).clone()) },
            ),
        }
    }
}

impl Clone for Block {
    fn clone(&self) -> (r: Self)
        ensures
            r == *self,
    {
        match self {
            Block::AssignmentStmt(s) => Block::AssignmentStmt(s.clone()),
            Block::SkipStmt(s) => Block::SkipStmt(s.clone()),
            Block::Condition(c) => Block::Condition(c.clone()),
        }
    }
}

/* Arithmetic expressions as facts */

impl L for ArithmeticExpression {
    /// Structural equality.
    fn same(&self, other: &Self) -> (r: bool)
        decreases self,
    {
        match self {
            ArithmeticExpression::VarExp(a) => match other {
                ArithmeticExpression::VarExp(b) => a.name == b.name,
                _ => false,
            },
            ArithmeticExpression::NumExp(a) => match other {
                ArithmeticExpression::NumExp(b) => a.value == b.value,
                _ => false,
            },
            ArithmeticExpression::AddExp(a) => match other {
                ArithmeticExpression::AddExp(b) => (*a.left).same(&*b.left) && (*a.right).same(
                    &*b.right,
                ),
                _ => false,
            },
            ArithmeticExpression::SubExp(a) => match other {
                ArithmeticExpression::SubExp(b) => (*a.left).same(&*b.left) && (*a.right).same(
                    &*b.right,
                ),
                _ => false,
            },
            ArithmeticExpression::MulExp(a) => match other {
                ArithmeticExpression::MulExp(b) => (*a.left).same(&*b.left) && (*a.right).same(
                    &*b.right,
                ),
                _ => false,
            },
            ArithmeticExpression::DivExp(a) => match other {
                ArithmeticExpression::DivExp(b) => (*a.left).same(&*b.left) && (*a.right).same(
                    &*b.right,
                ),
                _ => false,
            },
        }
    }

    fn duplicate(&self) -> (r: Self) {
        self.clone()
    }
}

} // verus!
