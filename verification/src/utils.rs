//! The syntactic functions on programs: elementary blocks, labels, entry and
//! exit points, the flow graph, free variables and non-trivial arithmetic
//! subexpressions, each computed as the model defines it.

use crate::abstract_syntax::{
    AddExp, AndExp, ArithmeticExpression, AssignmentStmt, Block, BooleanExpression, CFalse, CTrue,
    Condition, DivExp, EqExp, Expression, GEqExp, GTExp, IfElseStmt, LEqExp, LTExp, Label, MulExp,
    Name, NotExp, NumExp, OrExp, SequenceStmt, SkipStmt, Statement, SubExp, VarExp, WhileStmt,
};
use crate::fact_set::{lemma_views_concat, views, FactSet};
use crate::framework::L;
use crate::model::{edges_into, mentioning, reversed, Arith, Edge, Elem};
use vstd::prelude::*;

verus! {

/// The elementary blocks of `stmt`, in textual order.
pub fn blocks(stmt: Box<Statement>) -> (r: Vec<Box<Block>>)
    ensures
        views(r@) == stmt@.blocks(),
    decreases stmt,
{
    match *stmt {
        Statement::AssignmentStmt(data) => {
            let mut r = Vec::new();
            r.push(Box::new(Block::AssignmentStmt(data)));
            assert(views(r@) =~= stmt@.blocks());
            r
        },
        Statement::SkipStmt(data) => {
            let mut r = Vec::new();
            r.push(Box::new(Block::SkipStmt(data)));
            assert(views(r@) =~= stmt@.blocks());
            r
        },
        Statement::SequenceStmt(data) => {
            let mut r = blocks(data.s1);
            let mut rest = blocks(data.s2);
            proof {
                lemma_views_concat(r@, rest@);
            }
            r.append(&mut rest);
            r
        },
        Statement::IfElseStmt(data) => {
            let mut r = Vec::new();
            r.push(Box::new(Block::Condition(data.condition)));
            let mut then_blocks = blocks(data.then_stmt);
            let mut else_blocks = blocks(data.else_stmt);
            proof {
                lemma_views_concat(r@, then_blocks@);
                lemma_views_concat(r@ + then_blocks@, else_blocks@);
                assert(views(r@) =~= seq![Elem::Guard(data.condition@)]);
            }
            r.append(&mut then_blocks);
            r.append(&mut else_blocks);
            r
        },
        Statement::WhileStmt(data) => {
            let mut r = Vec::new();
            r.push(Box::new(Block::Condition(data.condition)));
            let mut body_blocks = blocks(data.stmt);
            proof {
                lemma_views_concat(r@, body_blocks@);
                assert(views(r@) =~= seq![Elem::Guard(data.condition@)]);
            }
            r.append(&mut body_blocks);
            r
        },
    }
}

/// The assignments of `stmt`, in textual order.
pub fn assignments(stmt: Box<Statement>) -> (r: Vec<AssignmentStmt>)
    ensures
        views(r@) == stmt@.assignments(),
    decreases stmt,
{
    match *stmt {
        Statement::AssignmentStmt(data) => {
            let mut r = Vec::new();
            r.push(data);
            assert(views(r@) =~= stmt@.assignments());
            r
        },
        Statement::SkipStmt(_) => {
            let r = Vec::new();
            assert(views(r@) =~= stmt@.assignments());
            r
        },
        Statement::SequenceStmt(data) => {
            let mut r = assignments(data.s1);
            let mut rest = assignments(data.s2);
            proof {
                lemma_views_concat(r@, rest@);
            }
            r.append(&mut rest);
            r
        },
        Statement::IfElseStmt(data) => {
            let mut r = assignments(data.then_stmt);
            let mut rest = assignments(data.else_stmt);
            proof {
                lemma_views_concat(r@, rest@);
            }
            r.append(&mut rest);
            r
        },
        Statement::WhileStmt(data) => assignments(data.stmt),
    }
}

/// The entry label of `stmt`.
pub fn init(stmt: Box<Statement>) -> (l: Label)
    ensures
        l == stmt@.init(),
    decreases stmt,
{
    match *stmt {
        Statement::AssignmentStmt(AssignmentStmt { name: _, exp: _, label }) => label,
        Statement::SkipStmt(SkipStmt { label }) => label,
        Statement::SequenceStmt(SequenceStmt { s1, s2: _ }) => init(s1),
        Statement::IfElseStmt(
            IfElseStmt { condition: Condition { exp: _, label }, then_stmt: _, else_stmt: _ },
        ) => label,
        Statement::WhileStmt(WhileStmt { condition: Condition { exp: _, label }, stmt: _ }) => label,
    }
}

/// The exit labels of `stmt`.
pub fn finals(stmt: Box<Statement>) -> (r: Vec<Label>)
    ensures
        r@ == stmt@.finals(),
    decreases stmt,
{
    match *stmt {
        Statement::AssignmentStmt(AssignmentStmt { name: _, exp: _, label }) => {
            let mut r = Vec::new();
            r.push(label);
            assert(r@ =~= stmt@.finals());
            r
        },
        Statement::SkipStmt(SkipStmt { label }) => {
            let mut r = Vec::new();
            r.push(label);
            assert(r@ =~= stmt@.finals());
            r
        },
        Statement::SequenceStmt(SequenceStmt { s1: _, s2 }) => finals(s2),
        Statement::IfElseStmt(IfElseStmt { condition: _, then_stmt, else_stmt }) => {
            let mut r = finals(then_stmt);
            let mut rest = finals(else_stmt);
            r.append(&mut rest);
            r
        },
        Statement::WhileStmt(WhileStmt { condition: Condition { exp: _, label }, stmt: _ }) => {
            let mut r = Vec::new();
            r.push(label);
            assert(r@ =~= stmt@.finals());
            r
        },
    }
}

/// The label of `block`.
pub fn label(block: Box<Block>) -> (l: Label)
    ensures
        l == block@.label(),
{
    match *block {
        Block::AssignmentStmt(AssignmentStmt { name: _, exp: _, label }) => label,
        Block::SkipStmt(SkipStmt { label }) => label,
        Block::Condition(Condition { exp: _, label }) => label,
    }
}

/// The labels of the elementary blocks of `stmt`, in textual order.
pub fn labels(stmt: Box<Statement>) -> (r: Vec<Label>)
    ensures
        r@ == stmt@.labels(),
{
    let all = blocks(stmt);
    let mut r: Vec<Label> = Vec::new();
    let mut i: usize = 0;
    while i < all.len()
        invariant
            i <= all.len(),
            r.len() == i,
            forall|k: int| 0 <= k < i ==> r[k] == all[k]@.label(),
        decreases all.len() - i,
    {
        r.push(label(all[i].clone()));
        i = i + 1;
    }
    assert(r@ =~= views(all@).map_values(|b: Elem| b.label()));
    r
}

/// The edges `(l, to)` for the labels `l` of `from`, in order.
fn edges_to(from: Vec<Label>, to: Label) -> (r: Vec<Edge>)
    ensures
        r@ == edges_into(from@, to),
{
    let mut r: Vec<Edge> = Vec::new();
    let mut i: usize = 0;
    while i < from.len()
        invariant
            i <= from.len(),
            r.len() == i,
            forall|k: int| 0 <= k < i ==> r[k] == (from[k], to),
        decreases from.len() - i,
    {
        r.push((from[i], to));
        i = i + 1;
    }
    assert(r@ =~= edges_into(from@, to));
    r
}

/// The forward flow graph of `stmt`.
pub fn flow(stmt: Box<Statement>) -> (r: Vec<Edge>)
    ensures
        r@ == stmt@.flow(),
    decreases stmt,
{
    match *stmt {
        Statement::AssignmentStmt(_) => Vec::new(),
        Statement::SkipStmt(_) => Vec::new(),
        Statement::SequenceStmt(SequenceStmt { s1, s2 }) => {
            let mut r = flow(s1.clone());
            let mut second = flow(s2.clone());
            let mut joints = edges_to(finals(s1), init(s2));
            r.append(&mut second);
            r.append(&mut joints);
            r
        },
        Statement::IfElseStmt(
            IfElseStmt { condition: Condition { exp: _, label }, then_stmt, else_stmt },
        ) => {
            let mut r = flow(then_stmt.clone());
            let mut second = flow(else_stmt.clone());
            r.append(&mut second);
            r.push((label, init(then_stmt)));
            r.push((label, init(else_stmt)));
            assert(r@ =~= stmt@.flow());
            r
        },
        Statement::WhileStmt(WhileStmt { condition: Condition { exp: _, label }, stmt: body }) => {
            let mut r = flow(body.clone());
            r.push((label, init(body.clone())));
            let mut back = edges_to(finals(body), label);
            r.append(&mut back);
            assert(r@ =~= stmt@.flow());
            r
        },
    }
}

/// The backward flow graph of `stmt`: every edge of `flow` with its endpoints
/// exchanged.
pub fn flow_r(stmt: Box<Statement>) -> (r: Vec<Edge>)
    ensures
        r@ == stmt@.flow_r(),
{
    let forward = flow(stmt);
    let mut r: Vec<Edge> = Vec::new();
    let mut i: usize = 0;
    while i < forward.len()
        invariant
            i <= forward.len(),
            r.len() == i,
            forall|k: int| 0 <= k < i ==> r[k] == (forward[k].1, forward[k].0),
        decreases forward.len() - i,
    {
        let (source, target) = forward[i];
        r.push((target, source));
        i = i + 1;
    }
    assert(r@ =~= reversed(forward@));
    r
}

/// The set of the members of either argument.
pub fn union<T: L>(set1: FactSet<T>, set2: FactSet<T>) -> (r: FactSet<T>)
    ensures
        r@ == set1@.union(set2@),
{
    let mut r = set1;
    let mut rest = set2.into_vec();
    while rest.len() > 0
        invariant
            r@.union(views(rest@).to_set()) == set1@.union(set2@),
        decreases rest.len(),
    {
        let ghost before = views(rest@);
        let e = rest.pop().unwrap();
        proof {
            assert(views(rest@) =~= before.drop_last());
            assert(before.last() == e@);
            assert(before =~= before.drop_last().push(e@));
            before.drop_last().lemma_push_to_set_commute(e@);
            assert(r@.insert(e@).union(views(rest@).to_set()) =~= r@.union(before.to_set()));
        }
        r.insert(e);
    }
    assert(views(rest@).to_set() =~= Set::<T::V>::empty());
    assert(r@ =~= r@.union(Set::<T::V>::empty()));
    r
}

/// The set of the members of both arguments.
pub fn intersection<T: L>(set1: FactSet<T>, set2: FactSet<T>) -> (r: FactSet<T>)
    ensures
        r@ == set1@.intersect(set2@),
{
    let mut r = FactSet::new();
    let mut rest = set1.into_vec();
    while rest.len() > 0
        invariant
            r@.union(views(rest@).to_set().intersect(set2@)) == set1@.intersect(set2@),
        decreases rest.len(),
    {
        let ghost before = views(rest@);
        let e1 = rest.pop().unwrap();
        proof {
            assert(views(rest@) =~= before.drop_last());
            assert(before.last() == e1@);
            assert(before =~= before.drop_last().push(e1@));
            before.drop_last().lemma_push_to_set_commute(e1@);
        }
        if set2.contains(&e1) {
            assert(r@.insert(e1@).union(views(rest@).to_set().intersect(set2@)) =~= r@.union(
                before.to_set().intersect(set2@),
            ));
            r.insert(e1);
        } else {
            assert(r@.union(views(rest@).to_set().intersect(set2@)) =~= r@.union(
                before.to_set().intersect(set2@),
            ));
        }
    }
    assert(views(rest@).to_set() =~= Set::<T::V>::empty());
    assert(r@ =~= r@.union(Set::<T::V>::empty().intersect(set2@)));
    r
}

/// The variables occurring in `exp`.
pub fn fv_e(exp: Box<Expression>) -> (r: FactSet<Name>)
    ensures
        r@ == exp@.vars(),
{
    match *exp {
        Expression::ArithmeticExpression(data) => fv_ae(data),
        Expression::BooleanExpression(data) => fv_be(data),
    }
}

/// The variables occurring in `exp`.
pub fn fv_be(exp: Box<BooleanExpression>) -> (r: FactSet<Name>)
    ensures
        r@ == exp@.vars(),
    decreases exp,
{
    match *exp {
        BooleanExpression::CTrue(CTrue {  }) => FactSet::new(),
        BooleanExpression::CFalse(CFalse {  }) => FactSet::new(),
        BooleanExpression::NotExp(NotExp { exp }) => fv_be(exp),
        BooleanExpression::AndExp(AndExp { left, right }) => union(fv_be(left), fv_be(right)),
        BooleanExpression::OrExp(OrExp { left, right }) => union(fv_be(left), fv_be(right)),
        BooleanExpression::EqExp(EqExp { left, right }) => union(fv_ae(left), fv_ae(right)),
        BooleanExpression::GTExp(GTExp { left, right }) => union(fv_ae(left), fv_ae(right)),
        BooleanExpression::LTExp(LTExp { left, right }) => union(fv_ae(left), fv_ae(right)),
        BooleanExpression::GEqExp(GEqExp { left, right }) => union(fv_ae(left), fv_ae(right)),
        BooleanExpression::LEqExp(LEqExp { left, right }) => union(fv_ae(left), fv_ae(right)),
    }
}

/// The variables occurring in `exp`.
pub fn fv_ae(exp: Box<ArithmeticExpression>) -> (r: FactSet<Name>)
    ensures
        r@ == exp@.vars(),
    decreases exp,
{
    match *exp {
        ArithmeticExpression::VarExp(VarExp { name }) => FactSet::singleton(name),
        ArithmeticExpression::NumExp(NumExp { value: _ }) => FactSet::new(),
        ArithmeticExpression::AddExp(AddExp { left, right }) => union(fv_ae(left), fv_ae(right)),
        ArithmeticExpression::SubExp(SubExp { left, right }) => union(fv_ae(left), fv_ae(right)),
        ArithmeticExpression::MulExp(MulExp { left, right }) => union(fv_ae(left), fv_ae(right)),
        ArithmeticExpression::DivExp(DivExp { left, right }) => union(fv_ae(left), fv_ae(right)),
    }
}

/// The variables read anywhere in `stmt`.
pub fn fv_st(stmt: Box<Statement>) -> (r: FactSet<Name>)
    ensures
        r@ == stmt@.vars(),
    decreases stmt,
{
    match *stmt {
        Statement::AssignmentStmt(AssignmentStmt { name: _, exp, label: _ }) => fv_e(exp),
        Statement::SkipStmt(SkipStmt { label: _ }) => FactSet::new(),
        Statement::SequenceStmt(SequenceStmt { s1, s2 }) => union(fv_st(s1), fv_st(s2)),
        Statement::IfElseStmt(
            IfElseStmt { condition: Condition { exp, label: _ }, then_stmt, else_stmt },
        ) => union(union(fv_be(exp), fv_st(then_stmt)), fv_st(else_stmt)),
        Statement::WhileStmt(WhileStmt { condition: Condition { exp, label: _ }, stmt }) => union(
            fv_be(exp),
            fv_st(stmt),
        ),
    }
}

/// The binary arithmetic subterms occurring under the relations of `exp`.
pub fn complex_expressions_be(exp: Box<BooleanExpression>) -> (r: FactSet<ArithmeticExpression>)
    ensures
        r@ == exp@.complex(),
    decreases exp,
{
    match *exp {
        BooleanExpression::CTrue(CTrue {  }) => FactSet::new(),
        BooleanExpression::CFalse(CFalse {  }) => FactSet::new(),
        BooleanExpression::NotExp(NotExp { exp }) => complex_expressions_be(exp),
        BooleanExpression::AndExp(AndExp { left, right }) => union(
            complex_expressions_be(left),
            complex_expressions_be(right),
        ),
        BooleanExpression::OrExp(OrExp { left, right }) => union(
            complex_expressions_be(left),
            complex_expressions_be(right),
        ),
        BooleanExpression::EqExp(EqExp { left, right }) => union(
            complex_expressions_ae(left),
            complex_expressions_ae(right),
        ),
        BooleanExpression::GTExp(GTExp { left, right }) => union(
            complex_expressions_ae(left),
            complex_expressions_ae(right),
        ),
        BooleanExpression::LTExp(LTExp { left, right }) => union(
            complex_expressions_ae(left),
            complex_expressions_ae(right),
        ),
        BooleanExpression::GEqExp(GEqExp { left, right }) => union(
            complex_expressions_ae(left),
            complex_expressions_ae(right),
        ),
        BooleanExpression::LEqExp(LEqExp { left, right }) => union(
            complex_expressions_ae(left),
            complex_expressions_ae(right),
        ),
    }
}

/// The binary subterms of `exp`, itself included when it is binary.
pub fn complex_expressions_ae(exp: Box<ArithmeticExpression>) -> (r: FactSet<ArithmeticExpression>)
    ensures
        r@ == exp@.complex(),
    decreases exp,
{
    match *exp {
        ArithmeticExpression::VarExp(VarExp { name: _ }) => FactSet::new(),
        ArithmeticExpression::NumExp(NumExp { value: _ }) => FactSet::new(),
        ArithmeticExpression::AddExp(AddExp { left, right }) => union(
            union(
                FactSet::singleton(
                    ArithmeticExpression::AddExp(AddExp { left: left.clone(), right: right.clone() }),
                ),
                complex_expressions_ae(left),
            ),
            complex_expressions_ae(right),
        ),
        ArithmeticExpression::SubExp(SubExp { left, right }) => union(
            union(
                FactSet::singleton(
                    ArithmeticExpression::SubExp(SubExp { left: left.clone(), right: right.clone() }),
                ),
                complex_expressions_ae(left),
            ),
            complex_expressions_ae(right),
        ),
        ArithmeticExpression::MulExp(MulExp { left, right }) => union(
            union(
                FactSet::singleton(
                    ArithmeticExpression::MulExp(MulExp { left: left.clone(), right: right.clone() }),
                ),
                complex_expressions_ae(left),
            ),
            complex_expressions_ae(right),
        ),
        ArithmeticExpression::DivExp(DivExp { left, right }) => union(
            union(
                FactSet::singleton(
                    ArithmeticExpression::DivExp(DivExp { left: left.clone(), right: right.clone() }),
                ),
                complex_expressions_ae(left),
            ),
            complex_expressions_ae(right),
        ),
    }
}

/// The binary arithmetic subterms evaluated by the test `c`.
pub fn complex_expressions_c(c: Box<Condition>) -> (r: FactSet<ArithmeticExpression>)
    ensures
        r@ == c@.exp.complex(),
{
    complex_expressions_be((*c).exp)
}

/// The binary arithmetic subterms of `exp`.
pub fn complex_expressions_e(exp: Box<Expression>) -> (r: FactSet<ArithmeticExpression>)
    ensures
        r@ == exp@.complex(),
{
    match *exp {
        Expression::ArithmeticExpression(data) => complex_expressions_ae(data),
        Expression::BooleanExpression(data) => complex_expressions_be(data),
    }
}

/// The binary arithmetic subterms occurring anywhere in `stmt`.
pub fn complex_expressions_stmt(stmt: Box<Statement>) -> (r: FactSet<ArithmeticExpression>)
    ensures
        r@ == stmt@.complex(),
    decreases stmt,
{
    match *stmt {
        Statement::AssignmentStmt(AssignmentStmt { name: _, exp, label: _ }) => {
            complex_expressions_e(exp)
        },
        Statement::SkipStmt(SkipStmt { label: _ }) => FactSet::new(),
        Statement::SequenceStmt(SequenceStmt { s1, s2 }) => union(
            complex_expressions_stmt(s1),
            complex_expressions_stmt(s2),
        ),
        Statement::IfElseStmt(IfElseStmt { condition, then_stmt, else_stmt }) => union(
            union(complex_expressions_c(Box::new(condition)), complex_expressions_stmt(then_stmt)),
            complex_expressions_stmt(else_stmt),
        ),
        Statement::WhileStmt(WhileStmt { condition, stmt }) => union(
            complex_expressions_c(Box::new(condition)),
            complex_expressions_stmt(stmt),
        ),
    }
}

/// The expressions of `exprs` in which the variable `name` occurs
/// (`present`) or does not occur (`!present`).
pub fn expressions_mentioning(
    exprs: FactSet<ArithmeticExpression>,
    name: &Name,
    present: bool,
) -> (r: FactSet<ArithmeticExpression>)
    ensures
        r@ == mentioning(exprs@, name@, present),
{
    let mut r = FactSet::new();
    let mut rest = exprs.into_vec();
    while rest.len() > 0
        invariant
            r@.union(mentioning(views(rest@).to_set(), name@, present)) == mentioning(
                exprs@,
                name@,
                present,
            ),
        decreases rest.len(),
    {
        let ghost before = views(rest@);
        let e = rest.pop().unwrap();
        proof {
            assert(views(rest@) =~= before.drop_last());
            assert(before =~= before.drop_last().push(e@));
            before.drop_last().lemma_push_to_set_commute(e@);
        }
        if fv_ae(Box::new(e.clone())).contains(name) == present {
            assert(r@.insert(e@).union(mentioning(views(rest@).to_set(), name@, present))
                =~= r@.union(mentioning(before.to_set(), name@, present)));
            r.insert(e);
        } else {
            assert(r@.union(mentioning(views(rest@).to_set(), name@, present)) =~= r@.union(
                mentioning(before.to_set(), name@, present),
            ));
        }
    }
    assert(views(rest@).to_set() =~= Set::<Arith>::empty());
    assert(r@ =~= r@.union(mentioning(Set::<Arith>::empty(), name@, present)));
    r
}

/// Whether no label is carried by two blocks of `stmt`.
pub fn well_labelled(stmt: Box<Statement>) -> (b: bool)
    ensures
        b == stmt@.well_labelled(),
{
    let all = labels(stmt);
    let mut i: usize = 0;
    while i < all.len()
        invariant
            i <= all.len(),
            all@ == stmt@.labels(),
            forall|j: int, k: int| 0 <= j < k < i ==> all[j] != all[k],
        decreases all.len() - i,
    {
        let mut j: usize = 0;
        while j < i
            invariant
                j <= i,
                i < all.len(),
                all@ == stmt@.labels(),
                forall|k: int| 0 <= k < j ==> all[k] != all[i as int],
            decreases i - j,
        {
            if all[j] == all[i] {
                return false;
            }
            j = j + 1;
        }
        i = i + 1;
    }
    true
}

} // verus!
