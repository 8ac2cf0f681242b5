use dataflow::abstract_syntax::{
    ArithmeticExpression, AssignmentStmt, Block, BooleanExpression, Condition, Expression, GTExp,
    IfElseStmt, SequenceStmt, Statement, SubExp, VarExp,
};
use dataflow::fact_set::FactSet;
use dataflow::framework::{solve, Framework, LabelFacts};
use dataflow::vb::VeryBusyExpressions;

fn vb_var(name: &str) -> Box<ArithmeticExpression> {
    Box::new(ArithmeticExpression::VarExp(VarExp { name: name.to_string() }))
}

fn vb_sub(l: &str, r: &str) -> Box<ArithmeticExpression> {
    Box::new(ArithmeticExpression::SubExp(SubExp { left: vb_var(l), right: vb_var(r) }))
}

fn vb_assignment(name: &str, exp: Box<ArithmeticExpression>, label: i64) -> AssignmentStmt {
    AssignmentStmt {
        name: name.to_string(),
        exp: Box::new(Expression::ArithmeticExpression(exp)),
        label,
    }
}

fn vb_assign(name: &str, exp: Box<ArithmeticExpression>, label: i64) -> Box<Statement> {
    Box::new(Statement::AssignmentStmt(vb_assignment(name, exp, label)))
}

fn vb_seq(s1: Box<Statement>, s2: Box<Statement>) -> Box<Statement> {
    Box::new(Statement::SequenceStmt(SequenceStmt { s1, s2 }))
}

fn vb_test() -> Condition {
    Condition {
        exp: Box::new(BooleanExpression::GTExp(GTExp { left: vb_var("a"), right: vb_var("b") })),
        label: 1,
    }
}

/// 1: if a > b then { 2: x = b-a; 3: y = a-b } else { 4: y = b-a; 5: x = a-b }
fn vb_program() -> Box<Statement> {
    Box::new(Statement::IfElseStmt(IfElseStmt {
        condition: vb_test(),
        then_stmt: vb_seq(vb_assign("x", vb_sub("b", "a"), 2), vb_assign("y", vb_sub("a", "b"), 3)),
        else_stmt: vb_seq(vb_assign("y", vb_sub("b", "a"), 4), vb_assign("x", vb_sub("a", "b"), 5)),
    }))
}

fn vb_set(items: Vec<Box<ArithmeticExpression>>) -> FactSet<ArithmeticExpression> {
    let mut s = FactSet::new();
    for e in items {
        s.insert(*e);
    }
    s
}

fn vb_at(
    results: &Vec<LabelFacts<ArithmeticExpression>>,
    label: i64,
) -> &LabelFacts<ArithmeticExpression> {
    let found: Vec<&LabelFacts<ArithmeticExpression>> =
        results.iter().filter(|r| r.label == label).collect();
    assert_eq!(found.len(), 1);
    found[0]
}

#[test]
fn vb_entry_sets_of_the_example() {
    let results = solve(Box::new(VeryBusyExpressions { program: vb_program() }));
    assert_eq!(results.len(), 5);
    let both = || vb_set(vec![vb_sub("a", "b"), vb_sub("b", "a")]);
    let a_minus_b = || vb_set(vec![vb_sub("a", "b")]);
    assert_eq!(vb_at(&results, 1).entry, both());
    assert_eq!(vb_at(&results, 2).entry, both());
    assert_eq!(vb_at(&results, 3).entry, a_minus_b());
    assert_eq!(vb_at(&results, 4).entry, both());
    assert_eq!(vb_at(&results, 5).entry, a_minus_b());
}

#[test]
fn vb_exit_sets_of_the_example() {
    let results = solve(Box::new(VeryBusyExpressions { program: vb_program() }));
    let both = || vb_set(vec![vb_sub("a", "b"), vb_sub("b", "a")]);
    let a_minus_b = || vb_set(vec![vb_sub("a", "b")]);
    assert_eq!(vb_at(&results, 1).exit, both());
    assert_eq!(vb_at(&results, 2).exit, a_minus_b());
    assert_eq!(vb_at(&results, 3).exit, vb_set(vec![]));
    assert_eq!(vb_at(&results, 4).exit, a_minus_b());
    assert_eq!(vb_at(&results, 5).exit, vb_set(vec![]));
}

#[test]
fn vb_components() {
    let analysis = VeryBusyExpressions { program: vb_program() };
    assert!(analysis.is_backwards());
    assert_eq!(analysis.get_e(), vec![3, 5]);
    assert!(analysis.get_initial_e().is_empty());
    assert_eq!(
        analysis.get_initial_others(),
        vb_set(vec![vb_sub("a", "b"), vb_sub("b", "a")])
    );
    let mut edges = analysis.get_f();
    edges.sort();
    assert_eq!(edges, vec![(2, 1), (3, 2), (4, 1), (5, 4)]);
}

#[test]
fn vb_gen_and_kill() {
    let analysis = VeryBusyExpressions { program: vb_program() };
    // a = b - a reads a, so gen keeps b-a although a is written
    let block = || Box::new(Block::AssignmentStmt(vb_assignment("a", vb_sub("b", "a"), 2)));
    assert_eq!(analysis.gen(block()), vb_set(vec![vb_sub("b", "a")]));
    assert_eq!(analysis.kill(block()), vb_set(vec![vb_sub("a", "b"), vb_sub("b", "a")]));
    let block = || Box::new(Block::AssignmentStmt(vb_assignment("x", vb_sub("b", "a"), 2)));
    assert!(analysis.kill(block()).is_empty());
    let test = || {
        Box::new(Block::Condition(Condition {
            exp: Box::new(BooleanExpression::GTExp(GTExp {
                left: vb_sub("a", "b"),
                right: vb_var("b"),
            })),
            label: 1,
        }))
    };
    assert_eq!(analysis.gen(test()), vb_set(vec![vb_sub("a", "b")]));
    assert!(analysis.kill(test()).is_empty());
}
