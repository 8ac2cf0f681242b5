use dataflow::abstract_syntax::{
    AddExp, ArithmeticExpression, AssignmentStmt, BooleanExpression, Condition, Expression, GTExp,
    MulExp, NumExp, SequenceStmt, Statement, VarExp, WhileStmt,
};
use dataflow::ae::AvailableExpressions;
use dataflow::fact_set::FactSet;
use dataflow::framework::{solve, Framework, LabelFacts};
use dataflow::utils::complex_expressions_stmt;

fn ae_var(name: &str) -> Box<ArithmeticExpression> {
    Box::new(ArithmeticExpression::VarExp(VarExp { name: name.to_string() }))
}

fn ae_num(value: i64) -> Box<ArithmeticExpression> {
    Box::new(ArithmeticExpression::NumExp(NumExp { value }))
}

fn ae_add(l: Box<ArithmeticExpression>, r: Box<ArithmeticExpression>) -> Box<ArithmeticExpression> {
    Box::new(ArithmeticExpression::AddExp(AddExp { left: l, right: r }))
}

fn ae_mul(l: Box<ArithmeticExpression>, r: Box<ArithmeticExpression>) -> Box<ArithmeticExpression> {
    Box::new(ArithmeticExpression::MulExp(MulExp { left: l, right: r }))
}

fn ae_assign(name: &str, exp: Box<ArithmeticExpression>, label: i64) -> Box<Statement> {
    Box::new(Statement::AssignmentStmt(AssignmentStmt {
        name: name.to_string(),
        exp: Box::new(Expression::ArithmeticExpression(exp)),
        label,
    }))
}

fn ae_seq(s1: Box<Statement>, s2: Box<Statement>) -> Box<Statement> {
    Box::new(Statement::SequenceStmt(SequenceStmt { s1, s2 }))
}

/// 1: x = a+b; 2: y = a*b; 3: while y > a+b { 4: a = a+1; 5: x = a+b }
fn ae_program() -> Box<Statement> {
    ae_seq(
        ae_assign("x", ae_add(ae_var("a"), ae_var("b")), 1),
        ae_seq(
            ae_assign("y", ae_mul(ae_var("a"), ae_var("b")), 2),
            Box::new(Statement::WhileStmt(WhileStmt {
                condition: Condition {
                    exp: Box::new(BooleanExpression::GTExp(GTExp {
                        left: ae_var("y"),
                        right: ae_add(ae_var("a"), ae_var("b")),
                    })),
                    label: 3,
                },
                stmt: ae_seq(
                    ae_assign("a", ae_add(ae_var("a"), ae_num(1)), 4),
                    ae_assign("x", ae_add(ae_var("a"), ae_var("b")), 5),
                ),
            })),
        ),
    )
}

fn ae_set(items: Vec<Box<ArithmeticExpression>>) -> FactSet<ArithmeticExpression> {
    let mut s = FactSet::new();
    for e in items {
        s.insert(*e);
    }
    s
}

fn ae_at(results: &Vec<LabelFacts<ArithmeticExpression>>, label: i64) -> &LabelFacts<ArithmeticExpression> {
    let found: Vec<&LabelFacts<ArithmeticExpression>> =
        results.iter().filter(|r| r.label == label).collect();
    assert_eq!(found.len(), 1);
    found[0]
}

#[test]
fn ae_universe_of_the_example() {
    let universe = complex_expressions_stmt(ae_program());
    let expected = ae_set(vec![
        ae_add(ae_var("a"), ae_var("b")),
        ae_mul(ae_var("a"), ae_var("b")),
        ae_add(ae_var("a"), ae_num(1)),
    ]);
    assert_eq!(universe, expected);
    assert_eq!(universe.len(), 3);
}

#[test]
fn ae_entry_sets_of_the_example() {
    let results = solve(Box::new(AvailableExpressions { program: ae_program() }));
    let a_plus_b = || ae_add(ae_var("a"), ae_var("b"));
    assert_eq!(results.len(), 5);
    assert_eq!(ae_at(&results, 1).entry, ae_set(vec![]));
    assert_eq!(ae_at(&results, 2).entry, ae_set(vec![a_plus_b()]));
    assert_eq!(ae_at(&results, 3).entry, ae_set(vec![a_plus_b()]));
    assert_eq!(ae_at(&results, 4).entry, ae_set(vec![a_plus_b()]));
    assert_eq!(ae_at(&results, 5).entry, ae_set(vec![]));
}

#[test]
fn ae_exit_sets_of_the_example() {
    let results = solve(Box::new(AvailableExpressions { program: ae_program() }));
    let a_plus_b = || ae_add(ae_var("a"), ae_var("b"));
    let a_times_b = || ae_mul(ae_var("a"), ae_var("b"));
    assert_eq!(ae_at(&results, 1).exit, ae_set(vec![a_plus_b()]));
    assert_eq!(ae_at(&results, 2).exit, ae_set(vec![a_plus_b(), a_times_b()]));
    assert_eq!(ae_at(&results, 3).exit, ae_set(vec![a_plus_b()]));
    assert_eq!(ae_at(&results, 4).exit, ae_set(vec![]));
    assert_eq!(ae_at(&results, 5).exit, ae_set(vec![a_plus_b()]));
}

#[test]
fn ae_components() {
    let analysis = AvailableExpressions { program: ae_program() };
    assert!(!analysis.is_backwards());
    assert_eq!(analysis.get_e(), vec![1]);
    assert_eq!(analysis.get_f(), vec![(4, 5), (3, 4), (5, 3), (2, 3), (1, 2)]);
    assert!(analysis.get_initial_e().is_empty());
    assert_eq!(analysis.get_initial_others(), complex_expressions_stmt(ae_program()));
    assert_eq!(*analysis.get_program(), *ae_program());
}

#[test]
fn ae_order_is_reverse_inclusion_and_join_is_intersection() {
    let analysis = AvailableExpressions { program: ae_program() };
    let a_plus_b = || ae_add(ae_var("a"), ae_var("b"));
    let a_times_b = || ae_mul(ae_var("a"), ae_var("b"));
    let both = || ae_set(vec![a_plus_b(), a_times_b()]);
    let one = || ae_set(vec![a_plus_b()]);
    assert!(analysis.set_compare(both(), one()));
    assert!(!analysis.set_compare(one(), both()));
    assert!(analysis.set_compare(one(), one()));
    assert_eq!(analysis.set_union(both(), one()), one());
    assert_eq!(analysis.set_union(one(), ae_set(vec![a_times_b()])), ae_set(vec![]));
}
