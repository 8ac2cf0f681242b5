use dataflow::abstract_syntax::{
    AddExp, ArithmeticExpression, AssignmentStmt, Block, BooleanExpression, CTrue, Condition,
    Expression, GTExp, IfElseStmt, NumExp, SequenceStmt, SkipStmt, Statement, VarExp, WhileStmt,
};
use dataflow::utils::{assignments, blocks, finals, flow, flow_r, init, label, labels};

fn sx_var(name: &str) -> Box<ArithmeticExpression> {
    Box::new(ArithmeticExpression::VarExp(VarExp { name: name.to_string() }))
}

fn sx_num(value: i64) -> Box<ArithmeticExpression> {
    Box::new(ArithmeticExpression::NumExp(NumExp { value }))
}

fn sx_add(
    left: Box<ArithmeticExpression>,
    right: Box<ArithmeticExpression>,
) -> Box<ArithmeticExpression> {
    Box::new(ArithmeticExpression::AddExp(AddExp { left, right }))
}

fn sx_assign(name: &str, exp: Box<ArithmeticExpression>, label: i64) -> Box<Statement> {
    Box::new(Statement::AssignmentStmt(AssignmentStmt {
        name: name.to_string(),
        exp: Box::new(Expression::ArithmeticExpression(exp)),
        label,
    }))
}

fn sx_skip(label: i64) -> Box<Statement> {
    Box::new(Statement::SkipStmt(SkipStmt { label }))
}

fn sx_seq(s1: Box<Statement>, s2: Box<Statement>) -> Box<Statement> {
    Box::new(Statement::SequenceStmt(SequenceStmt { s1, s2 }))
}

fn sx_true(label: i64) -> Condition {
    Condition { exp: Box::new(BooleanExpression::CTrue(CTrue {})), label }
}

fn sx_while(condition: Condition, stmt: Box<Statement>) -> Box<Statement> {
    Box::new(Statement::WhileStmt(WhileStmt { condition, stmt }))
}

fn sx_if(condition: Condition, t: Box<Statement>, e: Box<Statement>) -> Box<Statement> {
    Box::new(Statement::IfElseStmt(IfElseStmt { condition, then_stmt: t, else_stmt: e }))
}

/// 1: while true { 2: x = 3 + y; 3: skip }; 4: if true { 5: x = z } else { 6: x = k }
fn sx_loop_then_branch() -> Box<Statement> {
    sx_seq(
        sx_while(
            sx_true(1),
            sx_seq(sx_assign("x", sx_add(sx_num(3), sx_var("y")), 2), sx_skip(3)),
        ),
        sx_if(sx_true(4), sx_assign("x", sx_var("z"), 5), sx_assign("x", sx_var("k"), 6)),
    )
}

fn sx_sorted(mut edges: Vec<(i64, i64)>) -> Vec<(i64, i64)> {
    edges.sort();
    edges
}

#[test]
fn blocks_come_in_textual_order() {
    let all = blocks(sx_loop_then_branch());
    let got: Vec<i64> = all.iter().map(|b| label(b.clone())).collect();
    assert_eq!(got, vec![1, 2, 3, 4, 5, 6]);
    assert!(matches!(*all[0], Block::Condition(_)));
    assert!(matches!(*all[1], Block::AssignmentStmt(_)));
    assert!(matches!(*all[2], Block::SkipStmt(_)));
    assert!(matches!(*all[3], Block::Condition(_)));
    assert!(matches!(*all[4], Block::AssignmentStmt(_)));
    assert!(matches!(*all[5], Block::AssignmentStmt(_)));
}

#[test]
fn labels_are_the_labels_of_the_blocks() {
    assert_eq!(labels(sx_loop_then_branch()), vec![1, 2, 3, 4, 5, 6]);
}

#[test]
fn label_of_each_block_kind() {
    assert_eq!(label(Box::new(Block::SkipStmt(SkipStmt { label: 9 }))), 9);
    assert_eq!(label(Box::new(Block::Condition(sx_true(-4)))), -4);
    assert_eq!(
        label(Box::new(Block::AssignmentStmt(AssignmentStmt {
            name: "x".to_string(),
            exp: Box::new(Expression::ArithmeticExpression(sx_num(0))),
            label: 12,
        }))),
        12
    );
}

#[test]
fn assignments_skip_tests_and_skips() {
    let got: Vec<(String, i64)> =
        assignments(sx_loop_then_branch()).into_iter().map(|a| (a.name, a.label)).collect();
    assert_eq!(
        got,
        vec![("x".to_string(), 2), ("x".to_string(), 5), ("x".to_string(), 6)]
    );
}

#[test]
fn init_of_each_form() {
    assert_eq!(init(sx_skip(3)), 3);
    assert_eq!(init(sx_assign("x", sx_num(1), 8)), 8);
    assert_eq!(init(sx_seq(sx_skip(3), sx_skip(4))), 3);
    assert_eq!(init(sx_if(sx_true(7), sx_skip(8), sx_skip(9))), 7);
    assert_eq!(init(sx_while(sx_true(5), sx_skip(6))), 5);
    assert_eq!(init(sx_loop_then_branch()), 1);
}

#[test]
fn finals_of_each_form() {
    assert_eq!(finals(sx_skip(3)), vec![3]);
    assert_eq!(finals(sx_assign("x", sx_num(1), 8)), vec![8]);
    assert_eq!(finals(sx_seq(sx_skip(3), sx_skip(4))), vec![4]);
    assert_eq!(finals(sx_if(sx_true(7), sx_skip(8), sx_skip(9))), vec![8, 9]);
    assert_eq!(finals(sx_while(sx_true(5), sx_skip(6))), vec![5]);
    assert_eq!(finals(sx_loop_then_branch()), vec![5, 6]);
}

#[test]
fn atomic_statements_have_no_edges() {
    assert!(flow(sx_skip(1)).is_empty());
    assert!(flow(sx_assign("x", sx_num(1), 1)).is_empty());
    assert!(flow_r(sx_skip(1)).is_empty());
}

#[test]
fn flow_of_loop_then_branch() {
    assert_eq!(
        sx_sorted(flow(sx_loop_then_branch())),
        vec![(1, 2), (1, 4), (2, 3), (3, 1), (4, 5), (4, 6)]
    );
}

#[test]
fn flow_keeps_the_edges_inside_branches() {
    // 1: if true { 2: skip; 3: skip } else { 4: while true { 5: skip } }
    let s = sx_if(
        sx_true(1),
        sx_seq(sx_skip(2), sx_skip(3)),
        sx_while(sx_true(4), sx_skip(5)),
    );
    assert_eq!(
        sx_sorted(flow(s.clone())),
        vec![(1, 2), (1, 4), (2, 3), (4, 5), (5, 4)]
    );
    assert_eq!(finals(s), vec![3, 4]);
}

#[test]
fn flow_lists_edges_part_by_part() {
    assert_eq!(
        flow(sx_loop_then_branch()),
        vec![(2, 3), (1, 2), (3, 1), (4, 5), (4, 6), (1, 4)]
    );
}

#[test]
fn flow_r_swaps_every_edge() {
    let forward = flow(sx_loop_then_branch());
    let backward = flow_r(sx_loop_then_branch());
    assert_eq!(backward.len(), forward.len());
    for (i, (from, to)) in forward.iter().enumerate() {
        assert_eq!(backward[i], (*to, *from));
    }
}

#[test]
fn sequence_links_every_exit_to_the_next_entry() {
    let s1 = sx_if(sx_true(1), sx_skip(2), sx_skip(3));
    let s2 = sx_while(sx_true(4), sx_skip(5));
    let edges = flow(sx_seq(s1.clone(), s2.clone()));
    for l in finals(s1) {
        assert!(edges.contains(&(l, init(s2.clone()))));
    }
    assert!(edges.contains(&(2, 4)));
    assert!(edges.contains(&(3, 4)));
}

#[test]
fn lone_while_has_no_fall_through() {
    let w = sx_while(sx_true(1), sx_seq(sx_skip(2), sx_skip(3)));
    assert_eq!(init(w.clone()), 1);
    assert_eq!(finals(w.clone()), vec![1]);
    assert_eq!(sx_sorted(flow(w)), vec![(1, 2), (2, 3), (3, 1)]);
}

#[test]
fn while_in_a_sequence_leaves_through_its_test() {
    let w = sx_while(sx_true(1), sx_skip(2));
    let s = sx_seq(w, sx_skip(3));
    assert_eq!(init(s.clone()), 1);
    assert_eq!(sx_sorted(flow(s)), vec![(1, 2), (1, 3), (2, 1)]);
}

#[test]
fn relational_test_is_a_block() {
    let c = Condition {
        exp: Box::new(BooleanExpression::GTExp(GTExp { left: sx_var("y"), right: sx_var("x") })),
        label: 4,
    };
    let s = sx_if(c, sx_skip(5), sx_skip(6));
    assert_eq!(labels(s), vec![4, 5, 6]);
}

#[test]
fn clone_gives_an_equal_tree() {
    let s = sx_loop_then_branch();
    assert_eq!(s.clone(), s);
}
