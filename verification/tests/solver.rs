use dataflow::abstract_syntax::{
    AddExp, ArithmeticExpression, AssignmentStmt, Block, BooleanExpression, Condition, Expression,
    GTExp, MulExp, NumExp, Program, SequenceStmt, SkipStmt, Statement, SubExp, VarExp, WhileStmt,
};
use dataflow::ae::AvailableExpressions;
use dataflow::fact_set::FactSet;
use dataflow::framework::{solve, Framework, LabelFacts, L};
use dataflow::lattice::Instance;
use dataflow::lv::LiveVariables;
use dataflow::model::Ident;
use dataflow::rd::ReachingDefinition;
use dataflow::utils::{blocks, label};
use dataflow::vb::VeryBusyExpressions;

/// Live variables with the edges handed out in the opposite order.
struct Reordered {
    inner: LiveVariables,
}

impl Framework<String> for Reordered {
    fn instance(&self) -> Instance<Ident> {
        unreachable!()
    }

    fn get_program(&self) -> Box<Program> {
        self.inner.get_program()
    }

    fn is_backwards(&self) -> bool {
        self.inner.is_backwards()
    }

    fn get_f(&self) -> Vec<(i64, i64)> {
        let mut f = self.inner.get_f();
        f.reverse();
        f
    }

    fn get_e(&self) -> Vec<i64> {
        self.inner.get_e()
    }

    fn get_initial_e(&self) -> FactSet<String> {
        self.inner.get_initial_e()
    }

    fn get_initial_others(&self) -> FactSet<String> {
        self.inner.get_initial_others()
    }

    fn set_compare(&self, set1: FactSet<String>, set2: FactSet<String>) -> bool {
        self.inner.set_compare(set1, set2)
    }

    fn set_union(&self, set1: FactSet<String>, set2: FactSet<String>) -> FactSet<String> {
        self.inner.set_union(set1, set2)
    }

    fn kill(&self, block: Box<Block>) -> FactSet<String> {
        self.inner.kill(block)
    }

    fn gen(&self, block: Box<Block>) -> FactSet<String> {
        self.inner.gen(block)
    }
}

/// Live variables with the same equations, reported as a forward analysis.
struct Forward {
    inner: LiveVariables,
}

impl Framework<String> for Forward {
    fn instance(&self) -> Instance<Ident> {
        unreachable!()
    }

    fn get_program(&self) -> Box<Program> {
        self.inner.get_program()
    }

    fn is_backwards(&self) -> bool {
        false
    }

    fn get_f(&self) -> Vec<(i64, i64)> {
        self.inner.get_f()
    }

    fn get_e(&self) -> Vec<i64> {
        self.inner.get_e()
    }

    fn get_initial_e(&self) -> FactSet<String> {
        self.inner.get_initial_e()
    }

    fn get_initial_others(&self) -> FactSet<String> {
        self.inner.get_initial_others()
    }

    fn set_compare(&self, set1: FactSet<String>, set2: FactSet<String>) -> bool {
        self.inner.set_compare(set1, set2)
    }

    fn set_union(&self, set1: FactSet<String>, set2: FactSet<String>) -> FactSet<String> {
        self.inner.set_union(set1, set2)
    }

    fn kill(&self, block: Box<Block>) -> FactSet<String> {
        self.inner.kill(block)
    }

    fn gen(&self, block: Box<Block>) -> FactSet<String> {
        self.inner.gen(block)
    }
}

fn sv_var(name: &str) -> Box<ArithmeticExpression> {
    Box::new(ArithmeticExpression::VarExp(VarExp { name: name.to_string() }))
}

fn sv_num(value: i64) -> Box<ArithmeticExpression> {
    Box::new(ArithmeticExpression::NumExp(NumExp { value }))
}

fn sv_add(l: Box<ArithmeticExpression>, r: Box<ArithmeticExpression>) -> Box<ArithmeticExpression> {
    Box::new(ArithmeticExpression::AddExp(AddExp { left: l, right: r }))
}

fn sv_assign(name: &str, exp: Box<ArithmeticExpression>, label: i64) -> Box<Statement> {
    Box::new(Statement::AssignmentStmt(AssignmentStmt {
        name: name.to_string(),
        exp: Box::new(Expression::ArithmeticExpression(exp)),
        label,
    }))
}

fn sv_seq(s1: Box<Statement>, s2: Box<Statement>) -> Box<Statement> {
    Box::new(Statement::SequenceStmt(SequenceStmt { s1, s2 }))
}

/// 1: x = 5; 2: y = 1; 3: while x > 1 { 4: y = x*y; 5: x = x-1 }; 6: skip; 7: z = y + x
fn sv_program() -> Box<Statement> {
    sv_seq(
        sv_assign("x", sv_num(5), 1),
        sv_seq(
            sv_assign("y", sv_num(1), 2),
            sv_seq(
                Box::new(Statement::WhileStmt(WhileStmt {
                    condition: Condition {
                        exp: Box::new(BooleanExpression::GTExp(GTExp {
                            left: sv_var("x"),
                            right: sv_num(1),
                        })),
                        label: 3,
                    },
                    stmt: sv_seq(
                        sv_assign(
                            "y",
                            Box::new(ArithmeticExpression::MulExp(MulExp {
                                left: sv_var("x"),
                                right: sv_var("y"),
                            })),
                            4,
                        ),
                        sv_assign(
                            "x",
                            Box::new(ArithmeticExpression::SubExp(SubExp {
                                left: sv_var("x"),
                                right: sv_num(1),
                            })),
                            5,
                        ),
                    ),
                })),
                sv_seq(
                    Box::new(Statement::SkipStmt(SkipStmt { label: 6 })),
                    sv_assign("z", sv_add(sv_var("y"), sv_var("x")), 7),
                ),
            ),
        ),
    )
}

fn sv_block(program: &Box<Statement>, l: i64) -> Box<Block> {
    let found: Vec<Box<Block>> =
        blocks(program.clone()).into_iter().filter(|b| label(b.clone()) == l).collect();
    assert_eq!(found.len(), 1);
    found[0].clone()
}

/// The value the solver iterated on at `l`: the entry of a forward analysis,
/// the exit of a backward one.
fn sv_value<T: L>(backwards: bool, results: &Vec<LabelFacts<T>>, l: i64) -> FactSet<T> {
    let found: Vec<&LabelFacts<T>> = results.iter().filter(|r| r.label == l).collect();
    assert_eq!(found.len(), 1);
    if backwards {
        found[0].exit.clone()
    } else {
        found[0].entry.clone()
    }
}

/// Checks on a finished run what holds of every fixpoint: every edge is
/// stable, the extremal labels hold the extremal value, and the other side of
/// each label is the transferred value.
fn sv_check_fixpoint<T: L + std::fmt::Debug>(
    analysis: &dyn Framework<T>,
    results: &Vec<LabelFacts<T>>,
) {
    let backwards = analysis.is_backwards();
    let program = analysis.get_program();
    for (l1, l2) in analysis.get_f() {
        let out = analysis.fl(sv_block(&program, l1), sv_value(backwards, results, l1));
        assert!(analysis.set_compare(out, sv_value(backwards, results, l2)));
    }
    for l in analysis.get_e() {
        assert!(analysis.set_compare(analysis.get_initial_e(), sv_value(backwards, results, l)));
    }
    for r in results {
        let value = sv_value(backwards, results, r.label);
        let other = analysis.fl(sv_block(&program, r.label), value);
        if backwards {
            assert_eq!(r.entry, other);
        } else {
            assert_eq!(r.exit, other);
        }
    }
}

fn sv_same<T: L + std::fmt::Debug>(a: &Vec<LabelFacts<T>>, b: &Vec<LabelFacts<T>>) {
    assert_eq!(a.len(), b.len());
    for i in 0..a.len() {
        assert_eq!(a[i].label, b[i].label);
        assert_eq!(a[i].entry, b[i].entry);
        assert_eq!(a[i].exit, b[i].exit);
    }
}

#[test]
fn lone_assignment_keeps_its_initial_value() {
    // 1: x = a + b
    let program = || sv_assign("x", sv_add(sv_var("a"), sv_var("b")), 1);
    let a_plus_b = || {
        let mut s = FactSet::new();
        s.insert(*sv_add(sv_var("a"), sv_var("b")));
        s
    };
    let results = solve(Box::new(AvailableExpressions { program: program() }));
    assert_eq!(results.len(), 1);
    assert_eq!(results[0].label, 1);
    assert!(results[0].entry.is_empty());
    assert_eq!(results[0].exit, a_plus_b());

    let results = solve(Box::new(VeryBusyExpressions { program: program() }));
    assert_eq!(results.len(), 1);
    assert!(results[0].exit.is_empty());
    assert_eq!(results[0].entry, a_plus_b());

    let results = solve(Box::new(LiveVariables { program: program() }));
    assert_eq!(results.len(), 1);
    assert!(results[0].exit.is_empty());
    assert_eq!(results[0].entry.len(), 2);

    let results = solve(Box::new(ReachingDefinition { program: program() }));
    assert_eq!(results.len(), 1);
    assert_eq!(results[0].entry.len(), 2);
    assert_eq!(results[0].exit.len(), 3);
}

#[test]
fn lone_skip_is_an_identity() {
    let program = Box::new(Statement::SkipStmt(SkipStmt { label: 4 }));
    let results = solve(Box::new(LiveVariables { program }));
    assert_eq!(results.len(), 1);
    assert_eq!(results[0].label, 4);
    assert!(results[0].entry.is_empty());
    assert!(results[0].exit.is_empty());
}

#[test]
fn results_come_in_the_order_of_the_labels() {
    let results = solve(Box::new(LiveVariables { program: sv_program() }));
    let got: Vec<i64> = results.iter().map(|r| r.label).collect();
    assert_eq!(got, vec![1, 2, 3, 4, 5, 6, 7]);
}

#[test]
fn every_edge_is_stable_at_the_fixpoint() {
    let analysis = AvailableExpressions { program: sv_program() };
    let results = solve(Box::new(AvailableExpressions { program: sv_program() }));
    sv_check_fixpoint(&analysis, &results);

    let analysis = ReachingDefinition { program: sv_program() };
    let results = solve(Box::new(ReachingDefinition { program: sv_program() }));
    sv_check_fixpoint(&analysis, &results);

    let analysis = VeryBusyExpressions { program: sv_program() };
    let results = solve(Box::new(VeryBusyExpressions { program: sv_program() }));
    sv_check_fixpoint(&analysis, &results);

    let analysis = LiveVariables { program: sv_program() };
    let results = solve(Box::new(LiveVariables { program: sv_program() }));
    sv_check_fixpoint(&analysis, &results);
}

#[test]
fn extremal_labels_hold_the_extremal_value() {
    let results = solve(Box::new(ReachingDefinition { program: sv_program() }));
    let analysis = ReachingDefinition { program: sv_program() };
    let seed = analysis.get_initial_e();
    assert_eq!(seed.len(), 2);
    assert!(seed.is_subset(&sv_value(false, &results, 1)));
    // the entry label has no predecessor, so it holds nothing more
    assert_eq!(sv_value(false, &results, 1), seed);
}

#[test]
fn transfer_is_monotone_in_both_lattices() {
    let set = |items: Vec<&str>| {
        let mut s = FactSet::new();
        for n in items {
            s.insert(n.to_string());
        }
        s
    };
    // may: a below b means a is included in b
    let analysis = LiveVariables { program: sv_program() };
    for l in 1..8 {
        let small = || set(vec!["x"]);
        let big = || set(vec!["x", "y", "z"]);
        assert!(analysis.set_compare(small(), big()));
        let block = || sv_block(&sv_program(), l);
        assert!(analysis.set_compare(analysis.fl(block(), small()), analysis.fl(block(), big())));
    }
    // must: a below b means b is included in a
    let exprs = |items: Vec<Box<ArithmeticExpression>>| {
        let mut s = FactSet::new();
        for e in items {
            s.insert(*e);
        }
        s
    };
    let analysis = AvailableExpressions { program: sv_program() };
    for l in 1..8 {
        let low = || exprs(vec![sv_add(sv_var("y"), sv_var("x")), sv_add(sv_var("q"), sv_num(1))]);
        let high = || exprs(vec![sv_add(sv_var("q"), sv_num(1))]);
        assert!(analysis.set_compare(low(), high()));
        let block = || sv_block(&sv_program(), l);
        assert!(analysis.set_compare(analysis.fl(block(), low()), analysis.fl(block(), high())));
    }
}

#[test]
fn solving_twice_gives_the_same_result() {
    let first = solve(Box::new(ReachingDefinition { program: sv_program() }));
    let second = solve(Box::new(ReachingDefinition { program: sv_program() }));
    sv_same(&first, &second);
    let first = solve(Box::new(AvailableExpressions { program: sv_program() }));
    let second = solve(Box::new(AvailableExpressions { program: sv_program() }));
    sv_same(&first, &second);
}

#[test]
fn edge_order_does_not_change_the_result() {
    let plain = LiveVariables { program: sv_program() };
    let turned = Reordered { inner: LiveVariables { program: sv_program() } };
    let mut expected = plain.get_f();
    expected.reverse();
    assert_eq!(turned.get_f(), expected);
    assert_ne!(turned.get_f(), plain.get_f());
    let first = solve(Box::new(plain));
    let second = solve(Box::new(turned));
    sv_same(&first, &second);
}

#[test]
fn direction_only_names_the_two_sides() {
    let backward = solve(Box::new(LiveVariables { program: sv_program() }));
    let forward = solve(Box::new(Forward { inner: LiveVariables { program: sv_program() } }));
    assert_eq!(backward.len(), forward.len());
    for i in 0..backward.len() {
        assert_eq!(backward[i].label, forward[i].label);
        assert_eq!(backward[i].exit, forward[i].entry);
        assert_eq!(backward[i].entry, forward[i].exit);
    }
}

#[test]
fn live_variables_of_the_longer_example() {
    let results = solve(Box::new(LiveVariables { program: sv_program() }));
    let set = |items: Vec<&str>| {
        let mut s = FactSet::new();
        for n in items {
            s.insert(n.to_string());
        }
        s
    };
    assert_eq!(sv_value(true, &results, 7), set(vec![]));
    assert_eq!(sv_value(true, &results, 6), set(vec!["x", "y"]));
    assert_eq!(sv_value(true, &results, 3), set(vec!["x", "y"]));
    assert_eq!(sv_value(true, &results, 4), set(vec!["x", "y"]));
    assert_eq!(sv_value(true, &results, 5), set(vec!["x", "y"]));
    assert_eq!(sv_value(true, &results, 2), set(vec!["x", "y"]));
    assert_eq!(sv_value(true, &results, 1), set(vec!["x"]));
    assert_eq!(results[0].entry, set(vec![]));
}
