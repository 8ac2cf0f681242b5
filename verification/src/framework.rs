//! The monotone framework: what an analysis has to provide, and the worklist
//! solver that computes its least fixpoint.

use crate::abstract_syntax::{Block, Label, Program};
use crate::fact_set::{views, FactSet};
use crate::lattice::{
    join, lemma_fixpoint_is, lemma_rank_sum_insert, lemma_relax, leq, transfer, Assignment,
    Instance, PointFacts,
};
pub use crate::model::Edge;
use crate::utils::{blocks, labels};
use vstd::prelude::*;

verus! {

/// The property space: what a dataflow fact must offer to be kept in a set.
pub trait L: View + Sized {
    /// Whether two facts denote the same value.
    fn same(&self, other: &Self) -> (r: bool)
        ensures
            r == (self@ == other@),
    ;

    /// A fresh fact that denotes the same value.
    fn duplicate(&self) -> (r: Self)
        ensures
            r@ == self@,
    ;
}

impl L for String {
    fn same(&self, other: &Self) -> (r: bool) {
        *self == *other
    }

    fn duplicate(&self) -> (r: Self) {
        self.clone()
    }
}

/// An analysis over facts of type `T`. The spec function `instance` says
/// which instance of the monotone framework the analysis is; each method
/// returns the matching component of that instance.
pub trait Framework<T: L> {
    /// The analysis as an instance of the monotone framework.
    spec fn instance(&self) -> Instance<T::V>;

    /// The analysed program.
    fn get_program(&self) -> (program: Box<Program>)
        ensures
            program@ == self.instance().program,
    ;

    /// Whether facts flow against the direction of execution.
    fn is_backwards(&self) -> (b: bool)
        ensures
            b == self.instance().backwards,
    ;

    /// The flow graph to iterate on.
    fn get_f(&self) -> (f: Vec<Edge>)
        ensures
            f@ == self.instance().edges,
    ;

    /// The extremal labels.
    fn get_e(&self) -> (e: Vec<Label>)
        ensures
            e@ == self.instance().extremal,
    ;

    /// The value at the extremal labels.
    fn get_initial_e(&self) -> (facts: FactSet<T>)
        ensures
            facts@ == self.instance().extremal_value,
    ;

    /// The value every other label starts from.
    fn get_initial_others(&self) -> (facts: FactSet<T>)
        ensures
            facts@ == self.instance().initial_value,
    ;

    /// The lattice order: whether `set1` adds nothing to `set2`.
    fn set_compare(&self, set1: FactSet<T>, set2: FactSet<T>) -> (b: bool)
        ensures
            b == leq(self.instance().must, set1@, set2@),
    ;

    /// The lattice join.
    fn set_union(&self, set1: FactSet<T>, set2: FactSet<T>) -> (r: FactSet<T>)
        ensures
            r@ == join(self.instance().must, set1@, set2@),
    ;

    /// The facts `block` kills.
    fn kill(&self, block: Box<Block>) -> (facts: FactSet<T>)
        ensures
            facts@ == (self.instance().kill)(block@),
    ;

    /// The facts `block` generates.
    fn gen(&self, block: Box<Block>) -> (facts: FactSet<T>)
        ensures
            facts@ == (self.instance().gen)(block@),
    ;

    /// The transfer function of `block`: `(entry \ kill) ∪ gen`.
    fn fl(&self, block: Box<Block>, entry: FactSet<T>) -> (exit: FactSet<T>)
        ensures
            exit@ == transfer(
                (self.instance().gen)(block@),
                (self.instance().kill)(block@),
                entry@,
            ),
    {
        let mut exit = entry;
        let mut killed = self.kill(block.clone()).into_vec();
        let ghost kill_set = views(killed@).to_set();
        while killed.len() > 0
            invariant
                exit@.difference(views(killed@).to_set()) == entry@.difference(kill_set),
            decreases killed.len(),
        {
            let ghost before = views(killed@);
            let e = killed.pop().unwrap();
            proof {
                assert(views(killed@) =~= before.drop_last());
                assert(before =~= before.drop_last().push(e@));
                before.drop_last().lemma_push_to_set_commute(e@);
                assert(exit@.remove(e@).difference(views(killed@).to_set()) =~= exit@.difference(
                    before.to_set(),
                ));
            }
            exit.remove(&e);
        }
        assert(exit@ =~= entry@.difference(kill_set)) by {
            assert(views(killed@).to_set() =~= Set::<T::V>::empty());
            assert(exit@ =~= exit@.difference(Set::<T::V>::empty()));
        }
        let mut generated = self.gen(block).into_vec();
        let ghost gen_set = views(generated@).to_set();
        while generated.len() > 0
            invariant
                exit@.union(views(generated@).to_set()) == entry@.difference(kill_set).union(
                    gen_set,
                ),
            decreases generated.len(),
        {
            let ghost before = views(generated@);
            let value = generated.pop().unwrap();
            proof {
                assert(views(generated@) =~= before.drop_last());
                assert(before =~= before.drop_last().push(value@));
                before.drop_last().lemma_push_to_set_commute(value@);
                assert(exit@.insert(value@).union(views(generated@).to_set()) =~= exit@.union(
                    before.to_set(),
                ));
            }
            exit.insert(value);
        }
        assert(exit@ =~= entry@.difference(kill_set).union(gen_set)) by {
            assert(views(generated@).to_set() =~= Set::<T::V>::empty());
            assert(exit@ =~= exit@.union(Set::<T::V>::empty()));
        }
        exit
    }
}

/// The entry and exit facts the solver found for one label.
#[derive(Debug)]
pub struct LabelFacts<T: L> {
    pub label: Label,
    pub entry: FactSet<T>,
    pub exit: FactSet<T>,
}

impl<T: L> View for LabelFacts<T> {
    type V = PointFacts<T::V>;

    open spec fn view(&self) -> PointFacts<T::V> {
        PointFacts { label: self.label, entry: self.entry@, exit: self.exit@ }
    }
}

/// The assignment that gives the `i`-th label the `i`-th fact set.
pub open spec fn assignment<T: L>(labels: Seq<Label>, values: Seq<FactSet<T>>) -> Assignment<T::V> {
    Map::new(|l: Label| labels.contains(l), |l: Label| values[labels.index_of(l)]@)
}

/// In a sequence without repetition an element is found where it stands.
pub proof fn lemma_index_of(labels: Seq<Label>, i: int)
    requires
        labels.no_duplicates(),
        0 <= i < labels.len(),
    ensures
        labels.contains(labels[i]),
        labels.index_of(labels[i]) == i,
{
    let k = labels.index_of(labels[i]);
    assert(0 <= k < labels.len() && labels[k] == labels[i]);
}

/// Replacing the `i`-th fact set replaces the value of the `i`-th label.
pub proof fn lemma_assignment_update<T: L>(
    labels: Seq<Label>,
    values: Seq<FactSet<T>>,
    i: int,
    facts: FactSet<T>,
)
    requires
        labels.no_duplicates(),
        values.len() == labels.len(),
        0 <= i < labels.len(),
    ensures
        assignment(labels, values.update(i, facts)) == assignment(labels, values).insert(
            labels[i],
            facts@,
        ),
{
    let updated = assignment(labels, values.update(i, facts));
    let inserted = assignment(labels, values).insert(labels[i], facts@);
    lemma_index_of(labels, i);
    assert forall|l: Label| updated.dom().contains(l) implies updated[l] == inserted[l] by {
        let k = labels.index_of(l);
        assert(0 <= k < labels.len() && labels[k] == l);
    }
    assert(updated =~= inserted);
}

/// Where `l` stands in `labels`.
fn position(labels: &Vec<Label>, l: Label) -> (i: usize)
    requires
        labels@.contains(l),
    ensures
        i < labels.len(),
        labels[i as int] == l,
{
    let mut i: usize = 0;
    while i < labels.len()
        invariant
            i <= labels.len(),
            forall|k: int| 0 <= k < i ==> labels[k] != l,
        decreases labels.len() - i,
    {
        if labels[i] == l {
            return i;
        }
        i = i + 1;
    }
    proof {
        let k = choose|k: int| 0 <= k < labels.len() && labels[k] == l;
        assert(labels[k] != l);
    }
    0
}

/// Whether `l` occurs in `labels`.
fn member(labels: &Vec<Label>, l: Label) -> (b: bool)
    ensures
        b == labels@.contains(l),
{
    let mut i: usize = 0;
    while i < labels.len()
        invariant
            i <= labels.len(),
            forall|k: int| 0 <= k < i ==> labels[k] != l,
        decreases labels.len() - i,
    {
        if labels[i] == l {
            return true;
        }
        i = i + 1;
    }
    false
}

/// Puts every edge of `f` that leaves `source` on the worklist.
fn push_successors(w: &mut Vec<Edge>, f: &Vec<Edge>, source: Label)
    ensures
        forall|d: Edge| old(w)@.contains(d) ==> final(w)@.contains(d),
        forall|d: Edge| f@.contains(d) && d.0 == source ==> final(w)@.contains(d),
        forall|d: Edge| final(w)@.contains(d) ==> old(w)@.contains(d) || f@.contains(d),
{
    let mut k: usize = 0;
    while k < f.len()
        invariant
            k <= f.len(),
            forall|d: Edge| old(w)@.contains(d) ==> w@.contains(d),
            forall|j: int| 0 <= j < k && f[j].0 == source ==> w@.contains(f[j]),
            forall|d: Edge| w@.contains(d) ==> old(w)@.contains(d) || f@.contains(d),
        decreases f.len() - k,
    {
        let (from, to) = f[k];
        if from == source {
            let ghost before = w@;
            w.push((source, to));
            proof {
                assert(w@.last() == f[k as int]);
                assert forall|d: Edge| before.contains(d) implies w@.contains(d) by {
                    let j = choose|j: int| 0 <= j < before.len() && before[j] == d;
                    assert(w@[j] == d);
                }
                assert forall|d: Edge| w@.contains(d) implies old(w)@.contains(d) || f@.contains(
                    d,
                ) by {
                    let j = choose|j: int| 0 <= j < w@.len() && w@[j] == d;
                    if j < before.len() {
                        assert(before[j] == d);
                    }
                }
            }
        }
        k = k + 1;
    }
}

/// Solves the equations of `framework` by chaotic iteration over a worklist
/// of edges, and returns the entry and exit facts of every label, in the
/// textual order of the labels.
///
/// The result is the report of the least solution of the instance: the
/// solution is stable on every edge, holds the seed of every label, and lies
/// below every other solution.
pub fn solve<T: L>(framework: Box<dyn Framework<T>>) -> (results: Vec<LabelFacts<T>>)
    requires
        framework.instance().well_formed(),
    ensures
        framework.instance().least_solution(framework.instance().fixpoint()),
        views(results@) == framework.instance().report(framework.instance().fixpoint()),
        results.len() == framework.instance().labels().len(),
        // The fixpoint: what leaves the source of an edge adds nothing at its
        // target.
        forall|e: Edge| #[trigger]
            framework.instance().edges.contains(e) ==> leq(
                framework.instance().must,
                framework.instance().apply(e.0, framework.instance().fixpoint()[e.0]),
                framework.instance().fixpoint()[e.1],
            ),
        // The extremal value is held at every extremal label.
        forall|l: Label| #[trigger]
            framework.instance().extremal.contains(l) ==> leq(
                framework.instance().must,
                framework.instance().extremal_value,
                framework.instance().fixpoint()[l],
            ),
{
    let ghost p = framework.instance();
    // Initialization
    let program = framework.get_program();
    let f = framework.get_f();
    let e = framework.get_e();
    let initial_e = framework.get_initial_e();
    let initial_others = framework.get_initial_others();
    let blocks_map = blocks(program.clone());
    let program_labels = labels(program);

    let mut w: Vec<Edge> = Vec::new();
    let mut k: usize = 0;
    while k < f.len()
        invariant
            k <= f.len(),
            w@ == f@.take(k as int),
        decreases f.len() - k,
    {
        w.push(f[k]);
        assert(w@ =~= f@.take(k + 1));
        k = k + 1;
    }
    assert(w@ =~= f@);

    let mut analysis: Vec<FactSet<T>> = Vec::new();
    let mut k: usize = 0;
    while k < program_labels.len()
        invariant
            k <= program_labels.len(),
            analysis.len() == k,
            e@ == p.extremal,
            initial_e@ == p.extremal_value,
            initial_others@ == p.initial_value,
            forall|j: int| 0 <= j < k ==> analysis[j]@ == p.seed(program_labels[j]),
        decreases program_labels.len() - k,
    {
        if member(&e, program_labels[k]) {
            analysis.push(initial_e.clone());
        } else {
            analysis.push(initial_others.clone());
        }
        k = k + 1;
    }
    proof {
        let a = assignment(program_labels@, analysis@);
        assert(a.dom() =~= p.labels().to_set());
        assert forall|l: Label| #[trigger] p.labels().contains(l) implies a[l] == p.seed(l) by {
            let j = p.labels().index_of(l);
            assert(0 <= j < p.labels().len() && p.labels()[j] == l);
        }
        assert forall|b: Assignment<T::V>| #[trigger] p.solution(b) implies p.below(a, b) by {
            assert forall|l: Label| #[trigger] p.labels().contains(l) implies leq(
                p.must,
                a[l],
                b[l],
            ) by {}
        }
    }

    // Iteration
    while w.len() > 0
        invariant
            p == framework.instance(),
            p.well_formed(),
            program_labels@ == p.labels(),
            views(blocks_map@) == p.program.blocks(),
            f@ == p.edges,
            analysis.len() == program_labels.len(),
            p.covers(assignment(program_labels@, analysis@)),
            p.bounded(assignment(program_labels@, analysis@)),
            p.seeded(assignment(program_labels@, analysis@)),
            forall|b: Assignment<T::V>| #[trigger]
                p.solution(b) ==> p.below(assignment(program_labels@, analysis@), b),
            forall|d: Edge| w@.contains(d) ==> f@.contains(d),
            forall|d: Edge|
                f@.contains(d) ==> w@.contains(d) || p.stable_on(
                    assignment(program_labels@, analysis@),
                    d,
                ),
        decreases p.rank_sum(assignment(program_labels@, analysis@), p.labels()), w.len(),
    {
        let ghost a = assignment(program_labels@, analysis@);
        let ghost w_before = w@;
        let (l1, l2) = w.pop().unwrap();
        proof {
            assert(w_before.contains((l1, l2))) by {
                assert(w_before[w_before.len() - 1] == (l1, l2));
            }
            assert(p.edges.contains((l1, l2)));
            assert forall|d: Edge| w_before.contains(d) && d != (l1, l2) implies w@.contains(
                d,
            ) by {
                let j = choose|j: int| 0 <= j < w_before.len() && w_before[j] == d;
                assert(w@[j] == d);
            }
            assert forall|d: Edge| w@.contains(d) implies w_before.contains(d) by {
                let j = choose|j: int| 0 <= j < w@.len() && w@[j] == d;
                assert(w_before[j] == d);
            }
        }
        let i1 = position(&program_labels, l1);
        let i2 = position(&program_labels, l2);
        proof {
            lemma_index_of(p.labels(), i1 as int);
            lemma_index_of(p.labels(), i2 as int);
            assert(views(blocks_map@)[i1 as int] == blocks_map[i1 as int]@);
            assert(p.block(l1) == blocks_map[i1 as int]@);
            assert(a[l1] == analysis[i1 as int]@);
            assert(a[l2] == analysis[i2 as int]@);
        }
        let exit = framework.fl(blocks_map[i1].clone(), analysis[i1].clone());
        let entry = analysis[i2].clone();
        assert(exit@ == p.apply(l1, a[l1]));

        if !framework.set_compare(exit.clone(), entry.clone()) {
            let joined = framework.set_union(entry, exit);
            proof {
                lemma_relax(p, a, (l1, l2));
                lemma_assignment_update(program_labels@, analysis@, i2 as int, joined);
                lemma_rank_sum_insert(p, a, p.labels(), l2, joined@);
            }
            analysis.set(i2, joined);
            assert(assignment(program_labels@, analysis@) == p.relaxed(a, (l1, l2)));
            let ghost w_popped = w@;
            push_successors(&mut w, &f, l2);
            proof {
                let next = p.relaxed(a, (l1, l2));
                assert forall|d: Edge| f@.contains(d) implies w@.contains(d) || p.stable_on(
                    next,
                    d,
                ) by {
                    if d.0 != l2 {
                        if d == (l1, l2) {
                            assert(p.stable_on(next, d));
                        } else if w_before.contains(d) {
                            assert(w_popped.contains(d));
                        } else {
                            assert(p.stable_on(a, d));
                            assert(p.stable_on(next, d));
                        }
                    }
                }
                assert forall|b: Assignment<T::V>| #[trigger] p.solution(b) implies p.below(
                    next,
                    b,
                ) by {
                    assert(p.below(a, b));
                }
            }
        } else {
            assert(p.stable_on(a, (l1, l2)));
        }
    }

    // Present result
    let ghost a = assignment(program_labels@, analysis@);
    proof {
        assert(p.stable(a));
        assert(p.least_solution(a));
        lemma_fixpoint_is(p, a);
        assert forall|e: Edge| #[trigger] p.edges.contains(e) implies leq(
            p.must,
            p.apply(e.0, a[e.0]),
            a[e.1],
        ) by {
            assert(p.stable_on(a, e));
        }
        assert forall|l: Label| #[trigger] p.extremal.contains(l) implies leq(
            p.must,
            p.extremal_value,
            a[l],
        ) by {
            assert(p.labels().contains(l));
            assert(p.seed(l) == p.extremal_value);
        }
    }
    let backwards = framework.is_backwards();
    let mut results: Vec<LabelFacts<T>> = Vec::new();
    let mut k: usize = 0;
    while k < program_labels.len()
        invariant
            k <= program_labels.len(),
            p == framework.instance(),
            p.well_formed(),
            backwards == p.backwards,
            program_labels@ == p.labels(),
            views(blocks_map@) == p.program.blocks(),
            analysis.len() == program_labels.len(),
            a == assignment(program_labels@, analysis@),
            results.len() == k,
            forall|j: int|
                0 <= j < k ==> (#[trigger] results[j])@ == (PointFacts {
                    label: program_labels[j],
                    entry: p.entry(a, program_labels[j]),
                    exit: p.exit(a, program_labels[j]),
                }),
        decreases program_labels.len() - k,
    {
        let label = program_labels[k];
        proof {
            lemma_index_of(p.labels(), k as int);
            assert(views(blocks_map@)[k as int] == blocks_map[k as int]@);
            assert(p.block(label) == blocks_map[k as int]@);
            assert(a[label] == analysis[k as int]@);
        }
        let result = analysis[k].clone();
        let transferred = framework.fl(blocks_map[k].clone(), analysis[k].clone());
        if !backwards {
            results.push(LabelFacts { label, entry: result, exit: transferred });
        } else {
            results.push(LabelFacts { label, entry: transferred, exit: result });
        }
        k = k + 1;
    }
    assert(views(results@) =~= p.report(a));
    results
}

} // verus!
