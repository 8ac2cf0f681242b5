//! The property space of the analyses and the equations they solve: the two
//! set lattices, gen/kill transfer functions, instances of the monotone
//! framework and their least solutions.

use crate::abstract_syntax::Label;
use crate::model::{Edge, Elem, Stmt};
use vstd::prelude::*;

verus! {

/// The lattice order. In a may analysis (`must` false) it is inclusion; in a
/// must analysis it is reverse inclusion. `leq(must, a, b)` says that `a`
/// adds nothing to `b`.
pub open spec fn leq<V>(must: bool, a: Set<V>, b: Set<V>) -> bool {
    if must {
        b.subset_of(a)
    } else {
        a.subset_of(b)
    }
}

/// The lattice join: union in a may analysis, intersection in a must analysis.
pub open spec fn join<V>(must: bool, a: Set<V>, b: Set<V>) -> Set<V> {
    if must {
        a.intersect(b)
    } else {
        a.union(b)
    }
}

/// The transfer function of a block: `(entry \ kill) ∪ gen`.
pub open spec fn transfer<V>(gen: Set<V>, kill: Set<V>, entry: Set<V>) -> Set<V> {
    entry.difference(kill).union(gen)
}

/// An assignment of a fact set to each label.
pub type Assignment<V> = Map<Label, Set<V>>;

/// An instance of the monotone framework over facts of type `V`.
#[verifier::reject_recursive_types(V)]
pub struct Instance<V> {
    /// The analysed program.
    pub program: Stmt,
    /// Whether facts flow against the direction of execution.
    pub backwards: bool,
    /// The edges along which facts flow.
    pub edges: Seq<Edge>,
    /// The extremal labels.
    pub extremal: Seq<Label>,
    /// The facts that hold at the extremal labels.
    pub extremal_value: Set<V>,
    /// The facts every other label starts from.
    pub initial_value: Set<V>,
    /// Whether facts must hold on every path (join by intersection) or may
    /// hold on some path (join by union).
    pub must: bool,
    /// The facts a block generates.
    pub gen: spec_fn(Elem) -> Set<V>,
    /// The facts a block kills.
    pub kill: spec_fn(Elem) -> Set<V>,
    /// A finite set that holds every fact the analysis can produce.
    pub universe: Set<V>,
}

/// What the analysis states of one label.
#[verifier::reject_recursive_types(V)]
pub struct PointFacts<V> {
    pub label: Label,
    pub entry: Set<V>,
    pub exit: Set<V>,
}

impl<V> Instance<V> {
    /// The labels of the program, in textual order.
    pub open spec fn labels(self) -> Seq<Label> {
        self.program.labels()
    }

    /// The block that carries the label `l`.
    pub open spec fn block(self, l: Label) -> Elem {
        self.program.blocks()[self.labels().index_of(l)]
    }

    /// The value a label starts from.
    pub open spec fn seed(self, l: Label) -> Set<V> {
        if self.extremal.contains(l) {
            self.extremal_value
        } else {
            self.initial_value
        }
    }

    /// The transfer function of the block at `l`, applied to `facts`.
    pub open spec fn apply(self, l: Label, facts: Set<V>) -> Set<V> {
        transfer((self.gen)(self.block(l)), (self.kill)(self.block(l)), facts)
    }

    /// The instance is one the solver accepts: labels are unique, edges and
    /// extremal labels are labels of the program, and the universe is finite
    /// and holds the extremal value, the initial value and what any block
    /// generates.
    pub open spec fn well_formed(self) -> bool {
        &&& self.program.well_labelled()
        &&& forall|e: Edge| #[trigger]
            self.edges.contains(e) ==> self.labels().contains(e.0) && self.labels().contains(e.1)
        &&& forall|l: Label| #[trigger] self.extremal.contains(l) ==> self.labels().contains(l)
        &&& self.universe.finite()
        &&& self.extremal_value.subset_of(self.universe)
        &&& self.initial_value.subset_of(self.universe)
        &&& forall|b: Elem| #[trigger]
            self.program.blocks().contains(b) ==> (self.gen)(b).subset_of(self.universe)
    }

    /// `a` gives a value to each label of the program and to nothing else.
    pub open spec fn covers(self, a: Assignment<V>) -> bool {
        a.dom() == self.labels().to_set()
    }

    /// Every label holds at least the value it starts from.
    pub open spec fn seeded(self, a: Assignment<V>) -> bool {
        forall|l: Label| #[trigger]
            self.labels().contains(l) ==> leq(self.must, self.seed(l), a[l])
    }

    /// What leaves the source of `e` adds nothing at its target.
    pub open spec fn stable_on(self, a: Assignment<V>, e: Edge) -> bool {
        leq(self.must, self.apply(e.0, a[e.0]), a[e.1])
    }

    /// `a` is stable on every edge.
    pub open spec fn stable(self, a: Assignment<V>) -> bool {
        forall|e: Edge| #[trigger] self.edges.contains(e) ==> self.stable_on(a, e)
    }

    /// `a` solves the equations of the instance.
    pub open spec fn solution(self, a: Assignment<V>) -> bool {
        &&& self.covers(a)
        &&& self.seeded(a)
        &&& self.stable(a)
    }

    /// `a` is below `b` at every label.
    pub open spec fn below(self, a: Assignment<V>, b: Assignment<V>) -> bool {
        forall|l: Label| #[trigger] self.labels().contains(l) ==> leq(self.must, a[l], b[l])
    }

    /// `a` is the solution below every other.
    pub open spec fn least_solution(self, a: Assignment<V>) -> bool {
        &&& self.solution(a)
        &&& forall|b: Assignment<V>| #[trigger] self.solution(b) ==> self.below(a, b)
    }

    /// The least solution of the instance.
    pub open spec fn fixpoint(self) -> Assignment<V> {
        choose|a: Assignment<V>| self.least_solution(a)
    }

    /// The facts at the entry of the block at `l` under `a`.
    pub open spec fn entry(self, a: Assignment<V>, l: Label) -> Set<V> {
        if self.backwards {
            self.apply(l, a[l])
        } else {
            a[l]
        }
    }

    /// The facts at the exit of the block at `l` under `a`.
    pub open spec fn exit(self, a: Assignment<V>, l: Label) -> Set<V> {
        if self.backwards {
            a[l]
        } else {
            self.apply(l, a[l])
        }
    }

    /// Entry and exit facts of every label under `a`, in textual order.
    pub open spec fn report(self, a: Assignment<V>) -> Seq<PointFacts<V>> {
        self.labels().map_values(
            |l: Label| PointFacts { label: l, entry: self.entry(a, l), exit: self.exit(a, l) },
        )
    }

    /// The two instances state the same equations: they may differ in the
    /// direction they report and in the order and repetition of their edges
    /// and extremal labels.
    pub open spec fn same_equations(self, other: Self) -> bool {
        &&& self.program == other.program
        &&& self.edges.to_set() == other.edges.to_set()
        &&& self.extremal.to_set() == other.extremal.to_set()
        &&& self.extremal_value == other.extremal_value
        &&& self.initial_value == other.initial_value
        &&& self.must == other.must
        &&& self.gen == other.gen
        &&& self.kill == other.kill
    }

    /// Every label holds facts of the universe only.
    pub open spec fn bounded(self, a: Assignment<V>) -> bool {
        forall|l: Label| #[trigger] self.labels().contains(l) ==> a[l].subset_of(self.universe)
    }

    /// How far `facts` is from the top of the lattice: the number of joins
    /// that can still change it.
    pub open spec fn rank(self, facts: Set<V>) -> nat {
        if self.must {
            facts.len()
        } else {
            self.universe.difference(facts).len()
        }
    }

    /// The sum of the ranks that `a` gives to the labels `ls`.
    pub open spec fn rank_sum(self, a: Assignment<V>, ls: Seq<Label>) -> nat
        decreases ls.len(),
    {
        if ls.len() == 0 {
            0
        } else {
            self.rank_sum(a, ls.drop_last()) + self.rank(a[ls.last()])
        }
    }

    /// `a` after the edge `e` has been relaxed: the target of `e` joined with
    /// what leaves its source.
    pub open spec fn relaxed(self, a: Assignment<V>, e: Edge) -> Assignment<V> {
        a.insert(e.1, join(self.must, a[e.1], self.apply(e.0, a[e.0])))
    }
}

/// The order is reflexive.
pub proof fn lemma_leq_reflexive<V>(must: bool, a: Set<V>)
    ensures
        leq(must, a, a),
{
}

/// The order is transitive.
pub proof fn lemma_leq_transitive<V>(must: bool, a: Set<V>, b: Set<V>, c: Set<V>)
    requires
        leq(must, a, b),
        leq(must, b, c),
    ensures
        leq(must, a, c),
{
}

/// The order is antisymmetric.
pub proof fn lemma_leq_antisymmetric<V>(must: bool, a: Set<V>, b: Set<V>)
    requires
        leq(must, a, b),
        leq(must, b, a),
    ensures
        a == b,
{
    assert(a =~= b);
}

/// The join is the least upper bound of its arguments.
pub proof fn lemma_join_least_upper_bound<V>(must: bool, a: Set<V>, b: Set<V>, c: Set<V>)
    ensures
        leq(must, a, join(must, a, b)),
        leq(must, b, join(must, a, b)),
        leq(must, a, c) && leq(must, b, c) ==> leq(must, join(must, a, b), c),
{
}

/// Transfer functions are monotone: `a ⊑ b` implies
/// `transfer(gen, kill, a) ⊑ transfer(gen, kill, b)`, in either lattice and
/// for every gen and kill set.
pub proof fn lemma_transfer_monotone<V>(
    must: bool,
    gen: Set<V>,
    kill: Set<V>,
    a: Set<V>,
    b: Set<V>,
)
    requires
        leq(must, a, b),
    ensures
        leq(must, transfer(gen, kill, a), transfer(gen, kill, b)),
{
}

/// The transfer function of every block is monotone: `a ⊑ b` implies
/// `apply(l, a) ⊑ apply(l, b)`, whatever block stands at `l`.
pub proof fn lemma_apply_monotone<V>(p: Instance<V>, l: Label, a: Set<V>, b: Set<V>)
    requires
        leq(p.must, a, b),
    ensures
        leq(p.must, p.apply(l, a), p.apply(l, b)),
{
    lemma_transfer_monotone(p.must, (p.gen)(p.block(l)), (p.kill)(p.block(l)), a, b);
}

/// A set that lacks a member of a finite set it is included in is smaller.
pub proof fn lemma_proper_subset_smaller<V>(small: Set<V>, big: Set<V>, x: V)
    requires
        big.finite(),
        small.subset_of(big),
        big.contains(x),
        !small.contains(x),
    ensures
        small.len() < big.len(),
{
    vstd::set_lib::lemma_len_subset(small, big.remove(x));
}

/// Two least solutions of one instance are equal.
pub proof fn lemma_least_solution_unique<V>(p: Instance<V>, a: Assignment<V>, b: Assignment<V>)
    requires
        p.least_solution(a),
        p.least_solution(b),
    ensures
        a == b,
{
    assert(p.below(a, b));
    assert(p.below(b, a));
    assert forall|l: Label| a.dom().contains(l) implies a[l] == b[l] by {
        assert(p.labels().contains(l));
        lemma_leq_antisymmetric(p.must, a[l], b[l]);
    }
    assert(a =~= b);
}

/// A least solution is the fixpoint of the instance.
pub proof fn lemma_fixpoint_is<V>(p: Instance<V>, a: Assignment<V>)
    requires
        p.least_solution(a),
    ensures
        p.fixpoint() == a,
        p.least_solution(p.fixpoint()),
{
    lemma_least_solution_unique(p, a, p.fixpoint());
}

/// Instances that state the same equations have the same solutions.
pub proof fn lemma_same_equations<V>(p: Instance<V>, q: Instance<V>, a: Assignment<V>)
    requires
        p.same_equations(q),
    ensures
        p.solution(a) == q.solution(a),
        p.least_solution(a) == q.least_solution(a),
{
    assert forall|b: Assignment<V>| p.solution(b) == q.solution(b) by {
        if p.solution(b) {
            lemma_same_solutions(p, q, b);
        }
        if q.solution(b) {
            lemma_same_solutions(q, p, b);
        }
    }
    assert forall|b: Assignment<V>| p.below(a, b) == q.below(a, b) by {
        assert(p.labels() == q.labels());
    }
}

proof fn lemma_same_solutions<V>(p: Instance<V>, q: Instance<V>, a: Assignment<V>)
    requires
        p.edges.to_set() == q.edges.to_set(),
        p.extremal.to_set() == q.extremal.to_set(),
        p.program == q.program,
        p.extremal_value == q.extremal_value,
        p.initial_value == q.initial_value,
        p.must == q.must,
        p.gen == q.gen,
        p.kill == q.kill,
        p.solution(a),
    ensures
        q.solution(a),
{
    assert forall|l: Label| p.seed(l) == q.seed(l) by {
        assert(p.extremal.contains(l) == p.extremal.to_set().contains(l));
        assert(q.extremal.contains(l) == q.extremal.to_set().contains(l));
    }
    assert forall|l: Label| #[trigger] q.labels().contains(l) implies leq(
        q.must,
        q.seed(l),
        a[l],
    ) by {
        assert(p.labels().contains(l));
    }
    assert forall|e: Edge| #[trigger] q.edges.contains(e) implies q.stable_on(a, e) by {
        assert(q.edges.to_set().contains(e));
        assert(p.edges.to_set().contains(e));
        assert(p.edges.contains(e));
        assert(p.stable_on(a, e));
    }
}

/// Relaxing an unstable edge keeps what the solver relies on: the labels
/// covered, the seeds, every solution above, the bound by the universe, and
/// the stability of the edges that do not leave the changed label. The rank
/// of the changed label drops.
pub proof fn lemma_relax<V>(p: Instance<V>, a: Assignment<V>, e: Edge)
    requires
        p.well_formed(),
        p.covers(a),
        p.bounded(a),
        p.edges.contains(e),
        !p.stable_on(a, e),
    ensures
        p.covers(p.relaxed(a, e)),
        p.bounded(p.relaxed(a, e)),
        p.seeded(a) ==> p.seeded(p.relaxed(a, e)),
        forall|b: Assignment<V>|
            p.solution(b) && p.below(a, b) ==> #[trigger] p.below(p.relaxed(a, e), b),
        forall|d: Edge|
            p.edges.contains(d) && d.0 != e.1 && p.stable_on(a, d) ==> #[trigger] p.stable_on(
                p.relaxed(a, e),
                d,
            ),
        e.0 != e.1 ==> p.stable_on(p.relaxed(a, e), e),
        p.rank(p.relaxed(a, e)[e.1]) < p.rank(a[e.1]),
{
    let out = p.apply(e.0, a[e.0]);
    let next = p.relaxed(a, e);
    assert(p.labels().contains(e.0) && p.labels().contains(e.1));
    assert(a.dom().contains(e.1));
    assert(next.dom() =~= a.dom());
    // What leaves the source lies in the universe.
    let i = p.labels().index_of(e.0);
    assert(0 <= i < p.labels().len() && p.labels()[i] == e.0);
    assert(p.program.blocks().contains(p.block(e.0))) by {
        assert(p.program.blocks()[i] == p.block(e.0));
    }
    assert(out.subset_of(p.universe));
    assert(a[e.1].subset_of(p.universe));
    assert(next[e.1].subset_of(p.universe));
    assert forall|l: Label| #[trigger] p.labels().contains(l) implies next[l].subset_of(
        p.universe,
    ) by {
        if l != e.1 {
            assert(next[l] == a[l]);
        }
    }
    if p.seeded(a) {
        assert forall|l: Label| #[trigger] p.labels().contains(l) implies leq(
            p.must,
            p.seed(l),
            next[l],
        ) by {
            if l != e.1 {
                assert(next[l] == a[l]);
            }
        }
    }
    assert forall|b: Assignment<V>| p.solution(b) && p.below(a, b) implies #[trigger] p.below(
        next,
        b,
    ) by {
        assert(p.stable_on(b, e));
        assert(leq(p.must, a[e.0], b[e.0]));
        assert(leq(p.must, a[e.1], b[e.1]));
        lemma_transfer_monotone(
            p.must,
            (p.gen)(p.block(e.0)),
            (p.kill)(p.block(e.0)),
            a[e.0],
            b[e.0],
        );
        assert forall|l: Label| #[trigger] p.labels().contains(l) implies leq(
            p.must,
            next[l],
            b[l],
        ) by {
            if l != e.1 {
                assert(next[l] == a[l]);
            }
        }
    }
    assert forall|d: Edge|
        p.edges.contains(d) && d.0 != e.1 && p.stable_on(a, d) implies #[trigger] p.stable_on(
        next,
        d,
    ) by {
        assert(next[d.0] == a[d.0]);
        if d.1 != e.1 {
            assert(next[d.1] == a[d.1]);
        }
    }
    if e.0 != e.1 {
        assert(next[e.0] == a[e.0]);
    }
    // The changed label moves strictly towards the top.
    vstd::set_lib::lemma_set_subset_finite(p.universe, a[e.1]);
    if p.must {
        let x = choose|x: V| a[e.1].contains(x) && !out.contains(x);
        lemma_proper_subset_smaller(next[e.1], a[e.1], x);
    } else {
        let x = choose|x: V| out.contains(x) && !a[e.1].contains(x);
        vstd::set_lib::lemma_set_subset_finite(p.universe, p.universe.difference(a[e.1]));
        lemma_proper_subset_smaller(
            p.universe.difference(next[e.1]),
            p.universe.difference(a[e.1]),
            x,
        );
    }
}

/// Changing the value of one label changes the rank sum of a sequence of
/// distinct labels by the change of that label's rank.
pub proof fn lemma_rank_sum_insert<V>(
    p: Instance<V>,
    a: Assignment<V>,
    ls: Seq<Label>,
    l: Label,
    facts: Set<V>,
)
    requires
        ls.no_duplicates(),
    ensures
        ls.contains(l) ==> p.rank_sum(a.insert(l, facts), ls) + p.rank(a[l]) == p.rank_sum(a, ls)
            + p.rank(facts),
        !ls.contains(l) ==> p.rank_sum(a.insert(l, facts), ls) == p.rank_sum(a, ls),
    decreases ls.len(),
{
    if ls.len() > 0 {
        let front = ls.drop_last();
        lemma_rank_sum_insert(p, a, front, l, facts);
        assert(ls =~= front.push(ls.last()));
        if ls.last() == l {
            assert(!front.contains(l)) by {
                if front.contains(l) {
                    let k = choose|k: int| 0 <= k < front.len() && front[k] == l;
                    assert(ls[k] == l && ls[ls.len() - 1] == l);
                }
            }
            assert(ls.contains(l)) by {
                assert(ls[ls.len() - 1] == l);
            }
        } else {
            assert(a.insert(l, facts)[ls.last()] == a[ls.last()]);
            assert(ls.contains(l) == front.contains(l)) by {
                if ls.contains(l) {
                    let k = choose|k: int| 0 <= k < ls.len() && ls[k] == l;
                    assert(front[k] == l);
                }
                if front.contains(l) {
                    let k = choose|k: int| 0 <= k < front.len() && front[k] == l;
                    assert(ls[k] == l);
                }
            }
        }
    }
}

/// The result does not depend on the order of the edges: when the edges of
/// `q` are those of `p` in another order, and `p` and `q` agree in all else,
/// their least solutions and reports are the same.
pub proof fn lemma_edge_order_irrelevant<V>(
    p: Instance<V>,
    q: Instance<V>,
    a: Assignment<V>,
    b: Assignment<V>,
)
    requires
        q == (Instance { edges: q.edges, ..p }),
        q.edges.to_set() == p.edges.to_set(),
        p.least_solution(a),
        q.least_solution(b),
    ensures
        a == b,
        p.report(a) == q.report(b),
{
    lemma_same_equations(p, q, a);
    lemma_least_solution_unique(q, a, b);
    assert(p.report(a) =~= q.report(b));
}

/// Direction duality: a forward and a backward instance that state the same
/// equations have the same least solution, and what one reports as the entry
/// of a label the other reports as its exit.
pub proof fn lemma_direction_dual<V>(
    p: Instance<V>,
    q: Instance<V>,
    a: Assignment<V>,
    b: Assignment<V>,
)
    requires
        p.same_equations(q),
        !p.backwards,
        q.backwards,
        p.least_solution(a),
        q.least_solution(b),
    ensures
        a == b,
        forall|l: Label| p.entry(a, l) == q.exit(b, l) && p.exit(a, l) == q.entry(b, l),
{
    lemma_same_equations(p, q, a);
    lemma_least_solution_unique(q, a, b);
}

} // verus!
