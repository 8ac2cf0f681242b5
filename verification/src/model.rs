//! The mathematical model of the analysed language: labelled While programs
//! as plain values, and the syntactic functions of the monotone framework
//! (elementary blocks, labels, entry and exit points, flow graph, free
//! variables, non-trivial arithmetic subexpressions) defined on them.

use crate::abstract_syntax::Label;
use vstd::prelude::*;

verus! {

/// A directed flow edge `(from, to)`.
pub type Edge = (Label, Label);

/// A variable name as a sequence of characters.
pub type Ident = Seq<char>;

/// Arithmetic terms.
pub enum Arith {
    Var(Ident),
    Num(i64),
    Add(Box<Arith>, Box<Arith>),
    Sub(Box<Arith>, Box<Arith>),
    Mul(Box<Arith>, Box<Arith>),
    Div(Box<Arith>, Box<Arith>),
}

/// Boolean and relational terms.
pub enum Logic {
    True,
    False,
    Not(Box<Logic>),
    And(Box<Logic>, Box<Logic>),
    Or(Box<Logic>, Box<Logic>),
    Eq(Arith, Arith),
    Gt(Arith, Arith),
    Lt(Arith, Arith),
    Geq(Arith, Arith),
    Leq(Arith, Arith),
}

/// Either kind of term.
pub enum Expr {
    Arith(Arith),
    Logic(Logic),
}

/// `[name := exp]^label`.
pub struct Assign {
    pub name: Ident,
    pub exp: Expr,
    pub label: Label,
}

/// The labelled test `[exp]^label` of a conditional or a loop.
pub struct Guard {
    pub exp: Logic,
    pub label: Label,
}

/// Statements.
pub enum Stmt {
    Assign(Assign),
    Skip(Label),
    Sequence(Box<Stmt>, Box<Stmt>),
    IfElse(Guard, Box<Stmt>, Box<Stmt>),
    While(Guard, Box<Stmt>),
}

/// Elementary blocks: the nodes of the flow graph.
pub enum Elem {
    Assign(Assign),
    Skip(Label),
    Guard(Guard),
}

impl Arith {
    /// True for the binary forms, the only ones the expression analyses track.
    pub open spec fn is_binary(self) -> bool {
        !(self is Var) && !(self is Num)
    }

    /// The variables occurring in the term.
    pub open spec fn vars(self) -> Set<Ident>
        decreases self,
    {
        match self {
            Arith::Var(x) => set![x],
            Arith::Num(_) => Set::empty(),
            Arith::Add(l, r) => l.vars().union(r.vars()),
            Arith::Sub(l, r) => l.vars().union(r.vars()),
            Arith::Mul(l, r) => l.vars().union(r.vars()),
            Arith::Div(l, r) => l.vars().union(r.vars()),
        }
    }

    /// The binary subterms of the term, itself included when it is binary.
    pub open spec fn complex(self) -> Set<Arith>
        decreases self,
    {
        match self {
            Arith::Var(_) => Set::empty(),
            Arith::Num(_) => Set::empty(),
            Arith::Add(l, r) => set![self].union(l.complex()).union(r.complex()),
            Arith::Sub(l, r) => set![self].union(l.complex()).union(r.complex()),
            Arith::Mul(l, r) => set![self].union(l.complex()).union(r.complex()),
            Arith::Div(l, r) => set![self].union(l.complex()).union(r.complex()),
        }
    }
}

impl Logic {
    /// The variables occurring in the term.
    pub open spec fn vars(self) -> Set<Ident>
        decreases self,
    {
        match self {
            Logic::True => Set::empty(),
            Logic::False => Set::empty(),
            Logic::Not(b) => b.vars(),
            Logic::And(l, r) => l.vars().union(r.vars()),
            Logic::Or(l, r) => l.vars().union(r.vars()),
            Logic::Eq(l, r) => l.vars().union(r.vars()),
            Logic::Gt(l, r) => l.vars().union(r.vars()),
            Logic::Lt(l, r) => l.vars().union(r.vars()),
            Logic::Geq(l, r) => l.vars().union(r.vars()),
            Logic::Leq(l, r) => l.vars().union(r.vars()),
        }
    }

    /// The binary arithmetic subterms occurring under the relations of the term.
    pub open spec fn complex(self) -> Set<Arith>
        decreases self,
    {
        match self {
            Logic::True => Set::empty(),
            Logic::False => Set::empty(),
            Logic::Not(b) => b.complex(),
            Logic::And(l, r) => l.complex().union(r.complex()),
            Logic::Or(l, r) => l.complex().union(r.complex()),
            Logic::Eq(l, r) => l.complex().union(r.complex()),
            Logic::Gt(l, r) => l.complex().union(r.complex()),
            Logic::Lt(l, r) => l.complex().union(r.complex()),
            Logic::Geq(l, r) => l.complex().union(r.complex()),
            Logic::Leq(l, r) => l.complex().union(r.complex()),
        }
    }
}

impl Expr {
    /// The variables occurring in the term.
    pub open spec fn vars(self) -> Set<Ident> {
        match self {
            Expr::Arith(a) => a.vars(),
            Expr::Logic(b) => b.vars(),
        }
    }

    /// The binary arithmetic subterms of the term.
    pub open spec fn complex(self) -> Set<Arith> {
        match self {
            Expr::Arith(a) => a.complex(),
            Expr::Logic(b) => b.complex(),
        }
    }
}

impl Elem {
    /// The label the block carries.
    pub open spec fn label(self) -> Label {
        match self {
            Elem::Assign(a) => a.label,
            Elem::Skip(l) => l,
            Elem::Guard(g) => g.label,
        }
    }

    /// The variables read by the block.
    pub open spec fn vars(self) -> Set<Ident> {
        match self {
            Elem::Assign(a) => a.exp.vars(),
            Elem::Skip(_) => Set::empty(),
            Elem::Guard(g) => g.exp.vars(),
        }
    }

    /// The binary arithmetic subterms evaluated by the block.
    pub open spec fn complex(self) -> Set<Arith> {
        match self {
            Elem::Assign(a) => a.exp.complex(),
            Elem::Skip(_) => Set::empty(),
            Elem::Guard(g) => g.exp.complex(),
        }
    }
}

/// The terms of `terms` in which `x` occurs (`present`) or does not occur
/// (`!present`).
pub open spec fn mentioning(terms: Set<Arith>, x: Ident, present: bool) -> Set<Arith> {
    terms.filter(|t: Arith| t.vars().contains(x) == present)
}

/// Every edge with its endpoints exchanged, in the same order.
pub open spec fn reversed(edges: Seq<Edge>) -> Seq<Edge> {
    edges.map_values(|e: Edge| (e.1, e.0))
}

/// The edges `(l, to)` for the labels `l` of `from`, in order.
pub open spec fn edges_into(from: Seq<Label>, to: Label) -> Seq<Edge> {
    from.map_values(|l: Label| (l, to))
}

impl Stmt {
    /// The elementary blocks, in textual order.
    pub open spec fn blocks(self) -> Seq<Elem>
        decreases self,
    {
        match self {
            Stmt::Assign(a) => seq![Elem::Assign(a)],
            Stmt::Skip(l) => seq![Elem::Skip(l)],
            Stmt::Sequence(s1, s2) => s1.blocks() + s2.blocks(),
            Stmt::IfElse(g, t, e) => seq![Elem::Guard(g)] + t.blocks() + e.blocks(),
            Stmt::While(g, b) => seq![Elem::Guard(g)] + b.blocks(),
        }
    }

    /// The labels of the elementary blocks, in textual order.
    pub open spec fn labels(self) -> Seq<Label> {
        self.blocks().map_values(|b: Elem| b.label())
    }

    /// The assignments, in textual order.
    pub open spec fn assignments(self) -> Seq<Assign>
        decreases self,
    {
        match self {
            Stmt::Assign(a) => seq![a],
            Stmt::Skip(_) => Seq::empty(),
            Stmt::Sequence(s1, s2) => s1.assignments() + s2.assignments(),
            Stmt::IfElse(_, t, e) => t.assignments() + e.assignments(),
            Stmt::While(_, b) => b.assignments(),
        }
    }

    /// The entry label.
    pub open spec fn init(self) -> Label
        decreases self,
    {
        match self {
            Stmt::Assign(a) => a.label,
            Stmt::Skip(l) => l,
            Stmt::Sequence(s1, _) => s1.init(),
            Stmt::IfElse(g, _, _) => g.label,
            Stmt::While(g, _) => g.label,
        }
    }

    /// The exit labels.
    pub open spec fn finals(self) -> Seq<Label>
        decreases self,
    {
        match self {
            Stmt::Assign(a) => seq![a.label],
            Stmt::Skip(l) => seq![l],
            Stmt::Sequence(_, s2) => s2.finals(),
            Stmt::IfElse(_, t, e) => t.finals() + e.finals(),
            Stmt::While(g, _) => seq![g.label],
        }
    }

    /// The forward flow graph.
    pub open spec fn flow(self) -> Seq<Edge>
        decreases self,
    {
        match self {
            Stmt::Assign(_) => Seq::empty(),
            Stmt::Skip(_) => Seq::empty(),
            Stmt::Sequence(s1, s2) => s1.flow() + s2.flow() + edges_into(s1.finals(), s2.init()),
            Stmt::IfElse(g, t, e) => t.flow() + e.flow() + seq![
                (g.label, t.init()),
                (g.label, e.init()),
            ],
            Stmt::While(g, b) => b.flow() + seq![(g.label, b.init())] + edges_into(
                b.finals(),
                g.label,
            ),
        }
    }

    /// The backward flow graph.
    pub open spec fn flow_r(self) -> Seq<Edge> {
        reversed(self.flow())
    }

    /// The variables read anywhere in the statement.
    pub open spec fn vars(self) -> Set<Ident>
        decreases self,
    {
        match self {
            Stmt::Assign(a) => a.exp.vars(),
            Stmt::Skip(_) => Set::empty(),
            Stmt::Sequence(s1, s2) => s1.vars().union(s2.vars()),
            Stmt::IfElse(g, t, e) => g.exp.vars().union(t.vars()).union(e.vars()),
            Stmt::While(g, b) => g.exp.vars().union(b.vars()),
        }
    }

    /// The binary arithmetic subterms occurring anywhere in the statement.
    pub open spec fn complex(self) -> Set<Arith>
        decreases self,
    {
        match self {
            Stmt::Assign(a) => a.exp.complex(),
            Stmt::Skip(_) => Set::empty(),
            Stmt::Sequence(s1, s2) => s1.complex().union(s2.complex()),
            Stmt::IfElse(g, t, e) => g.exp.complex().union(t.complex()).union(e.complex()),
            Stmt::While(g, b) => g.exp.complex().union(b.complex()),
        }
    }

    /// No label is carried by two blocks.
    pub open spec fn well_labelled(self) -> bool {
        self.labels().no_duplicates()
    }
}

/// A value occurs in a concatenation exactly when it occurs in a part.
pub proof fn lemma_concat_contains<A>(x: Seq<A>, y: Seq<A>, v: A)
    ensures
        (x + y).contains(v) <==> x.contains(v) || y.contains(v),
{
    if x.contains(v) {
        let k = choose|k: int| 0 <= k < x.len() && x[k] == v;
        assert((x + y)[k] == v);
    }
    if y.contains(v) {
        let k = choose|k: int| 0 <= k < y.len() && y[k] == v;
        assert((x + y)[x.len() + k] == v);
    }
    if (x + y).contains(v) {
        let k = choose|k: int| 0 <= k < (x + y).len() && (x + y)[k] == v;
        if k < x.len() {
            assert(x[k] == v);
        } else {
            assert(y[k - x.len()] == v);
        }
    }
}

/// An edge into `to` is among `edges_into(from, to)` exactly when its source
/// is among `from`.
pub proof fn lemma_edges_into_contains(from: Seq<Label>, to: Label, e: Edge)
    ensures
        edges_into(from, to).contains(e) <==> from.contains(e.0) && e.1 == to,
{
    if edges_into(from, to).contains(e) {
        let k = choose|k: int| 0 <= k < edges_into(from, to).len() && edges_into(from, to)[k] == e;
        assert(from[k] == e.0);
    }
    if from.contains(e.0) && e.1 == to {
        let k = choose|k: int| 0 <= k < from.len() && from[k] == e.0;
        assert(edges_into(from, to)[k] == e);
    }
}

/// An edge is among the reversed edges exactly when its reverse is among the
/// edges.
pub proof fn lemma_reversed_contains(edges: Seq<Edge>, e: Edge)
    ensures
        reversed(edges).contains(e) <==> edges.contains((e.1, e.0)),
{
    if reversed(edges).contains(e) {
        let k = choose|k: int| 0 <= k < reversed(edges).len() && reversed(edges)[k] == e;
        assert(edges[k] == (e.1, e.0));
    }
    if edges.contains((e.1, e.0)) {
        let k = choose|k: int| 0 <= k < edges.len() && edges[k] == (e.1, e.0);
        assert(reversed(edges)[k] == e);
    }
}

impl Arith {
    /// A term has finitely many variables and binary subterms.
    pub proof fn lemma_finite(self)
        ensures
            self.vars().finite(),
            self.complex().finite(),
        decreases self,
    {
        match self {
            Arith::Var(_) => {},
            Arith::Num(_) => {},
            Arith::Add(l, r) => {
                l.lemma_finite();
                r.lemma_finite();
            },
            Arith::Sub(l, r) => {
                l.lemma_finite();
                r.lemma_finite();
            },
            Arith::Mul(l, r) => {
                l.lemma_finite();
                r.lemma_finite();
            },
            Arith::Div(l, r) => {
                l.lemma_finite();
                r.lemma_finite();
            },
        }
    }

    /// Every member of `complex` is a binary term.
    pub proof fn lemma_complex_binary(self, e: Arith)
        requires
            self.complex().contains(e),
        ensures
            e.is_binary(),
        decreases self,
    {
        match self {
            Arith::Var(_) => {},
            Arith::Num(_) => {},
            Arith::Add(l, r) => {
                if l.complex().contains(e) {
                    l.lemma_complex_binary(e);
                } else if r.complex().contains(e) {
                    r.lemma_complex_binary(e);
                }
            },
            Arith::Sub(l, r) => {
                if l.complex().contains(e) {
                    l.lemma_complex_binary(e);
                } else if r.complex().contains(e) {
                    r.lemma_complex_binary(e);
                }
            },
            Arith::Mul(l, r) => {
                if l.complex().contains(e) {
                    l.lemma_complex_binary(e);
                } else if r.complex().contains(e) {
                    r.lemma_complex_binary(e);
                }
            },
            Arith::Div(l, r) => {
                if l.complex().contains(e) {
                    l.lemma_complex_binary(e);
                } else if r.complex().contains(e) {
                    r.lemma_complex_binary(e);
                }
            },
        }
    }
}

impl Logic {
    /// A term has finitely many variables and binary arithmetic subterms.
    pub proof fn lemma_finite(self)
        ensures
            self.vars().finite(),
            self.complex().finite(),
        decreases self,
    {
        match self {
            Logic::True => {},
            Logic::False => {},
            Logic::Not(b) => {
                b.lemma_finite();
            },
            Logic::And(l, r) => {
                l.lemma_finite();
                r.lemma_finite();
            },
            Logic::Or(l, r) => {
                l.lemma_finite();
                r.lemma_finite();
            },
            Logic::Eq(l, r) => {
                l.lemma_finite();
                r.lemma_finite();
            },
            Logic::Gt(l, r) => {
                l.lemma_finite();
                r.lemma_finite();
            },
            Logic::Lt(l, r) => {
                l.lemma_finite();
                r.lemma_finite();
            },
            Logic::Geq(l, r) => {
                l.lemma_finite();
                r.lemma_finite();
            },
            Logic::Leq(l, r) => {
                l.lemma_finite();
                r.lemma_finite();
            },
        }
    }
}

impl Expr {
    /// A term has finitely many variables and binary arithmetic subterms.
    pub proof fn lemma_finite(self)
        ensures
            self.vars().finite(),
            self.complex().finite(),
    {
        match self {
            Expr::Arith(a) => a.lemma_finite(),
            Expr::Logic(b) => b.lemma_finite(),
        }
    }
}

impl Stmt {
    /// The labels of a statement, by its form.
    pub proof fn lemma_labels(self)
        ensures
            self.labels().len() == self.blocks().len(),
            match self {
                Stmt::Assign(a) => self.labels() == seq![a.label],
                Stmt::Skip(l) => self.labels() == seq![l],
                Stmt::Sequence(s1, s2) => self.labels() == s1.labels() + s2.labels(),
                Stmt::IfElse(g, t, e) => self.labels() == seq![g.label] + t.labels() + e.labels(),
                Stmt::While(g, b) => self.labels() == seq![g.label] + b.labels(),
            },
    {
        match self {
            Stmt::Assign(a) => {
                assert(self.labels() =~= seq![a.label]);
            },
            Stmt::Skip(l) => {
                assert(self.labels() =~= seq![l]);
            },
            Stmt::Sequence(s1, s2) => {
                assert(self.labels() =~= s1.labels() + s2.labels());
            },
            Stmt::IfElse(g, t, e) => {
                assert(self.labels() =~= seq![g.label] + t.labels() + e.labels());
            },
            Stmt::While(g, b) => {
                assert(self.labels() =~= seq![g.label] + b.labels());
            },
        }
    }

    /// The entry label is a label of the statement.
    pub proof fn lemma_init_labelled(self)
        ensures
            self.labels().contains(self.init()),
        decreases self,
    {
        self.lemma_labels();
        match self {
            Stmt::Assign(a) => {
                assert(self.labels()[0] == a.label);
            },
            Stmt::Skip(l) => {
                assert(self.labels()[0] == l);
            },
            Stmt::Sequence(s1, s2) => {
                s1.lemma_init_labelled();
                lemma_concat_contains(s1.labels(), s2.labels(), self.init());
            },
            Stmt::IfElse(g, _, _) => {
                assert(self.labels()[0] == g.label);
            },
            Stmt::While(g, _) => {
                assert(self.labels()[0] == g.label);
            },
        }
    }

    /// There is an exit label, and every exit label is a label of the
    /// statement.
    pub proof fn lemma_finals_labelled(self)
        ensures
            self.finals().len() > 0,
            forall|l: Label| #[trigger] self.finals().contains(l) ==> self.labels().contains(l),
        decreases self,
    {
        self.lemma_labels();
        match self {
            Stmt::Assign(a) => {
                assert(self.labels()[0] == a.label);
            },
            Stmt::Skip(l) => {
                assert(self.labels()[0] == l);
            },
            Stmt::Sequence(s1, s2) => {
                s2.lemma_finals_labelled();
                assert forall|l: Label| #[trigger] self.finals().contains(l) implies self.labels().contains(
                    l,
                ) by {
                    lemma_concat_contains(s1.labels(), s2.labels(), l);
                }
            },
            Stmt::IfElse(g, t, e) => {
                t.lemma_finals_labelled();
                e.lemma_finals_labelled();
                assert forall|l: Label| #[trigger] self.finals().contains(l) implies self.labels().contains(
                    l,
                ) by {
                    lemma_concat_contains(t.finals(), e.finals(), l);
                    lemma_concat_contains(seq![g.label], t.labels(), l);
                    lemma_concat_contains(seq![g.label] + t.labels(), e.labels(), l);
                }
            },
            Stmt::While(g, _) => {
                assert(self.labels()[0] == g.label);
            },
        }
    }

    /// Every edge of the flow graph joins two labels of the statement.
    pub proof fn lemma_flow_labelled(self)
        ensures
            forall|e: Edge| #[trigger]
                self.flow().contains(e) ==> self.labels().contains(e.0) && self.labels().contains(
                    e.1,
                ),
        decreases self,
    {
        self.lemma_labels();
        match self {
            Stmt::Assign(_) => {},
            Stmt::Skip(_) => {},
            Stmt::Sequence(s1, s2) => {
                s1.lemma_flow_labelled();
                s2.lemma_flow_labelled();
                s1.lemma_finals_labelled();
                s2.lemma_init_labelled();
                assert forall|e: Edge| #[trigger] self.flow().contains(e) implies self.labels().contains(
                    e.0,
                ) && self.labels().contains(e.1) by {
                    lemma_concat_contains(s1.flow(), s2.flow(), e);
                    lemma_concat_contains(
                        s1.flow() + s2.flow(),
                        edges_into(s1.finals(), s2.init()),
                        e,
                    );
                    lemma_edges_into_contains(s1.finals(), s2.init(), e);
                    lemma_concat_contains(s1.labels(), s2.labels(), e.0);
                    lemma_concat_contains(s1.labels(), s2.labels(), e.1);
                }
            },
            Stmt::IfElse(g, t, el) => {
                t.lemma_flow_labelled();
                el.lemma_flow_labelled();
                t.lemma_init_labelled();
                el.lemma_init_labelled();
                let heads = seq![(g.label, t.init()), (g.label, el.init())];
                assert(self.labels()[0] == g.label);
                assert forall|e: Edge| #[trigger] self.flow().contains(e) implies self.labels().contains(
                    e.0,
                ) && self.labels().contains(e.1) by {
                    lemma_concat_contains(t.flow(), el.flow(), e);
                    lemma_concat_contains(t.flow() + el.flow(), heads, e);
                    lemma_concat_contains(seq![g.label], t.labels(), e.0);
                    lemma_concat_contains(seq![g.label] + t.labels(), el.labels(), e.0);
                    lemma_concat_contains(seq![g.label], t.labels(), e.1);
                    lemma_concat_contains(seq![g.label] + t.labels(), el.labels(), e.1);
                    if heads.contains(e) {
                        let k = choose|k: int| 0 <= k < heads.len() && heads[k] == e;
                        assert(e.0 == g.label);
                        assert(e.1 == t.init() || e.1 == el.init());
                    }
                }
            },
            Stmt::While(g, b) => {
                b.lemma_flow_labelled();
                b.lemma_init_labelled();
                b.lemma_finals_labelled();
                let head = seq![(g.label, b.init())];
                assert(self.labels()[0] == g.label);
                assert forall|e: Edge| #[trigger] self.flow().contains(e) implies self.labels().contains(
                    e.0,
                ) && self.labels().contains(e.1) by {
                    lemma_concat_contains(b.flow(), head, e);
                    lemma_concat_contains(b.flow() + head, edges_into(b.finals(), g.label), e);
                    lemma_edges_into_contains(b.finals(), g.label, e);
                    lemma_concat_contains(seq![g.label], b.labels(), e.0);
                    lemma_concat_contains(seq![g.label], b.labels(), e.1);
                    if head.contains(e) {
                        let k = choose|k: int| 0 <= k < head.len() && head[k] == e;
                        assert(e == (g.label, b.init()));
                    }
                }
            },
        }
    }

    /// Every edge of the backward flow graph joins two labels of the
    /// statement.
    pub proof fn lemma_flow_r_labelled(self)
        ensures
            forall|e: Edge| #[trigger]
                self.flow_r().contains(e) ==> self.labels().contains(e.0) && self.labels().contains(
                    e.1,
                ),
    {
        self.lemma_flow_labelled();
        assert forall|e: Edge| #[trigger] self.flow_r().contains(e) implies self.labels().contains(
            e.0,
        ) && self.labels().contains(e.1) by {
            lemma_reversed_contains(self.flow(), e);
            assert(self.flow().contains((e.1, e.0)));
        }
    }

    /// A statement has finitely many variables and binary arithmetic
    /// subterms.
    pub proof fn lemma_finite(self)
        ensures
            self.vars().finite(),
            self.complex().finite(),
        decreases self,
    {
        match self {
            Stmt::Assign(a) => {
                a.exp.lemma_finite();
            },
            Stmt::Skip(_) => {},
            Stmt::Sequence(s1, s2) => {
                s1.lemma_finite();
                s2.lemma_finite();
            },
            Stmt::IfElse(g, t, e) => {
                g.exp.lemma_finite();
                t.lemma_finite();
                e.lemma_finite();
            },
            Stmt::While(g, b) => {
                g.exp.lemma_finite();
                b.lemma_finite();
            },
        }
    }

    /// What a block of the statement reads and evaluates, the statement
    /// reads and evaluates; an assignment block is one of its assignments.
    pub proof fn lemma_block(self, b: Elem)
        requires
            self.blocks().contains(b),
        ensures
            b.vars().subset_of(self.vars()),
            b.complex().subset_of(self.complex()),
            b matches Elem::Assign(a) ==> self.assignments().contains(a),
        decreases self,
    {
        match self {
            Stmt::Assign(a) => {
                let k = choose|k: int| 0 <= k < self.blocks().len() && self.blocks()[k] == b;
                assert(self.assignments()[0] == a);
            },
            Stmt::Skip(_) => {
                let k = choose|k: int| 0 <= k < self.blocks().len() && self.blocks()[k] == b;
            },
            Stmt::Sequence(s1, s2) => {
                lemma_concat_contains(s1.blocks(), s2.blocks(), b);
                if s1.blocks().contains(b) {
                    s1.lemma_block(b);
                } else {
                    s2.lemma_block(b);
                }
                if let Elem::Assign(a) = b {
                    lemma_concat_contains(s1.assignments(), s2.assignments(), a);
                }
            },
            Stmt::IfElse(g, t, e) => {
                let head = seq![Elem::Guard(g)];
                lemma_concat_contains(head, t.blocks(), b);
                lemma_concat_contains(head + t.blocks(), e.blocks(), b);
                if head.contains(b) {
                    let k = choose|k: int| 0 <= k < head.len() && head[k] == b;
                } else if t.blocks().contains(b) {
                    t.lemma_block(b);
                } else {
                    e.lemma_block(b);
                }
                if let Elem::Assign(a) = b {
                    lemma_concat_contains(t.assignments(), e.assignments(), a);
                }
            },
            Stmt::While(g, body) => {
                let head = seq![Elem::Guard(g)];
                lemma_concat_contains(head, body.blocks(), b);
                if head.contains(b) {
                    let k = choose|k: int| 0 <= k < head.len() && head[k] == b;
                } else {
                    body.lemma_block(b);
                }
            },
        }
    }
}

/// In a sequence `s1; s2` every exit of `s1` has an edge to the entry of
/// `s2`.
pub proof fn lemma_sequence_flow(s1: Stmt, s2: Stmt, l: Label)
    requires
        s1.finals().contains(l),
    ensures
        Stmt::Sequence(Box::new(s1), Box::new(s2)).flow().contains((l, s2.init())),
{
    let joints = edges_into(s1.finals(), s2.init());
    lemma_edges_into_contains(s1.finals(), s2.init(), (l, s2.init()));
    lemma_concat_contains(s1.flow() + s2.flow(), joints, (l, s2.init()));
}

/// A loop is entered and left at its test: the test's label is the entry and
/// the only exit, it has an edge to the entry of the body, and every exit of
/// the body has an edge back to it.
pub proof fn lemma_while_flow(g: Guard, body: Stmt)
    ensures
        Stmt::While(g, Box::new(body)).init() == g.label,
        Stmt::While(g, Box::new(body)).finals() == seq![g.label],
        Stmt::While(g, Box::new(body)).flow().contains((g.label, body.init())),
        forall|l: Label| #[trigger]
            body.finals().contains(l) ==> Stmt::While(g, Box::new(body)).flow().contains(
                (l, g.label),
            ),
{
    let head = seq![(g.label, body.init())];
    let back = edges_into(body.finals(), g.label);
    assert(head[0] == (g.label, body.init()));
    lemma_concat_contains(body.flow(), head, (g.label, body.init()));
    lemma_concat_contains(body.flow() + head, back, (g.label, body.init()));
    assert forall|l: Label| #[trigger] body.finals().contains(l) implies Stmt::While(
        g,
        Box::new(body),
    ).flow().contains((l, g.label)) by {
        lemma_edges_into_contains(body.finals(), g.label, (l, g.label));
        lemma_concat_contains(body.flow() + head, back, (l, g.label));
    }
}

} // verus!
