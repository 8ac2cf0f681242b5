//! Reaching definitions: a forward may analysis over pairs of a variable and
//! the label of an assignment to it.

use crate::abstract_syntax::{AssignmentStmt, Block, Label, Name, Program, UNDEF};
use crate::fact_set::{views, FactSet};
use crate::framework::Framework;
use crate::lattice::Instance;
use crate::model::{Assign, Edge, Elem, Ident, Stmt};
use crate::utils::{assignments, flow, fv_st, init, union};
use vstd::prelude::*;

verus! {

pub struct ReachingDefinition {
    pub program: Box<Program>,
}

/// A definition: the variable `name` as it was assigned at `label`, or as it
/// was before the program started when `label` is `UNDEF`.
#[derive(Debug, PartialEq, Eq, Hash)]
pub struct L {
    pub name: Name,
    pub label: Label,
}

impl View for L {
    type V = (Ident, Label);

    open spec fn view(&self) -> (Ident, Label) {
        (self.name@, self.label)
    }
}

impl Clone for L {
    fn clone(&self) -> (r: Self)
        ensures
            r == *self,
    {
        L { name: self.name.clone(), label: self.label }
    }
}

impl crate::framework::L for L {
    fn same(&self, other: &Self) -> (r: bool) {
        self.name == other.name && self.label == other.label
    }

    fn duplicate(&self) -> (r: Self) {
        self.clone()
    }
}

/// Each of `names` paired with `UNDEF`.
pub open spec fn undefined(names: Set<Ident>) -> Set<(Ident, Label)> {
    Set::new(|d: (Ident, Label)| d.1 == UNDEF && names.contains(d.0))
}

/// The variable and label of each of `assigns`.
pub open spec fn definitions(assigns: Seq<Assign>) -> Set<(Ident, Label)> {
    assigns.map_values(|a: Assign| (a.name, a.label)).to_set()
}

/// The definitions of the one variable `x` among `defs`.
pub open spec fn of_variable(defs: Set<(Ident, Label)>, x: Ident) -> Set<(Ident, Label)> {
    defs.filter(|d: (Ident, Label)| d.0 == x)
}

/// Finitely many names give finitely many undefined pairs.
pub proof fn lemma_undefined_finite(names: Set<Ident>)
    requires
        names.finite(),
    ensures
        undefined(names).finite(),
{
    let pair = |x: Ident| (x, UNDEF);
    names.lemma_map_finite(pair);
    assert forall|d: (Ident, Label)| undefined(names).contains(d) implies names.map(pair).contains(
        d,
    ) by {
        assert(names.contains(d.0) && pair(d.0) == d);
    }
    vstd::set_lib::lemma_set_subset_finite(names.map(pair), undefined(names));
}

/// The definitions of a sequence extended by `a` are those of the sequence
/// and that of `a`.
pub proof fn lemma_definitions_push(assigns: Seq<Assign>, a: Assign)
    ensures
        definitions(assigns.push(a)) == definitions(assigns).insert((a.name, a.label)),
{
    let pair = |a: Assign| (a.name, a.label);
    assert(assigns.push(a).map_values(pair) =~= assigns.map_values(pair).push(pair(a)));
    assigns.map_values(pair).lemma_push_to_set_commute(pair(a));
}

impl ReachingDefinition {
    /// An assignment kills every definition of the variable it writes: the
    /// one from before the program and those of the program's assignments to
    /// it.
    pub open spec fn kills(program: Stmt, b: Elem) -> Set<(Ident, Label)> {
        match b {
            Elem::Assign(a) => set![(a.name, UNDEF)].union(
                of_variable(definitions(program.assignments()), a.name),
            ),
            _ => Set::empty(),
        }
    }

    /// An assignment generates its own definition.
    pub open spec fn gens(b: Elem) -> Set<(Ident, Label)> {
        match b {
            Elem::Assign(a) => set![(a.name, a.label)],
            _ => Set::empty(),
        }
    }

    /// On a program with unique labels the analysis is an instance the solver
    /// accepts.
    pub proof fn lemma_well_formed(&self)
        requires
            self.program@.well_labelled(),
        ensures
            self.instance().well_formed(),
    {
        let p = self.instance();
        let s = self.program@;
        s.lemma_flow_labelled();
        s.lemma_init_labelled();
        s.lemma_finite();
        lemma_undefined_finite(s.vars());
        vstd::seq_lib::seq_to_set_is_finite(
            s.assignments().map_values(|a: Assign| (a.name, a.label)),
        );
        assert forall|l: Label| #[trigger] p.extremal.contains(l) implies p.labels().contains(
            l,
        ) by {
            let k = choose|k: int| 0 <= k < p.extremal.len() && p.extremal[k] == l;
        }
        assert forall|b: Elem| #[trigger] s.blocks().contains(b) implies (p.gen)(b).subset_of(
            p.universe,
        ) by {
            s.lemma_block(b);
            if let Elem::Assign(a) = b {
                let defs = s.assignments().map_values(|a: Assign| (a.name, a.label));
                let k = choose|k: int| 0 <= k < s.assignments().len() && s.assignments()[k] == a;
                assert(defs[k] == (a.name, a.label));
            }
        }
    }
}

impl Framework<L> for ReachingDefinition {
    open spec fn instance(&self) -> Instance<(Ident, Label)> {
        Instance {
            program: self.program@,
            backwards: false,
            edges: self.program@.flow(),
            extremal: seq![self.program@.init()],
            extremal_value: undefined(self.program@.vars()),
            initial_value: Set::empty(),
            must: false,
            gen: |b: Elem| Self::gens(b),
            kill: |b: Elem| Self::kills(self.program@, b),
            universe: undefined(self.program@.vars()).union(
                definitions(self.program@.assignments()),
            ),
        }
    }

    fn get_program(&self) -> (program: Box<Program>) {
        self.program.clone()
    }

    fn is_backwards(&self) -> (b: bool) {
        false
    }

    fn get_f(&self) -> (f: Vec<Edge>) {
        flow(self.program.clone())
    }

    fn get_e(&self) -> (e: Vec<Label>) {
        let mut e = Vec::new();
        e.push(init(self.program.clone()));
        assert(e@ =~= seq![self.program@.init()]);
        e
    }

    fn get_initial_e(&self) -> (facts: FactSet<L>) {
        let mut facts = FactSet::new();
        let mut names = fv_st(self.program.clone()).into_vec();
        while names.len() > 0
            invariant
                facts@.union(undefined(views(names@).to_set())) == undefined(self.program@.vars()),
            decreases names.len(),
        {
            let ghost before = views(names@);
            let n = names.pop().unwrap();
            proof {
                assert(views(names@) =~= before.drop_last());
                assert(before =~= before.drop_last().push(n@));
                before.drop_last().lemma_push_to_set_commute(n@);
                assert(facts@.insert((n@, UNDEF)).union(undefined(views(names@).to_set()))
                    =~= facts@.union(undefined(before.to_set())));
            }
            facts.insert(L { name: n, label: UNDEF });
        }
        assert(facts@ =~= facts@.union(undefined(views(names@).to_set())));
        facts
    }

    fn get_initial_others(&self) -> (facts: FactSet<L>) {
        FactSet::new()
    }

    fn set_compare(&self, set1: FactSet<L>, set2: FactSet<L>) -> (b: bool) {
        set1.is_subset(&set2)
    }

    fn set_union(&self, set1: FactSet<L>, set2: FactSet<L>) -> (r: FactSet<L>) {
        union(set1, set2)
    }

    fn kill(&self, block: Box<Block>) -> (facts: FactSet<L>) {
        match *block {
            Block::AssignmentStmt(AssignmentStmt { name, exp: _, label: _ }) => {
                let mut facts = FactSet::singleton(L { name: name.clone(), label: UNDEF });
                let all = assignments(self.program.clone());
                let mut i: usize = 0;
                while i < all.len()
                    invariant
                        i <= all.len(),
                        views(all@) == self.program@.assignments(),
                        facts@ == set![(name@, UNDEF)].union(
                            of_variable(definitions(views(all@).take(i as int)), name@),
                        ),
                    decreases all.len() - i,
                {
                    proof {
                        let seen = views(all@).take(i as int);
                        assert(views(all@).take(i + 1) =~= seen.push(all[i as int]@));
                        lemma_definitions_push(seen, all[i as int]@);
                    }
                    if all[i].name == name {
                        assert(facts@.insert((name@, all[i as int].label)) =~= set![
                            (name@, UNDEF),
                        ].union(
                            of_variable(definitions(views(all@).take(i + 1)), name@),
                        ));
                        facts.insert(L { name: name.clone(), label: all[i].label });
                    } else {
                        assert(facts@ =~= set![(name@, UNDEF)].union(
                            of_variable(definitions(views(all@).take(i + 1)), name@),
                        ));
                    }
                    i = i + 1;
                }
                assert(views(all@).take(all.len() as int) =~= views(all@));
                facts
            },
            _ => FactSet::new(),
        }
    }

    fn gen(&self, block: Box<Block>) -> (facts: FactSet<L>) {
        match *block {
            Block::AssignmentStmt(AssignmentStmt { name, exp: _, label }) => {
                FactSet::singleton(L { name: name, label: label })
            },
            _ => FactSet::new(),
        }
    }
}

} // verus!
