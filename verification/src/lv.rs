//! Live variables: a backward may analysis over variable names.

use crate::abstract_syntax::{AssignmentStmt, Block, Condition, Label, Name, Program};
use crate::fact_set::FactSet;
use crate::framework::Framework;
use crate::lattice::Instance;
use crate::model::{Edge, Elem, Ident};
use crate::utils::{finals, flow_r, fv_be, fv_e, union};
use vstd::prelude::*;

verus! {

pub struct LiveVariables {
    pub program: Box<Program>,
}

impl LiveVariables {
    /// An assignment kills the variable it writes.
    pub open spec fn kills(b: Elem) -> Set<Ident> {
        match b {
            Elem::Assign(a) => set![a.name],
            _ => Set::empty(),
        }
    }

    /// A block generates the variables it reads.
    pub open spec fn gens(b: Elem) -> Set<Ident> {
        b.vars()
    }

    /// On a program with unique labels the analysis is an instance the solver
    /// accepts.
    pub proof fn lemma_well_formed(&self)
        requires
            self.program@.well_labelled(),
        ensures
            self.instance().well_formed(),
    {
        let p = self.instance();
        let s = self.program@;
        s.lemma_flow_r_labelled();
        s.lemma_finals_labelled();
        s.lemma_finite();
        assert forall|b: Elem| #[trigger] s.blocks().contains(b) implies (p.gen)(b).subset_of(
            p.universe,
        ) by {
            s.lemma_block(b);
        }
    }
}

impl Framework<Name> for LiveVariables {
    open spec fn instance(&self) -> Instance<Ident> {
        Instance {
            program: self.program@,
            backwards: true,
            edges: self.program@.flow_r(),
            extremal: self.program@.finals(),
            extremal_value: Set::empty(),
            initial_value: Set::empty(),
            must: false,
            gen: |b: Elem| Self::gens(b),
            kill: |b: Elem| Self::kills(b),
            universe: self.program@.vars(),
        }
    }

    fn get_program(&self) -> (program: Box<Program>) {
        self.program.clone()
    }

    fn is_backwards(&self) -> (b: bool) {
        true
    }

    fn get_f(&self) -> (f: Vec<Edge>) {
        flow_r(self.program.clone())
    }

    fn get_e(&self) -> (e: Vec<Label>) {
        finals(self.program.clone())
    }

    fn get_initial_e(&self) -> (facts: FactSet<Name>) {
        FactSet::new()
    }

    fn get_initial_others(&self) -> (facts: FactSet<Name>) {
        FactSet::new()
    }

    fn set_compare(&self, set1: FactSet<Name>, set2: FactSet<Name>) -> (b: bool) {
        set1.is_subset(&set2)
    }

    fn set_union(&self, set1: FactSet<Name>, set2: FactSet<Name>) -> (r: FactSet<Name>) {
        union(set1, set2)
    }

    fn kill(&self, block: Box<Block>) -> (facts: FactSet<Name>) {
        match *block {
            Block::AssignmentStmt(AssignmentStmt { name, exp: _, label: _ }) => {
                FactSet::singleton(name)
            },
            _ => FactSet::new(),
        }
    }

    fn gen(&self, block: Box<Block>) -> (facts: FactSet<Name>) {
        match *block {
            Block::AssignmentStmt(AssignmentStmt { name: _, exp, label: _ }) => fv_e(exp),
            Block::Condition(Condition { exp, label: _ }) => fv_be(exp),
            _ => FactSet::new(),
        }
    }
}

} // verus!
