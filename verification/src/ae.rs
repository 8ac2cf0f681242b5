//! Available expressions: a forward must analysis over the binary arithmetic
//! expressions of the program.

use crate::abstract_syntax::{ArithmeticExpression, AssignmentStmt, Block, Label, Program};
use crate::fact_set::FactSet;
use crate::framework::Framework;
use crate::lattice::Instance;
use crate::model::{mentioning, Arith, Edge, Elem, Stmt};
use crate::utils::{
    complex_expressions_e, complex_expressions_stmt, expressions_mentioning, flow, init,
    intersection,
};
use vstd::prelude::*;

verus! {

pub struct AvailableExpressions {
    pub program: Box<Program>,
}

impl AvailableExpressions {
    /// An assignment kills the expressions of the program that read the
    /// variable it writes.
    pub open spec fn kills(program: Stmt, b: Elem) -> Set<Arith> {
        match b {
            Elem::Assign(a) => mentioning(program.complex(), a.name, true),
            _ => Set::empty(),
        }
    }

    /// An assignment generates the expressions it evaluates that do not read
    /// the variable it writes.
    pub open spec fn gens(b: Elem) -> Set<Arith> {
        match b {
            Elem::Assign(a) => mentioning(a.exp.complex(), a.name, false),
            _ => Set::empty(),
        }
    }

    /// On a program with unique labels the analysis is an instance the solver
    /// accepts.
    pub proof fn lemma_well_formed(&self)
        requires
            self.program@.well_labelled(),
        ensures
            self.instance().well_formed(),
    {
        let p = self.instance();
        let s = self.program@;
        s.lemma_flow_labelled();
        s.lemma_init_labelled();
        s.lemma_finite();
        assert forall|l: Label| #[trigger] p.extremal.contains(l) implies p.labels().contains(
            l,
        ) by {
            let k = choose|k: int| 0 <= k < p.extremal.len() && p.extremal[k] == l;
        }
        assert forall|b: Elem| #[trigger] s.blocks().contains(b) implies (p.gen)(b).subset_of(
            p.universe,
        ) by {
            s.lemma_block(b);
        }
    }
}

impl Framework<ArithmeticExpression> for AvailableExpressions {
    open spec fn instance(&self) -> Instance<Arith> {
        Instance {
            program: self.program@,
            backwards: false,
            edges: self.program@.flow(),
            extremal: seq![self.program@.init()],
            extremal_value: Set::empty(),
            initial_value: self.program@.complex(),
            must: true,
            gen: |b: Elem| Self::gens(b),
            kill: |b: Elem| Self::kills(self.program@, b),
            universe: self.program@.complex(),
        }
    }

    fn get_program(&self) -> (program: Box<Program>) {
        self.program.clone()
    }

    fn is_backwards(&self) -> (b: bool) {
        false
    }

    fn get_f(&self) -> (f: Vec<Edge>) {
        flow(self.program.clone())
    }

    fn get_e(&self) -> (e: Vec<Label>) {
        let mut e = Vec::new();
        e.push(init(self.program.clone()));
        assert(e@ =~= seq![self.program@.init()]);
        e
    }

    fn get_initial_e(&self) -> (facts: FactSet<ArithmeticExpression>) {
        FactSet::new()
    }

    fn get_initial_others(&self) -> (facts: FactSet<ArithmeticExpression>) {
        complex_expressions_stmt(self.program.clone())
    }

    fn set_compare(
        &self,
        set1: FactSet<ArithmeticExpression>,
        set2: FactSet<ArithmeticExpression>,
    ) -> (b: bool) {
        set2.is_subset(&set1)
    }

    fn set_union(
        &self,
        set1: FactSet<ArithmeticExpression>,
        set2: FactSet<ArithmeticExpression>,
    ) -> (r: FactSet<ArithmeticExpression>) {
        intersection(set1, set2)
    }

    fn kill(&self, block: Box<Block>) -> (facts: FactSet<ArithmeticExpression>) {
        match *block {
            Block::AssignmentStmt(AssignmentStmt { name, exp: _, label: _ }) => {
                expressions_mentioning(complex_expressions_stmt(self.program.clone()), &name, true)
            },
            _ => FactSet::new(),
        }
    }

    fn gen(&self, block: Box<Block>) -> (facts: FactSet<ArithmeticExpression>) {
        match *block {
            Block::AssignmentStmt(AssignmentStmt { name, exp, label: _ }) => {
                expressions_mentioning(complex_expressions_e(exp), &name, false)
            },
            _ => FactSet::new(),
        }
    }
}

} // verus!
