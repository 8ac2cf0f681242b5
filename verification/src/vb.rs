//! Very busy expressions: a backward must analysis over the binary arithmetic
//! expressions of the program.

use crate::abstract_syntax::{
    ArithmeticExpression, AssignmentStmt, Block, Condition, Label, Program,
};
use crate::fact_set::FactSet;
use crate::framework::Framework;
use crate::lattice::Instance;
use crate::model::{mentioning, Arith, Edge, Elem, Stmt};
use crate::utils::{
    complex_expressions_be, complex_expressions_e, complex_expressions_stmt,
    expressions_mentioning, finals, flow_r, intersection,
};
use vstd::prelude::*;

verus! {

pub struct VeryBusyExpressions {
    pub program: Box<Program>,
}

impl VeryBusyExpressions {
    /// An assignment kills the expressions of the program that read the
    /// variable it writes.
    pub open spec fn kills(program: Stmt, b: Elem) -> Set<Arith> {
        match b {
            Elem::Assign(a) => mentioning(program.complex(), a.name, true),
            _ => Set::empty(),
        }
    }

    /// A block generates the expressions it evaluates.
    pub open spec fn gens(b: Elem) -> Set<Arith> {
        b.complex()
    }

    /// On a program with unique labels the analysis is an instance the solver
    /// accepts.
    pub proof fn lemma_well_formed(&self)
        requires
            self.program@.well_labelled(),
        ensures
            self.instance().well_formed(),
    {
        let p = self.instance();
        let s = self.program@;
        s.lemma_flow_r_labelled();
        s.lemma_finals_labelled();
        s.lemma_finite();
        assert forall|b: Elem| #[trigger] s.blocks().contains(b) implies (p.gen)(b).subset_of(
            p.universe,
        ) by {
            s.lemma_block(b);
        }
    }
}

impl Framework<ArithmeticExpression> for VeryBusyExpressions {
    open spec fn instance(&self) -> Instance<Arith> {
        Instance {
            program: self.program@,
            backwards: true,
            edges: self.program@.flow_r(),
            extremal: self.program@.finals(),
            extremal_value: Set::empty(),
            initial_value: self.program@.complex(),
            must: true,
            gen: |b: Elem| Self::gens(b),
            kill: |b: Elem| Self::kills(self.program@, b),
            universe: self.program@.complex(),
        }
    }

    fn get_program(&self) -> (program: Box<Program>) {
        self.program.clone()
    }

    fn is_backwards(&self) -> (b: bool) {
        true
    }

    fn get_f(&self) -> (f: Vec<Edge>) {
        flow_r(self.program.clone())
    }

    fn get_e(&self) -> (e: Vec<Label>) {
        finals(self.program.clone())
    }

    fn get_initial_e(&self) -> (facts: FactSet<ArithmeticExpression>) {
        FactSet::new()
    }

    fn get_initial_others(&self) -> (facts: FactSet<ArithmeticExpression>) {
        complex_expressions_stmt(self.program.clone())
    }

    fn set_compare(
        &self,
        set1: FactSet<ArithmeticExpression>,
        set2: FactSet<ArithmeticExpression>,
    ) -> (b: bool) {
        set2.is_subset(&set1)
    }

    fn set_union(
        &self,
        set1: FactSet<ArithmeticExpression>,
        set2: FactSet<ArithmeticExpression>,
    ) -> (r: FactSet<ArithmeticExpression>) {
        intersection(set1, set2)
    }

    fn kill(&self, block: Box<Block>) -> (facts: FactSet<ArithmeticExpression>) {
        match *block {
            Block::AssignmentStmt(AssignmentStmt { name, exp: _, label: _ }) => {
                expressions_mentioning(complex_expressions_stmt(self.program.clone()), &name, true)
            },
            _ => FactSet::new(),
        }
    }

    fn gen(&self, block: Box<Block>) -> (facts: FactSet<ArithmeticExpression>) {
        match *block {
            Block::AssignmentStmt(AssignmentStmt { name: _, exp, label: _ }) => {
                complex_expressions_e(exp)
            },
            Block::Condition(Condition { exp, label: _ }) => complex_expressions_be(exp),
            _ => FactSet::new(),
        }
    }
}

} // verus!
