//! Variables and linear combinations, the language constraints are
//! written in.

use vstd::prelude::*;
use crate::field::Fr;

verus! {

/// Where a variable's value lives: the public-input vector or the
/// auxiliary (witness) vector. Indices are dense, in allocation order.
#[derive(Clone, Copy, PartialEq, Eq, Structural, Debug)]
pub enum Index {
    Input(usize),
    Aux(usize),
}

/// A handle to an allocated variable.
#[derive(Clone, Copy, PartialEq, Eq, Structural, Debug)]
pub struct Variable(pub Index);

/// An ordered sequence of (variable, coefficient) pairs; duplicates are
/// allowed and are summed when the combination is evaluated.
#[derive(Clone, Debug)]
pub struct LinearCombination(pub Vec<(Variable, Fr)>);

impl LinearCombination {
    /// The view of a combination: its terms in order.
    pub open spec fn view(&self) -> Seq<(Variable, Fr)> {
        self.0@
    }

    /// Every coefficient is a reduced field element.
    pub open spec fn wf(&self) -> bool {
        forall|k: int| 0 <= k < self@.len() ==> (#[trigger] self@[k]).1.wf()
    }

    /// Every variable mentioned was allocated: its index is within the
    /// assignment vector of its kind.
    pub open spec fn in_bounds(&self, num_inputs: int, num_aux: int) -> bool {
        forall|k: int|
            0 <= k < self@.len() ==> match (#[trigger] self@[k]).0.0 {
                Index::Input(i) => i < num_inputs,
                Index::Aux(i) => i < num_aux,
            }
    }

    pub fn zero() -> (r: LinearCombination)
        ensures
            r@ =~= Seq::<(Variable, Fr)>::empty(),
            r.wf(),
    {
        LinearCombination(Vec::new())
    }

    /// Append one term.
    pub fn add_term(&mut self, var: Variable, coeff: Fr)
        requires
            old(self).wf(),
            coeff.wf(),
        ensures
            final(self).wf(),
            final(self)@ =~= old(self)@.push((var, coeff)),
    {
        self.0.push((var, coeff));
    }
}

} // verus!
