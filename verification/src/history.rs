//! The record of a deduction's rounds.
use crate::deductions::Deduction;
use crate::fixpoint::DeductionView;
use vstd::prelude::*;

verus! {

/// The states that a deduction went through, oldest first. A state, once
/// recorded, is never changed or removed.
#[derive(Debug)]
pub struct EvaluationHistory {
    old_deduction_stacks: Vec<Deduction>,
}

impl View for EvaluationHistory {
    type V = Seq<DeductionView>;

    closed spec fn view(&self) -> Seq<DeductionView> {
        Seq::new(self.old_deduction_stacks@.len(), |i: int| self.old_deduction_stacks@[i]@)
    }
}

impl EvaluationHistory {
    /// The empty history.
    pub fn new() -> (history: Self)
        ensures
            history@ == Seq::<DeductionView>::empty(),
    {
        let history = EvaluationHistory { old_deduction_stacks: Vec::new() };
        assert(history@ =~= Seq::<DeductionView>::empty());
        history
    }

    /// Records a state after those recorded before.
    pub fn push(&mut self, deduction: Deduction)
        ensures
            final(self)@ == old(self)@.push(deduction@),
    {
        self.old_deduction_stacks.push(deduction);
        assert(self@ =~= old(self)@.push(deduction@));
    }

    /// The number of states recorded.
    pub fn len(&self) -> (count: usize)
        ensures
            count == self@.len(),
    {
        self.old_deduction_stacks.len()
    }

    /// The state recorded at the given place, counted from zero.
    pub fn get(&self, index: usize) -> (deduction: Option<&Deduction>)
        ensures
            match deduction {
                Some(deduction) => index < self@.len() && deduction@ == self@[index as int],
                None => index >= self@.len(),
            },
    {
        if index < self.old_deduction_stacks.len() {
            Some(&self.old_deduction_stacks[index])
        } else {
            None
        }
    }
}

} // verus!
