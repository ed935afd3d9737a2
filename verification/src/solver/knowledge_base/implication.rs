//! A definite clause as the knowledge base stores it.

use crate::solver::entailment::{Clause, Symbol};
use crate::solver::knowledge_base::symbols::{
    distinct, lemma_names_len, lemma_names_push, list_contains, list_within, names,
};
use vstd::prelude::*;
use vstd::std_specs::cmp::PartialEqSpecImpl;

verus! {

/// An implication from a set of premises to one conclusion. The premises
/// are kept in the order in which they were added, each once; two
/// implications are the same where their views are.
#[derive(Debug)]
pub struct Implication {
    premise: Vec<String>,
    conclusion: String,
}

impl View for Implication {
    type V = Clause;

    closed spec fn view(&self) -> Clause {
        Clause { premises: names(self.premise@), conclusion: self.conclusion@ }
    }
}

impl PartialEq for Implication {
    /// Whether the two are the same clause: the same set of premises, in
    /// whatever order, and the same conclusion.
    fn eq(&self, other: &Implication) -> (same: bool) {
        let same = self.conclusion == other.conclusion && list_within(&self.premise, &other.premise)
            && list_within(&other.premise, &self.premise);
        assert(same == (self@ == other@)) by {
            if same {
                assert(self@.premises =~= other@.premises);
            }
        }
        same
    }
}

impl PartialEqSpecImpl for Implication {
    open spec fn obeys_eq_spec() -> bool {
        true
    }

    open spec fn eq_spec(&self, other: &Implication) -> bool {
        self@ == other@
    }
}

impl Eq for Implication {

}

impl Implication {
    /// No premise is stored twice.
    pub closed spec fn wf(&self) -> bool {
        distinct(self.premise@)
    }

    /// The premises are finitely many.
    pub proof fn lemma_finite(&self)
        ensures
            self@.premises.finite(),
    {
        lemma_names_len(self.premise@);
    }

    /// An implication without premises and with the empty name as its
    /// conclusion.
    pub fn new() -> (created: Self)
        ensures
            created.wf(),
            created@.premises == Set::<Symbol>::empty(),
            created@.conclusion == Seq::<char>::empty(),
    {
        let created = Implication { premise: Vec::new(), conclusion: String::new() };
        assert(created@.premises =~= Set::<Symbol>::empty());
        created
    }

    /// The number of premises.
    pub fn premise_count(&self) -> (n: usize)
        requires
            self.wf(),
        ensures
            n == self@.premises.len(),
    {
        proof {
            lemma_names_len(self.premise@);
        }
        self.premise.len()
    }

    /// The number of premises, for a clause that has at most 65535.
    pub fn get_premises_number(&self) -> (n: u16)
        requires
            self.wf(),
            self@.premises.len() <= u16::MAX,
        ensures
            n == self@.premises.len(),
    {
        let len: usize = self.premise_count();
        len as u16
    }

    /// The premises, each once, in the order in which they were added.
    pub fn iterate_premises(&self) -> (premises: &Vec<String>)
        requires
            self.wf(),
        ensures
            distinct(premises@),
            names(premises@) == self@.premises,
    {
        &self.premise
    }

    /// Adds a premise; one that is already there is not added again.
    pub fn add_premise(&mut self, new_premise: String)
        requires
            old(self).wf(),
        ensures
            final(self).wf(),
            final(self)@.premises == old(self)@.premises.insert(new_premise@),
            final(self)@.conclusion == old(self)@.conclusion,
    {
        if list_contains(&self.premise, &new_premise) {
            assert(self@.premises.insert(new_premise@) =~= self@.premises);
        } else {
            proof {
                lemma_names_push(self.premise@, new_premise);
            }
            self.premise.push(new_premise);
        }
    }

    /// Replaces the conclusion.
    pub fn set_conclusion(&mut self, new_conclusion: String)
        requires
            old(self).wf(),
        ensures
            final(self).wf(),
            final(self)@.premises == old(self)@.premises,
            final(self)@.conclusion == new_conclusion@,
    {
        self.conclusion = new_conclusion;
    }

    /// A copy of the conclusion.
    pub fn get_conclusion(&self) -> (conclusion: String)
        ensures
            conclusion@ == self@.conclusion,
    {
        self.conclusion.clone()
    }

    /// Whether `symbol` is one of the premises.
    pub fn premise_contains(&self, symbol: &String) -> (found: bool)
        ensures
            found == self@.premises.contains(symbol@),
    {
        list_contains(&self.premise, symbol)
    }

    /// Whether `symbol` is the conclusion.
    pub fn is_conclusion(&self, symbol: &String) -> (same: bool)
        ensures
            same == (self@.conclusion == symbol@),
    {
        self.conclusion == *symbol
    }

    /// Whether the two implications are the same clause: the same set of
    /// premises, in whatever order, and the same conclusion.
    pub fn same_as(&self, other: &Implication) -> (same: bool)
        requires
            self.wf(),
            other.wf(),
        ensures
            same == (self@ == other@),
    {
        proof {
            lemma_names_len(self.premise@);
            lemma_names_len(other.premise@);
        }
        if !(self.conclusion == other.conclusion) || self.premise.len() != other.premise.len() {
            return false;
        }
        let mut i: usize = 0;
        while i < self.premise.len()
            invariant
                i <= self.premise.len(),
                forall|k: int|
                    0 <= k < i ==> names(other.premise@).contains((#[trigger] self.premise@[k])@),
            decreases self.premise.len() - i,
        {
            if !list_contains(&other.premise, &self.premise[i]) {
                assert(names(self.premise@).contains(self.premise@[i as int]@));
                return false;
            }
            i += 1;
        }
        proof {
            assert(names(self.premise@).subset_of(names(other.premise@)));
            vstd::set_lib::lemma_subset_equality(names(self.premise@), names(other.premise@));
        }
        true
    }
}

} // verus!
