//! Backward chaining: a search from the query back to the facts, through
//! the clauses that conclude each goal, which never re-enters a goal that
//! it is already trying to prove.

use crate::solver::entailment::{
    lemma_search_blocked, lemma_search_fact, lemma_search_fails, lemma_search_succeeds,
    lemma_without_nothing, Clause, Symbol, Theory,
};
use crate::solver::knowledge_base::symbols::{list_contains, names};
use crate::solver::knowledge_base::{listed, KnowledgeBase};
use vstd::prelude::*;

verus! {

/// The working state of one search: the goals that are being proved, from
/// the query down to the current one.
pub struct Toolbox {
    reached: Vec<String>,
}

impl Toolbox {
    /// The goals being proved, the query first.
    pub closed spec fn trail(&self) -> Seq<Symbol> {
        Seq::new(self.reached@.len(), |i: int| self.reached@[i]@)
    }

    /// The goals being proved, as a set.
    pub open spec fn on_path(&self) -> Set<Symbol> {
        self.trail().to_set()
    }

    /// The state before the search starts: no goal is being proved yet.
    pub fn generate(kb: &KnowledgeBase, query: &String) -> (tb: Self)
        ensures
            tb.trail() == Seq::<Symbol>::empty(),
    {
        let tb = Toolbox { reached: Vec::new() };
        assert(tb.trail() =~= Seq::<Symbol>::empty());
        tb
    }

    /// Whether `symbol` is one of the goals being proved.
    pub fn already_reached(&mut self, symbol: &String) -> (reached: bool)
        ensures
            final(self).trail() == old(self).trail(),
            reached == old(self).on_path().contains(symbol@),
    {
        let reached = list_contains(&self.reached, symbol);
        proof {
            let trail = self.trail();
            if reached {
                let i = choose|i: int|
                    0 <= i < self.reached@.len() && (#[trigger] self.reached@[i])@ == symbol@;
                assert(trail[i] == symbol@);
            }
            if trail.contains(symbol@) {
                let i = choose|i: int| 0 <= i < trail.len() && trail[i] == symbol@;
                assert(self.reached@[i]@ == symbol@);
            }
        }
        reached
    }

    /// Enters `symbol` as the goal now being proved.
    pub fn set_reached(&mut self, symbol: &String)
        ensures
            final(self).trail() == old(self).trail().push(symbol@),
    {
        self.reached.push(symbol.clone());
        assert(self.trail() =~= old(self).trail().push(symbol@));
    }

    /// Leaves the goal that was entered last.
    pub fn leave(&mut self)
        requires
            old(self).trail().len() > 0,
        ensures
            final(self).trail() == old(self).trail().drop_last(),
    {
        self.reached.pop();
        assert(self.trail() =~= old(self).trail().drop_last());
    }
}

/// The symbols that some clause concludes and that are not being proved.
pub open spec fn open_goals(kb: &KnowledgeBase, tb: &Toolbox) -> Set<Symbol> {
    kb.clause_seq().map_values(|c: Clause| c.conclusion).to_set().difference(tb.on_path())
}

/// Entering a goal that a clause concludes leaves fewer open goals.
pub proof fn lemma_fewer_open_goals(kb: &KnowledgeBase, before: &Toolbox, after: &Toolbox, i: int)
    requires
        0 <= i < kb.clause_seq().len(),
        !before.on_path().contains(kb.clause_seq()[i].conclusion),
        after.trail() == before.trail().push(kb.clause_seq()[i].conclusion),
    ensures
        open_goals(kb, before).finite(),
        open_goals(kb, after).len() < open_goals(kb, before).len(),
        after.on_path() == before.on_path().insert(kb.clause_seq()[i].conclusion),
{
    broadcast use vstd::seq_lib::group_seq_properties;

    let g = kb.clause_seq()[i].conclusion;
    let heads = kb.clause_seq().map_values(|c: Clause| c.conclusion);
    assert(heads[i] == g);
    assert(heads.to_set().contains(g));
    assert(heads.to_set().finite());
    assert(after.on_path() =~= before.on_path().insert(g)) by {
        assert forall|s: Symbol| after.on_path().contains(s) <==> before.on_path().insert(
            g,
        ).contains(s) by {
            if after.trail().contains(s) {
                let k = choose|k: int| 0 <= k < after.trail().len() && after.trail()[k] == s;
                if k < before.trail().len() {
                    assert(before.trail()[k] == s);
                }
            }
            if before.trail().contains(s) {
                let k = choose|k: int| 0 <= k < before.trail().len() && before.trail()[k] == s;
                assert(after.trail()[k] == s);
            }
            if s == g {
                assert(after.trail()[before.trail().len() as int] == s);
            }
        }
    }
    assert(open_goals(kb, after) =~= open_goals(kb, before).remove(g));
}

/// Some premise of `c` is not derived from the part of the theory that does
/// not touch `path`.
pub open spec fn blocked(t: Theory, path: Set<Symbol>, c: Clause) -> bool {
    exists|p: Symbol| #[trigger] c.premises.contains(p) && !t.without(path).derives(p)
}

/// Whether every symbol of `premises` is derived from the part of the
/// knowledge base that does not touch the goals being proved. The goals
/// being proved are the same after the call as before it.
pub fn and_search(premises: &Vec<String>, kb: &KnowledgeBase, tb: &mut Toolbox, debug: bool) -> (proved: bool)
    requires
        kb.wf(),
    ensures
        final(tb).trail() == old(tb).trail(),
        proved == forall|p: Symbol| #[trigger]
            names(premises@).contains(p) ==> kb@.without(old(tb).on_path()).derives(p),
    decreases open_goals(kb, old(tb)).len(), 1nat, 0nat,
{
    let mut i: usize = 0;
    while i < premises.len()
        invariant
            kb.wf(),
            i <= premises.len(),
            tb.trail() == old(tb).trail(),
            forall|k: int|
                0 <= k < i ==> kb@.without(old(tb).on_path()).derives(
                    (#[trigger] premises@[k])@,
                ),
        decreases premises.len() - i,
    {
        if !or_search(&premises[i], kb, tb, debug) {
            assert(names(premises@).contains(premises@[i as int]@));
            return false;
        }
        i += 1;
    }
    true
}

/// Whether `goal` is derived from the part of the knowledge base that does
/// not touch the goals being proved: never where `goal` is itself being
/// proved, always where it is a fact, and else where some clause concludes
/// it from premises that are derived without touching `goal` either. The
/// goals being proved are the same after the call as before it.
pub fn or_search(goal: &String, kb: &KnowledgeBase, tb: &mut Toolbox, debug: bool) -> (proved: bool)
    requires
        kb.wf(),
    ensures
        final(tb).trail() == old(tb).trail(),
        proved == kb@.without(old(tb).on_path()).derives(goal@),
    decreases open_goals(kb, old(tb)).len(), 0nat, 0nat,
{
    let ghost path = tb.on_path();
    if tb.already_reached(goal) {
        proof {
            lemma_search_blocked(kb@, path, goal@);
        }
        return false;
    }
    if kb.symbols_contain(goal) {
        proof {
            lemma_search_fact(kb@, path, goal@);
        }
        return true;
    }
    let implications = kb.iterate_implications();
    let ids = kb.implications_concluding(goal);
    let ghost cs = kb.clause_seq();
    let ghost outer = *tb;
    tb.set_reached(goal);
    let ghost inner = *tb;
    let mut k: usize = 0;
    while k < ids.len()
        invariant
            kb.wf(),
            k <= ids.len(),
            cs == kb.clause_seq(),
            tb.trail() == inner.trail(),
            inner.trail() == outer.trail().push(goal@),
            outer.trail() == old(tb).trail(),
            path == outer.on_path(),
            !path.contains(goal@),
            implications@.len() == cs.len(),
            forall|i: int|
                0 <= i < implications@.len() ==> (#[trigger] implications@[i])@ == cs[i]
                    && implications@[i].wf(),
            forall|m: int|
                0 <= m < ids@.len() ==> (#[trigger] ids@[m]) < cs.len() && cs[ids@[m] as int].conclusion
                    == goal@,
            forall|m: int|
                0 <= m < k ==> blocked(kb@, path.insert(goal@), cs[(#[trigger] ids@[m]) as int]),
        decreases ids.len() - k,
    {
        let i = ids[k];
        let premises = implications[i].iterate_premises();
        proof {
            lemma_fewer_open_goals(kb, &outer, &inner, i as int);
            kb.lemma_clause_seq();
        }
        if and_search(premises, kb, tb, debug) {
            tb.leave();
            proof {
                assert(tb.trail() =~= old(tb).trail());
                lemma_search_succeeds(kb@, path, goal@, cs[i as int]);
            }
            return true;
        }
        proof {
            let p = choose|p: Symbol| #[trigger]
                names(premises@).contains(p) && !kb@.without(inner.on_path()).derives(p);
            assert(cs[i as int].premises.contains(p));
        }
        k += 1;
    }
    tb.leave();
    proof {
        assert(tb.trail() =~= old(tb).trail());
        kb.lemma_clause_seq();
        assert forall|c: Clause| #[trigger]
            kb@.clauses.contains(c) && c.conclusion == goal@ implies exists|p: Symbol| #[trigger]
            c.premises.contains(p) && !kb@.without(path.insert(goal@)).derives(p) by {
            let i = choose|i: int| 0 <= i < cs.len() && #[trigger] cs[i] == c;
            assert(listed(ids@, i));
            let m = choose|m: int| 0 <= m < ids@.len() && #[trigger] ids@[m] == i;
            assert(blocked(kb@, path.insert(goal@), cs[ids@[m] as int]));
        }
        lemma_search_fails(kb@, path, goal@);
    }
    false
}

/// Decides whether `q` has a derivation from the knowledge base, by
/// backward chaining. The answer does not depend on `debug`.
pub fn backward_chaining(q: &String, kb: &KnowledgeBase, debug: bool) -> (derived: bool)
    requires
        kb.wf(),
    ensures
        derived == kb@.derives(q@),
{
    let mut tb = Toolbox::generate(kb, q);
    proof {
        assert(tb.on_path() =~= Set::<Symbol>::empty());
        lemma_without_nothing(kb@);
    }
    or_search(q, kb, &mut tb, debug)
}

} // verus!
