//! Forward chaining: truth is propagated from the facts through the
//! clauses until the query is met or nothing new can be concluded.

use crate::solver::entailment::{lemma_entails_step, lemma_given_entailed, Clause, Symbol};
use crate::solver::knowledge_base::symbols::{lemma_names_push, list_contains, names};
use crate::solver::knowledge_base::{listed, KnowledgeBase};
use std::collections::VecDeque;
use vstd::prelude::*;

verus! {

/// The sum of the counters.
pub open spec fn total(counts: Seq<usize>) -> int
    decreases counts.len(),
{
    if counts.len() == 0 {
        0
    } else {
        total(counts.drop_last()) + counts.last()
    }
}

/// A sum of counters is not negative.
pub proof fn lemma_total_nonnegative(counts: Seq<usize>)
    ensures
        total(counts) >= 0,
    decreases counts.len(),
{
    if counts.len() > 0 {
        lemma_total_nonnegative(counts.drop_last());
    }
}

/// Changing one counter changes the sum by the difference.
pub proof fn lemma_total_update(counts: Seq<usize>, i: int, v: usize)
    requires
        0 <= i < counts.len(),
    ensures
        total(counts.update(i, v)) == total(counts) - counts[i] + v,
    decreases counts.len(),
{
    let changed = counts.update(i, v);
    if i == counts.len() - 1 {
        assert(changed.drop_last() =~= counts.drop_last());
    } else {
        assert(changed.drop_last() =~= counts.drop_last().update(i, v));
        lemma_total_update(counts.drop_last(), i, v);
    }
}

/// What a sequence holds after one more entry was appended.
pub proof fn lemma_push_contains(s: Seq<Symbol>, x: Symbol)
    ensures
        forall|y: Symbol| #[trigger] s.push(x).contains(y) <==> s.contains(y) || y == x,
        forall|y: Symbol| #[trigger] s.contains(y) ==> s.push(x).contains(y),
{
    let w = s.push(x);
    assert forall|y: Symbol| #[trigger] w.contains(y) <==> s.contains(y) || y == x by {
        if w.contains(y) {
            let i = choose|i: int| 0 <= i < w.len() && w[i] == y;
            if i < s.len() {
                assert(s[i] == y);
            }
        }
        if s.contains(y) {
            let i = choose|i: int| 0 <= i < s.len() && s[i] == y;
            assert(w[i] == y);
        }
        if y == x {
            assert(w[s.len() as int] == y);
        }
    }
}

/// What two sequences hold when one is put behind the other.
pub proof fn lemma_concat_contains(a: Seq<Symbol>, b: Seq<Symbol>, y: Symbol)
    ensures
        (a + b).contains(y) <==> a.contains(y) || b.contains(y),
{
    let w = a + b;
    if w.contains(y) {
        let i = choose|i: int| 0 <= i < w.len() && w[i] == y;
        if i < a.len() {
            assert(a[i] == y);
        } else {
            assert(b[i - a.len()] == y);
        }
    }
    if a.contains(y) {
        let i = choose|i: int| 0 <= i < a.len() && a[i] == y;
        assert(w[i] == y);
    }
    if b.contains(y) {
        let i = choose|i: int| 0 <= i < b.len() && b[i] == y;
        assert(w[i + a.len()] == y);
    }
}

/// What a sequence holds besides its first entry.
pub proof fn lemma_tail_contains(s: Seq<Symbol>)
    requires
        s.len() > 0,
    ensures
        forall|y: Symbol| #[trigger]
            s.contains(y) <==> y == s[0] || s.subrange(1, s.len() as int).contains(y),
        forall|y: Symbol| #[trigger] s.subrange(1, s.len() as int).contains(y) ==> s.contains(y),
{
    let t = s.subrange(1, s.len() as int);
    assert forall|y: Symbol| #[trigger] s.contains(y) <==> y == s[0] || t.contains(y) by {
        if s.contains(y) {
            let i = choose|i: int| 0 <= i < s.len() && s[i] == y;
            if i > 0 {
                assert(t[i - 1] == y);
            }
        }
        if t.contains(y) {
            let i = choose|i: int| 0 <= i < t.len() && t[i] == y;
            assert(s[i + 1] == y);
        }
    }
}

/// The conclusions of the clauses without premises, in the order of the
/// clauses.
pub open spec fn given_heads(clauses: Seq<Clause>) -> Seq<Symbol>
    decreases clauses.len(),
{
    if clauses.len() == 0 {
        Seq::empty()
    } else if clauses.last().premises.len() == 0 {
        given_heads(clauses.drop_last()).push(clauses.last().conclusion)
    } else {
        given_heads(clauses.drop_last())
    }
}

/// `given_heads` holds the conclusion of each clause without premises, and
/// nothing else.
pub proof fn lemma_given_heads(clauses: Seq<Clause>)
    ensures
        forall|s: Symbol| #[trigger]
            given_heads(clauses).contains(s) <==> exists|j: int|
                0 <= j < clauses.len() && (#[trigger] clauses[j]).premises.len() == 0
                    && clauses[j].conclusion == s,
    decreases clauses.len(),
{
    if clauses.len() > 0 {
        let front = clauses.drop_last();
        lemma_given_heads(front);
        lemma_push_contains(given_heads(front), clauses.last().conclusion);
        assert forall|s: Symbol| #[trigger]
            given_heads(clauses).contains(s) <==> exists|j: int|
                0 <= j < clauses.len() && (#[trigger] clauses[j]).premises.len() == 0
                    && clauses[j].conclusion == s by {
            if given_heads(clauses).contains(s) {
                if given_heads(front).contains(s) {
                    let j = choose|j: int|
                        0 <= j < front.len() && (#[trigger] front[j]).premises.len() == 0
                            && front[j].conclusion == s;
                    assert(clauses[j] == front[j]);
                } else {
                    assert(clauses[clauses.len() - 1].conclusion == s);
                }
            }
            if exists|j: int|
                0 <= j < clauses.len() && (#[trigger] clauses[j]).premises.len() == 0
                    && clauses[j].conclusion == s {
                let j = choose|j: int|
                    0 <= j < clauses.len() && (#[trigger] clauses[j]).premises.len() == 0
                        && clauses[j].conclusion == s;
                if j < front.len() {
                    assert(front[j] == clauses[j]);
                }
            }
        }
    }
}

/// The working state of one run: for each clause, by its number in the
/// knowledge base, how many of its premises are still unproved; the symbols
/// that were processed; and the queue of symbols known true and waiting.
pub struct Toolbox {
    count: Vec<usize>,
    inferred: Vec<String>,
    queue: VecDeque<String>,
}

impl Toolbox {
    /// The counter of each clause.
    pub closed spec fn remaining(&self) -> Seq<usize> {
        self.count@
    }

    /// The symbols marked as inferred.
    pub closed spec fn inferred(&self) -> Set<Symbol> {
        names(self.inferred@)
    }

    /// The waiting symbols, the next one first.
    pub closed spec fn frontier(&self) -> Seq<Symbol> {
        Seq::new(self.queue@.len(), |i: int| self.queue@[i]@)
    }

    /// The state before the first step: each counter is the number of
    /// premises of its clause, nothing is inferred, and the queue holds what
    /// is given outright: the facts, then the conclusions of the clauses
    /// without premises.
    pub fn generate(kb: &KnowledgeBase) -> (tb: Self)
        requires
            kb.wf(),
        ensures
            tb.remaining().len() == kb.clause_seq().len(),
            forall|i: int|
                0 <= i < kb.clause_seq().len() ==> (#[trigger] tb.remaining()[i])
                    == kb.clause_seq()[i].premises.len(),
            tb.inferred() == Set::<Symbol>::empty(),
            tb.frontier() == kb.fact_seq() + given_heads(kb.clause_seq()),
            forall|s: Symbol| #[trigger] tb.frontier().contains(s) <==> kb@.given(s),
    {
        let implications = kb.iterate_implications();
        let symbols = kb.iterate_symbols();
        let mut tb = Toolbox { count: Vec::new(), inferred: Vec::new(), queue: VecDeque::new() };
        assert(tb.inferred() =~= Set::<Symbol>::empty());
        let mut k: usize = 0;
        while k < symbols.len()
            invariant
                k <= symbols.len(),
                tb.count@.len() == 0,
                tb.inferred@.len() == 0,
                symbols@.len() == kb.fact_seq().len(),
                forall|i: int|
                    0 <= i < symbols@.len() ==> (#[trigger] symbols@[i])@ == kb.fact_seq()[i],
                tb.frontier() == kb.fact_seq().subrange(0, k as int),
            decreases symbols.len() - k,
        {
            let ghost before = tb.frontier();
            tb.queue.push_back(symbols[k].clone());
            assert(tb.frontier() =~= before.push(symbols@[k as int]@));
            assert(tb.frontier() =~= kb.fact_seq().subrange(0, k + 1));
            k += 1;
        }
        assert(kb.fact_seq().subrange(0, k as int) =~= kb.fact_seq());
        let ghost cs = kb.clause_seq();
        let mut i: usize = 0;
        assert(tb.frontier() =~= kb.fact_seq() + given_heads(cs.subrange(0, 0)));
        while i < implications.len()
            invariant
                i <= implications.len(),
                cs == kb.clause_seq(),
                tb.count@.len() == i,
                tb.inferred@.len() == 0,
                implications@.len() == cs.len(),
                forall|j: int|
                    0 <= j < implications@.len() ==> (#[trigger] implications@[j])@ == cs[j],
                forall|j: int| 0 <= j < implications@.len() ==> (#[trigger] implications@[j]).wf(),
                forall|j: int| 0 <= j < i ==> (#[trigger] tb.count@[j]) == cs[j].premises.len(),
                tb.frontier() == kb.fact_seq() + given_heads(cs.subrange(0, i as int)),
            decreases implications.len() - i,
        {
            let ghost before = tb.frontier();
            let n = implications[i].premise_count();
            tb.count.push(n);
            proof {
                assert(cs.subrange(0, i + 1).drop_last() =~= cs.subrange(0, i as int));
                assert(cs.subrange(0, i + 1).last() == cs[i as int]);
            }
            if n == 0 {
                let conclusion = implications[i].get_conclusion();
                tb.queue.push_back(conclusion);
                assert(tb.frontier() =~= before.push(conclusion@));
                assert(tb.frontier() =~= kb.fact_seq() + given_heads(cs.subrange(0, i + 1)));
            }
            i += 1;
        }
        proof {
            assert(cs.subrange(0, i as int) =~= cs);
            lemma_given_heads(cs);
            kb.lemma_clause_seq();
            kb.lemma_fact_seq();
            let heads = given_heads(cs);
            assert forall|s: Symbol| #[trigger] tb.frontier().contains(s) <==> kb@.given(s) by {
                lemma_concat_contains(kb.fact_seq(), heads, s);
                if heads.contains(s) {
                    let j = choose|j: int|
                        0 <= j < cs.len() && (#[trigger] cs[j]).premises.len() == 0
                            && cs[j].conclusion == s;
                    cs[j].premises.lemma_len0_is_empty();
                    assert(kb@.clauses.contains(cs[j]));
                }
                if kb@.given(s) && !kb@.facts.contains(s) {
                    let c = choose|c: Clause|
                        #[trigger] kb@.clauses.contains(c) && c.premises =~= Set::<Symbol>::empty()
                            && c.conclusion == s;
                    let j = choose|j: int| 0 <= j < cs.len() && #[trigger] cs[j] == c;
                    assert(cs[j].premises.len() == 0);
                }
            }
        }
        tb
    }

    /// Whether no symbol is waiting.
    pub fn is_queue_empty(&self) -> (empty: bool)
        ensures
            empty == (self.frontier().len() == 0),
    {
        self.queue.len() == 0
    }

    /// Takes the first waiting symbol off the queue, if there is one.
    pub fn pop_symbol(&mut self) -> (popped: Option<String>)
        ensures
            final(self).remaining() == old(self).remaining(),
            final(self).inferred() == old(self).inferred(),
            match popped {
                Some(symbol) => {
                    &&& old(self).frontier().len() > 0
                    &&& symbol@ == old(self).frontier()[0]
                    &&& final(self).frontier() == old(self).frontier().subrange(
                        1,
                        old(self).frontier().len() as int,
                    )
                },
                None => {
                    &&& old(self).frontier().len() == 0
                    &&& final(self).frontier() == old(self).frontier()
                },
            },
    {
        let popped = self.queue.pop_front();
        assert(self.frontier() =~= if popped.is_some() {
            old(self).frontier().subrange(1, old(self).frontier().len() as int)
        } else {
            old(self).frontier()
        });
        popped
    }

    /// Puts `symbol` at the end of the queue.
    pub fn push_symbol(&mut self, symbol: String)
        ensures
            final(self).remaining() == old(self).remaining(),
            final(self).inferred() == old(self).inferred(),
            final(self).frontier() == old(self).frontier().push(symbol@),
    {
        self.queue.push_back(symbol);
        assert(self.frontier() =~= old(self).frontier().push(symbol@));
    }

    /// Whether `symbol` is marked as inferred.
    pub fn is_already_inferred(&self, symbol: &String) -> (marked: bool)
        ensures
            marked == self.inferred().contains(symbol@),
    {
        list_contains(&self.inferred, symbol)
    }

    /// Marks `symbol` as inferred.
    pub fn set_inferred(&mut self, symbol: &String)
        ensures
            final(self).remaining() == old(self).remaining(),
            final(self).inferred() == old(self).inferred().insert(symbol@),
            final(self).frontier() == old(self).frontier(),
    {
        if list_contains(&self.inferred, symbol) {
            assert(self.inferred().insert(symbol@) =~= self.inferred());
        } else {
            let owned = symbol.clone();
            proof {
                lemma_names_push(self.inferred@, owned);
            }
            self.inferred.push(owned);
        }
    }

    /// Whether the counter of clause number `clause` stands at zero. A
    /// number that belongs to no clause has no counter, and none at zero.
    pub fn is_count_zero(&self, clause: usize) -> (zero: bool)
        ensures
            zero == (clause < self.remaining().len() && self.remaining()[clause as int] == 0),
    {
        clause < self.count.len() && self.count[clause] == 0
    }

    /// Lowers the counter of clause number `clause` by one. A number that
    /// belongs to no clause changes nothing.
    pub fn decrease_count(&mut self, clause: usize)
        requires
            clause < old(self).remaining().len() ==> old(self).remaining()[clause as int] > 0,
        ensures
            final(self).inferred() == old(self).inferred(),
            final(self).frontier() == old(self).frontier(),
            final(self).remaining() == if clause < old(self).remaining().len() {
                old(self).remaining().update(
                    clause as int,
                    (old(self).remaining()[clause as int] - 1) as usize,
                )
            } else {
                old(self).remaining()
            },
    {
        if clause < self.count.len() {
            let lowered: usize = self.count[clause] - 1;
            self.count.set(clause, lowered);
        }
    }
}

/// The number `i` is among the first `k` entries of `ids`.
pub open spec fn listed_before(ids: Seq<usize>, k: int, i: int) -> bool {
    exists|m: int| 0 <= m < k && #[trigger] ids[m] == i
}

/// The state of a run fits the knowledge base: each counter is the number
/// of premises of its clause that are not yet inferred, everything inferred
/// or waiting is entailed, every fact is inferred or waiting, and so is the
/// conclusion of every clause whose counter stands at zero.
pub open spec fn consistent(tb: &Toolbox, kb: &KnowledgeBase) -> bool {
    let cs = kb.clause_seq();
    &&& tb.remaining().len() == cs.len()
    &&& forall|i: int|
        0 <= i < cs.len() ==> (#[trigger] tb.remaining()[i]) == cs[i].premises.difference(
            tb.inferred(),
        ).len()
    &&& sound(tb, kb)
}

/// Everything inferred or waiting is entailed, every fact is inferred or
/// waiting, and so is the conclusion of every clause whose counter stands
/// at zero.
pub open spec fn sound(tb: &Toolbox, kb: &KnowledgeBase) -> bool {
    let cs = kb.clause_seq();
    &&& tb.remaining().len() == cs.len()
    &&& forall|s: Symbol| #[trigger] tb.frontier().contains(s) ==> kb@.entails(s)
    &&& forall|s: Symbol| #[trigger] tb.inferred().contains(s) ==> kb@.entails(s)
    &&& forall|s: Symbol| #[trigger]
        kb@.facts.contains(s) ==> tb.inferred().contains(s) || tb.frontier().contains(s)
    &&& forall|i: int|
        0 <= i < cs.len() && (#[trigger] tb.remaining()[i]) == 0 ==> tb.inferred().contains(
            cs[i].conclusion,
        ) || tb.frontier().contains(cs[i].conclusion)
}

/// A consistent state with an empty queue is a model of the knowledge base.
pub proof fn lemma_fixpoint_is_model(tb: &Toolbox, kb: &KnowledgeBase)
    requires
        kb.wf(),
        consistent(tb, kb),
        tb.frontier().len() == 0,
    ensures
        kb@.satisfied_by(tb.inferred()),
{
    let cs = kb.clause_seq();
    let m = tb.inferred();
    kb.lemma_clause_seq();
    assert forall|c: Clause| #[trigger]
        kb@.clauses.contains(c) && c.premises.subset_of(m) implies m.contains(c.conclusion) by {
        let i = choose|i: int| 0 <= i < cs.len() && #[trigger] cs[i] == c;
        assert(c.premises.difference(m) =~= Set::<Symbol>::empty());
        assert(tb.remaining()[i] == 0);
    }
}

/// Decides whether the knowledge base entails `q`, by forward chaining.
/// The answer does not depend on `debug`.
pub fn forward_chaining(q: &String, kb: &KnowledgeBase, debug: bool) -> (entailed: bool)
    requires
        kb.wf(),
    ensures
        entailed == kb@.entails(q@),
{
    let implications = kb.iterate_implications();
    let mut tb = Toolbox::generate(kb);
    proof {
        kb.lemma_clause_seq();
        let cs = kb.clause_seq();
        assert forall|i: int| 0 <= i < cs.len() implies (#[trigger] tb.remaining()[i])
            == cs[i].premises.difference(tb.inferred()).len() by {
            assert(cs[i].premises.difference(tb.inferred()) =~= cs[i].premises);
        }
        assert forall|s: Symbol| #[trigger] tb.frontier().contains(s) implies kb@.entails(s) by {
            lemma_given_entailed(kb@, s);
        }
        assert forall|i: int| 0 <= i < cs.len() && (#[trigger] tb.remaining()[i]) == 0 implies tb.frontier().contains(
            cs[i].conclusion,
        ) by {
            cs[i].premises.lemma_len0_is_empty();
            assert(kb@.clauses.contains(cs[i]));
            assert(kb@.given(cs[i].conclusion));
        }
    }
    while !tb.is_queue_empty()
        invariant
            kb.wf(),
            consistent(&tb, kb),
            !tb.inferred().contains(q@),
            implications@.len() == kb.clause_seq().len(),
            forall|i: int|
                0 <= i < implications@.len() ==> (#[trigger] implications@[i])@
                    == kb.clause_seq()[i],
        decreases tb.frontier().len() + total(tb.remaining()),
    {
        let ghost before = tb;
        let ghost measure = tb.frontier().len() + total(tb.remaining());
        proof {
            lemma_total_nonnegative(tb.remaining());
            lemma_tail_contains(tb.frontier());
        }
        let p = tb.pop_symbol().unwrap();
        assert(kb@.entails(p@)) by {
            assert(before.frontier().contains(before.frontier()[0]));
        }
        if p == *q {
            return true;
        }
        if !tb.is_already_inferred(&p) {
            tb.set_inferred(&p);
            let ids = kb.implications_with_premise(&p);
            let ghost cs = kb.clause_seq();
            let mut k: usize = 0;
            while k < ids.len()
                invariant
                    kb.wf(),
                    k <= ids.len(),
                    cs == kb.clause_seq(),
                    implications@.len() == cs.len(),
                    forall|i: int|
                        0 <= i < implications@.len() ==> (#[trigger] implications@[i])@ == cs[i],
                    forall|m: int|
                        0 <= m < ids@.len() ==> (#[trigger] ids@[m]) < cs.len()
                            && cs[ids@[m] as int].premises.contains(p@),
                    forall|m: int, n: int| 0 <= m < n < ids@.len() ==> ids@[m] < ids@[n],
                    tb.inferred() == before.inferred().insert(p@),
                    !before.inferred().contains(p@),
                    kb@.entails(p@),
                    sound(&tb, kb),
                    forall|i: int|
                        0 <= i < cs.len() ==> (#[trigger] tb.remaining()[i]) == cs[i].premises.difference(
                            if listed_before(ids@, k as int, i) {
                                tb.inferred()
                            } else {
                                before.inferred()
                            },
                        ).len(),
                    tb.frontier().len() + total(tb.remaining()) < measure,
                decreases ids.len() - k,
            {
                let j = ids[k];
                let ghost c = cs[j as int];
                let ghost was = c.premises.difference(before.inferred());
                let ghost now = c.premises.difference(tb.inferred());
                let ghost counts = tb.remaining();
                let ghost queue = tb.frontier();
                proof {
                    kb.lemma_clause_seq();
                    assert(was.finite());
                    assert(implications@[j as int]@ == c);
                    assert(!listed_before(ids@, k as int, j as int));
                    assert(was.contains(p@));
                    assert(now =~= was.remove(p@));
                    lemma_total_update(counts, j as int, (counts[j as int] - 1) as usize);
                }
                tb.decrease_count(j);
                if tb.is_count_zero(j) {
                    let conclusion = implications[j].get_conclusion();
                    proof {
                        now.lemma_len0_is_empty();
                        assert forall|x: Symbol| #[trigger]
                            c.premises.contains(x) implies kb@.entails(x) by {
                            if !tb.inferred().contains(x) {
                                assert(now.contains(x));
                            }
                        }
                        lemma_entails_step(kb@, c);
                        lemma_push_contains(queue, conclusion@);
                    }
                    tb.push_symbol(conclusion);
                }
                proof {
                    assert forall|i: int| 0 <= i < cs.len() implies (#[trigger] tb.remaining()[i])
                        == cs[i].premises.difference(
                        if listed_before(ids@, k + 1, i) {
                            tb.inferred()
                        } else {
                            before.inferred()
                        },
                    ).len() by {
                        if i == j {
                            assert(ids@[k as int] == i);
                        } else {
                            assert(tb.remaining()[i] == counts[i]);
                            if listed_before(ids@, k as int, i) {
                                let m = choose|m: int| 0 <= m < k && #[trigger] ids@[m] == i;
                                assert(ids@[m] == i);
                            }
                            if listed_before(ids@, k + 1, i) {
                                let m = choose|m: int| 0 <= m < k + 1 && #[trigger] ids@[m] == i;
                                assert(m < k);
                            }
                        }
                    }
                }
                k += 1;
            }
            proof {
                assert forall|i: int| 0 <= i < cs.len() implies (#[trigger] tb.remaining()[i])
                    == cs[i].premises.difference(tb.inferred()).len() by {
                    if !listed_before(ids@, k as int, i) {
                        if cs[i].premises.contains(p@) {
                            assert(listed(ids@, i));
                            let m = choose|m: int| 0 <= m < ids@.len() && #[trigger] ids@[m] == i;
                            assert(ids@[m] == i);
                        }
                        assert(cs[i].premises.difference(tb.inferred())
                            =~= cs[i].premises.difference(before.inferred()));
                    }
                }
            }
        }
        proof {
            lemma_total_nonnegative(tb.remaining());
        }
    }
    proof {
        lemma_fixpoint_is_model(&tb, kb);
    }
    false
}

} // verus!
