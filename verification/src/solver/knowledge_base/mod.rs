//! The knowledge base: facts and implications, each stored once.

use crate::solver::entailment::{Clause, Symbol, Theory};
use crate::solver::knowledge_base::implication::Implication;
use crate::solver::knowledge_base::symbols::{
    distinct, lemma_names_push, list_contains, list_within, names,
};
use crate::solver::knowledge_base::text::{
    chars_of, check_text, entries, entries_from, lemma_entries_conclude, piece, read_clause,
    scan_arrow, scan_char, well_formed,
};
use crate::solver::LoadError;
use vstd::prelude::*;
use vstd::std_specs::cmp::PartialEqSpecImpl;

pub mod definite_clause;
pub mod implication;
pub mod symbols;
pub mod text;

verus! {

/// The clauses that occur in `v`.
pub open spec fn clauses_of(v: Seq<Implication>) -> Set<Clause> {
    Set::new(|c: Clause| exists|i: int| 0 <= i < v.len() && (#[trigger] v[i])@ == c)
}

/// Every implication in `v` is well formed, and no clause occurs twice.
pub open spec fn distinct_clauses(v: Seq<Implication>) -> bool {
    &&& forall|i: int| 0 <= i < v.len() ==> (#[trigger] v[i]).wf()
    &&& forall|i: int, j: int| 0 <= i < j < v.len() ==> (#[trigger] v[i])@ != (#[trigger] v[j])@
}

/// Appending an implication adds its clause to the set.
pub proof fn lemma_clauses_push(v: Seq<Implication>, x: Implication)
    ensures
        clauses_of(v.push(x)) =~= clauses_of(v).insert(x@),
{
    let w = v.push(x);
    assert forall|c: Clause| clauses_of(w).contains(c) implies clauses_of(v).insert(x@).contains(
        c,
    ) by {
        let i = choose|i: int| 0 <= i < w.len() && (#[trigger] w[i])@ == c;
        if i < v.len() {
            assert(v[i]@ == c);
        }
    }
    assert forall|c: Clause| clauses_of(v).insert(x@).contains(c) implies clauses_of(w).contains(
        c,
    ) by {
        if c == x@ {
            assert(w[v.len() as int]@ == c);
        } else {
            let i = choose|i: int| 0 <= i < v.len() && (#[trigger] v[i])@ == c;
            assert(w[i]@ == c);
        }
    }
}

/// Whether the clause of `clause` occurs in `list`.
pub fn clause_listed(list: &Vec<Implication>, clause: &Implication) -> (found: bool)
    ensures
        found == clauses_of(list@).contains(clause@),
{
    let mut i: usize = 0;
    while i < list.len()
        invariant
            i <= list.len(),
            forall|k: int| 0 <= k < i ==> (#[trigger] list@[k])@ != clause@,
        decreases list.len() - i,
    {
        if list[i].eq(clause) {
            return true;
        }
        i += 1;
    }
    false
}

/// Whether every clause of `part` occurs in `whole`.
pub fn clauses_within(part: &Vec<Implication>, whole: &Vec<Implication>) -> (within: bool)
    ensures
        within == clauses_of(part@).subset_of(clauses_of(whole@)),
{
    let mut i: usize = 0;
    while i < part.len()
        invariant
            i <= part.len(),
            forall|k: int| 0 <= k < i ==> clauses_of(whole@).contains((#[trigger] part@[k])@),
        decreases part.len() - i,
    {
        if !clause_listed(whole, &part[i]) {
            assert(clauses_of(part@).contains(part@[i as int]@));
            return false;
        }
        i += 1;
    }
    assert forall|c: Clause| clauses_of(part@).contains(c) implies clauses_of(whole@).contains(
        c,
    ) by {
        let k = choose|k: int| 0 <= k < part@.len() && (#[trigger] part@[k])@ == c;
    }
    true
}

/// The number `i` is listed in `ids`.
pub open spec fn listed(ids: Seq<usize>, i: int) -> bool {
    exists|k: int| 0 <= k < ids.len() && #[trigger] ids[k] == i
}

/// Facts and implications. Neither holds an entry twice, and the order in
/// which they are stored means nothing: the view is a pair of sets.
#[derive(Debug)]
pub struct KnowledgeBase {
    symbols: Vec<String>,
    implications: Vec<Implication>,
}

impl View for KnowledgeBase {
    type V = Theory;

    closed spec fn view(&self) -> Theory {
        Theory { facts: names(self.symbols@), clauses: clauses_of(self.implications@) }
    }
}

impl PartialEq for KnowledgeBase {
    /// Whether the two hold the same facts and the same clauses, in whatever
    /// order.
    fn eq(&self, other: &KnowledgeBase) -> (same: bool) {
        let same = list_within(&self.symbols, &other.symbols) && list_within(
            &other.symbols,
            &self.symbols,
        ) && clauses_within(&self.implications, &other.implications) && clauses_within(
            &other.implications,
            &self.implications,
        );
        assert(same == (self@ == other@)) by {
            if same {
                assert(self@.facts =~= other@.facts);
                assert(self@.clauses =~= other@.clauses);
            }
        }
        same
    }
}

impl PartialEqSpecImpl for KnowledgeBase {
    open spec fn obeys_eq_spec() -> bool {
        true
    }

    open spec fn eq_spec(&self, other: &KnowledgeBase) -> bool {
        self@ == other@
    }
}

impl Eq for KnowledgeBase {

}

impl KnowledgeBase {
    /// No fact and no clause is stored twice, and every stored implication
    /// is well formed.
    pub closed spec fn wf(&self) -> bool {
        &&& distinct(self.symbols@)
        &&& distinct_clauses(self.implications@)
    }

    /// The facts in the order in which they are stored.
    pub closed spec fn fact_seq(&self) -> Seq<Symbol> {
        Seq::new(self.symbols@.len(), |i: int| self.symbols@[i]@)
    }

    /// The clauses in the order in which they are stored. The engines number
    /// the clauses by their place in this sequence.
    pub closed spec fn clause_seq(&self) -> Seq<Clause> {
        Seq::new(self.implications@.len(), |i: int| self.implications@[i]@)
    }

    /// The stored sequence holds exactly the clauses of the view, each with
    /// finitely many premises.
    pub proof fn lemma_clause_seq(&self)
        ensures
            forall|i: int|
                0 <= i < self.clause_seq().len() ==> self@.clauses.contains(
                    #[trigger] self.clause_seq()[i],
                ),
            forall|c: Clause| #[trigger]
                self@.clauses.contains(c) ==> exists|i: int|
                    0 <= i < self.clause_seq().len() && #[trigger] self.clause_seq()[i] == c,
            forall|i: int|
                0 <= i < self.clause_seq().len() ==> (#[trigger] self.clause_seq()[i]).premises.finite(),
            self@.finitary(),
    {
        let seq = self.clause_seq();
        assert forall|i: int| 0 <= i < seq.len() implies self@.clauses.contains(#[trigger] seq[i])
            && seq[i].premises.finite() by {
            assert(self.implications@[i]@ == seq[i]);
            self.implications@[i].lemma_finite();
        }
        assert forall|c: Clause| #[trigger] self@.clauses.contains(c) implies (exists|i: int|
            0 <= i < seq.len() && #[trigger] seq[i] == c) && c.premises.finite() by {
            let i = choose|i: int|
                0 <= i < self.implications@.len() && (#[trigger] self.implications@[i])@ == c;
            assert(seq[i] == c);
        }
    }

    /// The stored sequence of facts holds exactly the facts of the view.
    pub proof fn lemma_fact_seq(&self)
        ensures
            forall|s: Symbol| self@.facts.contains(s) <==> self.fact_seq().contains(s),
    {
        let seq = self.fact_seq();
        assert forall|s: Symbol| self@.facts.contains(s) <==> seq.contains(s) by {
            if self@.facts.contains(s) {
                let i = choose|i: int|
                    0 <= i < self.symbols@.len() && (#[trigger] self.symbols@[i])@ == s;
                assert(seq[i] == s);
            }
            if seq.contains(s) {
                let i = choose|i: int| 0 <= i < seq.len() && seq[i] == s;
                assert(self.symbols@[i]@ == s);
            }
        }
    }

    /// The empty knowledge base.
    pub fn new() -> (created: Self)
        ensures
            created.wf(),
            created@.facts == Set::<Symbol>::empty(),
            created@.clauses == Set::<Clause>::empty(),
    {
        let created = KnowledgeBase { symbols: Vec::new(), implications: Vec::new() };
        assert(created@.facts =~= Set::<Symbol>::empty());
        assert(created@.clauses =~= Set::<Clause>::empty());
        created
    }

    /// The facts, each once, in the order of `fact_seq`.
    pub fn iterate_symbols(&self) -> (symbols: &Vec<String>)
        requires
            self.wf(),
        ensures
            distinct(symbols@),
            names(symbols@) == self@.facts,
            symbols@.len() == self.fact_seq().len(),
            forall|i: int|
                0 <= i < symbols@.len() ==> (#[trigger] symbols@[i])@ == self.fact_seq()[i],
    {
        &self.symbols
    }

    /// The implications, each clause once, in the order of `clause_seq`.
    pub fn iterate_implications(&self) -> (implications: &Vec<Implication>)
        requires
            self.wf(),
        ensures
            distinct_clauses(implications@),
            clauses_of(implications@) == self@.clauses,
            implications@.len() == self.clause_seq().len(),
            forall|i: int|
                0 <= i < implications@.len() ==> (#[trigger] implications@[i])@
                    == self.clause_seq()[i],
    {
        &self.implications
    }

    /// Adds a fact; one that is already there is not added again.
    pub fn add_symbol(&mut self, new_symbol: String)
        requires
            old(self).wf(),
        ensures
            final(self).wf(),
            final(self)@.facts == old(self)@.facts.insert(new_symbol@),
            final(self)@.clauses == old(self)@.clauses,
    {
        if list_contains(&self.symbols, &new_symbol) {
            assert(self@.facts.insert(new_symbol@) =~= self@.facts);
        } else {
            proof {
                lemma_names_push(self.symbols@, new_symbol);
            }
            self.symbols.push(new_symbol);
        }
    }

    /// Adds an implication; one whose clause is already there is not added
    /// again.
    pub fn add_implication(&mut self, new_implication: Implication)
        requires
            old(self).wf(),
            new_implication.wf(),
        ensures
            final(self).wf(),
            final(self)@.facts == old(self)@.facts,
            final(self)@.clauses == old(self)@.clauses.insert(new_implication@),
    {
        let mut i: usize = 0;
        while i < self.implications.len()
            invariant
                i <= self.implications.len(),
                self.wf(),
                new_implication.wf(),
                *self == *old(self),
                forall|k: int| 0 <= k < i ==> (#[trigger] self.implications@[k])@ != new_implication@,
            decreases self.implications.len() - i,
        {
            if self.implications[i].same_as(&new_implication) {
                assert(self@.clauses.contains(self.implications@[i as int]@));
                assert(self@.clauses.insert(new_implication@) =~= self@.clauses);
                return ;
            }
            i += 1;
        }
        proof {
            lemma_clauses_push(self.implications@, new_implication);
        }
        self.implications.push(new_implication);
    }

    /// Whether `symbol` is a fact.
    pub fn symbols_contain(&self, symbol: &String) -> (found: bool)
        ensures
            found == self@.facts.contains(symbol@),
    {
        list_contains(&self.symbols, symbol)
    }

    /// The numbers of the clauses that have `symbol` among their premises,
    /// in rising order. A clause's number is its place in `clause_seq`.
    pub fn implications_with_premise(&self, symbol: &String) -> (ids: Vec<usize>)
        requires
            self.wf(),
        ensures
            forall|k: int|
                0 <= k < ids@.len() ==> (#[trigger] ids@[k]) < self.clause_seq().len()
                    && self.clause_seq()[ids@[k] as int].premises.contains(symbol@),
            forall|k: int, l: int| 0 <= k < l < ids@.len() ==> ids@[k] < ids@[l],
            forall|i: int|
                0 <= i < self.clause_seq().len() && (#[trigger] self.clause_seq()[i]).premises.contains(
                    symbol@,
                ) ==> listed(ids@, i),
    {
        let mut ids: Vec<usize> = Vec::new();
        let mut i: usize = 0;
        while i < self.implications.len()
            invariant
                i <= self.implications.len(),
                self.implications@.len() == self.clause_seq().len(),
                forall|k: int|
                    0 <= k < ids@.len() ==> (#[trigger] ids@[k]) < i
                        && self.clause_seq()[ids@[k] as int].premises.contains(symbol@),
                forall|k: int, l: int| 0 <= k < l < ids@.len() ==> ids@[k] < ids@[l],
                forall|j: int|
                    0 <= j < i && (#[trigger] self.clause_seq()[j]).premises.contains(symbol@)
                        ==> listed(ids@, j),
            decreases self.implications.len() - i,
        {
            let ghost before = ids@;
            if self.implications[i].premise_contains(symbol) {
                ids.push(i);
                assert(ids@[before.len() as int] == i);
                assert(listed(ids@, i as int));
            }
            assert forall|j: int|
                0 <= j < i + 1 && (#[trigger] self.clause_seq()[j]).premises.contains(
                    symbol@,
                ) implies listed(ids@, j) by {
                if j < i {
                    let k = choose|k: int| 0 <= k < before.len() && #[trigger] before[k] == j;
                    assert(ids@[k] == j);
                }
            }
            i += 1;
        }
        ids
    }

    /// The numbers of the clauses that conclude `symbol`, in rising order.
    /// A clause's number is its place in `clause_seq`.
    pub fn implications_concluding(&self, symbol: &String) -> (ids: Vec<usize>)
        requires
            self.wf(),
        ensures
            forall|k: int|
                0 <= k < ids@.len() ==> (#[trigger] ids@[k]) < self.clause_seq().len()
                    && self.clause_seq()[ids@[k] as int].conclusion == symbol@,
            forall|k: int, l: int| 0 <= k < l < ids@.len() ==> ids@[k] < ids@[l],
            forall|i: int|
                0 <= i < self.clause_seq().len() && (#[trigger] self.clause_seq()[i]).conclusion
                    == symbol@ ==> listed(ids@, i),
    {
        let mut ids: Vec<usize> = Vec::new();
        let mut i: usize = 0;
        while i < self.implications.len()
            invariant
                i <= self.implications.len(),
                self.implications@.len() == self.clause_seq().len(),
                forall|k: int|
                    0 <= k < ids@.len() ==> (#[trigger] ids@[k]) < i
                        && self.clause_seq()[ids@[k] as int].conclusion == symbol@,
                forall|k: int, l: int| 0 <= k < l < ids@.len() ==> ids@[k] < ids@[l],
                forall|j: int|
                    0 <= j < i && (#[trigger] self.clause_seq()[j]).conclusion == symbol@
                        ==> listed(ids@, j),
            decreases self.implications.len() - i,
        {
            let ghost before = ids@;
            if self.implications[i].is_conclusion(symbol) {
                ids.push(i);
                assert(ids@[before.len() as int] == i);
                assert(listed(ids@, i as int));
            }
            assert forall|j: int|
                0 <= j < i + 1 && (#[trigger] self.clause_seq()[j]).conclusion
                    == symbol@ implies listed(ids@, j) by {
                if j < i {
                    let k = choose|k: int| 0 <= k < before.len() && #[trigger] before[k] == j;
                    assert(ids@[k] == j);
                }
            }
            i += 1;
        }
        ids
    }

    /// Adds every entry of `knowledge`, the text form of a knowledge base:
    /// its facts to the facts, its implications to the implications. A text
    /// in which some implication lacks its conclusion is rejected as a
    /// whole, and the knowledge base stays as it was.
    pub fn load(&mut self, knowledge: &String) -> (loaded: Result<(), LoadError>)
        requires
            old(self).wf(),
        ensures
            final(self).wf(),
            loaded is Ok <==> well_formed(knowledge@),
            loaded is Ok ==> final(self)@.facts == old(self)@.facts.union(entries(knowledge@).facts),
            loaded is Ok ==> final(self)@.clauses == old(self)@.clauses.union(
                entries(knowledge@).clauses,
            ),
            loaded is Ok ==> forall|c: Clause| #[trigger]
                entries(knowledge@).clauses.contains(c) ==> c.conclusion.len() > 0,
            loaded is Err ==> loaded == Err::<(), LoadError>(LoadError::Clause) && *final(self)
                == *old(self),
    {
        let text = knowledge.as_str();
        let chars = chars_of(text);
        if !check_text(&chars) {
            return Err(LoadError::Clause);
        }
        proof {
            lemma_entries_conclude(knowledge@);
        }
        let n = chars.len();
        let mut start: usize = 0;
        assert(self@.facts.union(entries(text@).facts) =~= old(self)@.facts.union(
            entries(knowledge@).facts,
        ));
        while start < n
            invariant
                self.wf(),
                chars@ == text@,
                text@ == knowledge@,
                n == chars@.len(),
                start <= n,
                self@.facts.union(entries_from(text@, start as int).facts) == old(self)@.facts.union(
                    entries(text@).facts,
                ),
                self@.clauses.union(entries_from(text@, start as int).clauses) == old(
                    self,
                )@.clauses.union(entries(text@).clauses),
            decreases n - start,
        {
            let ghost facts = self@.facts;
            let ghost clauses = self@.clauses;
            let ghost here = entries_from(text@, start as int);
            let feed = scan_char(&chars, start, n, '\n');
            let end = if start < feed && feed < n && chars[feed - 1] == '\r' {
                feed - 1
            } else {
                feed
            };
            let next = if feed < n {
                feed + 1
            } else {
                feed
            };
            let ghost rest = entries_from(text@, next as int);
            let arrow = scan_arrow(&chars, start, end);
            if arrow < end {
                let clause = read_clause(text, &chars, start, end);
                self.add_implication(clause);
            } else {
                self.add_symbol(piece(text, start, end));
            }
            assert(self@.facts.union(rest.facts) =~= facts.union(here.facts));
            assert(self@.clauses.union(rest.clauses) =~= clauses.union(here.clauses));
            start = next;
        }
        assert(self@.facts =~= self@.facts.union(entries_from(text@, start as int).facts));
        assert(self@.clauses =~= self@.clauses.union(entries_from(text@, start as int).clauses));
        Ok(())
    }
}

} // verus!
