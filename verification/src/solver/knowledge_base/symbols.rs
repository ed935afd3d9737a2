//! Lists of symbol names, read as sets.

use crate::solver::entailment::Symbol;
use vstd::prelude::*;

verus! {

/// The names that occur in `v`.
pub open spec fn names(v: Seq<String>) -> Set<Symbol> {
    Set::new(|s: Symbol| exists|i: int| 0 <= i < v.len() && (#[trigger] v[i])@ == s)
}

/// No name occurs twice in `v`.
pub open spec fn distinct(v: Seq<String>) -> bool {
    forall|i: int, j: int| 0 <= i < j < v.len() ==> (#[trigger] v[i])@ != (#[trigger] v[j])@
}

/// Appending a name adds it to the set.
pub proof fn lemma_names_push(v: Seq<String>, s: String)
    ensures
        names(v.push(s)) =~= names(v).insert(s@),
{
    let w = v.push(s);
    assert forall|x: Symbol| names(w).contains(x) implies names(v).insert(s@).contains(x) by {
        let i = choose|i: int| 0 <= i < w.len() && (#[trigger] w[i])@ == x;
        if i < v.len() {
            assert(v[i]@ == x);
        }
    }
    assert forall|x: Symbol| names(v).insert(s@).contains(x) implies names(w).contains(x) by {
        if x == s@ {
            assert(w[v.len() as int]@ == x);
        } else {
            let i = choose|i: int| 0 <= i < v.len() && (#[trigger] v[i])@ == x;
            assert(w[i]@ == x);
        }
    }
}

/// The names of a list are finitely many, at most as many as its entries,
/// and exactly as many where no name occurs twice.
pub proof fn lemma_names_len(v: Seq<String>)
    ensures
        names(v).finite(),
        names(v).len() <= v.len(),
        distinct(v) ==> names(v).len() == v.len(),
    decreases v.len(),
{
    if v.len() == 0 {
        assert(names(v) =~= Set::<Symbol>::empty());
    } else {
        let front = v.drop_last();
        let last = v.last();
        lemma_names_len(front);
        assert(v =~= front.push(last));
        lemma_names_push(front, last);
        if distinct(v) {
            assert(distinct(front)) by {
                assert forall|i: int, j: int| 0 <= i < j < front.len() implies (#[trigger] front[i])@
                    != (#[trigger] front[j])@ by {
                    assert(v[i]@ != v[j]@);
                }
            }
            if names(front).contains(last@) {
                let i = choose|i: int| 0 <= i < front.len() && (#[trigger] front[i])@ == last@;
                assert(v[i]@ != v[v.len() - 1]@);
            }
        }
    }
}

/// Whether `symbol` occurs in `list`.
pub fn list_contains(list: &Vec<String>, symbol: &String) -> (found: bool)
    ensures
        found == names(list@).contains(symbol@),
{
    let mut i: usize = 0;
    while i < list.len()
        invariant
            i <= list.len(),
            forall|k: int| 0 <= k < i ==> (#[trigger] list@[k])@ != symbol@,
        decreases list.len() - i,
    {
        if list[i] == *symbol {
            return true;
        }
        i += 1;
    }
    false
}

/// Whether every name of `part` occurs in `whole`.
pub fn list_within(part: &Vec<String>, whole: &Vec<String>) -> (within: bool)
    ensures
        within == names(part@).subset_of(names(whole@)),
{
    let mut i: usize = 0;
    while i < part.len()
        invariant
            i <= part.len(),
            forall|k: int| 0 <= k < i ==> names(whole@).contains((#[trigger] part@[k])@),
        decreases part.len() - i,
    {
        if !list_contains(whole, &part[i]) {
            assert(names(part@).contains(part@[i as int]@));
            return false;
        }
        i += 1;
    }
    assert forall|s: Symbol| names(part@).contains(s) implies names(whole@).contains(s) by {
        let k = choose|k: int| 0 <= k < part@.len() && (#[trigger] part@[k])@ == s;
    }
    true
}

} // verus!
