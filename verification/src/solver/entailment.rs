//! What it means for a Horn knowledge base to entail a symbol, stated twice:
//! by models and by derivations, with the proof that the two coincide.

use vstd::prelude::*;

verus! {

/// A propositional symbol: its name.
pub type Symbol = Seq<char>;

/// A definite clause: the conjunction of `premises` implies `conclusion`.
pub struct Clause {
    pub premises: Set<Symbol>,
    pub conclusion: Symbol,
}

/// The contents of a knowledge base, without any order.
pub struct Theory {
    pub facts: Set<Symbol>,
    pub clauses: Set<Clause>,
}

impl Theory {
    /// Every clause has finitely many premises.
    pub open spec fn finitary(self) -> bool {
        forall|c: Clause| #[trigger] self.clauses.contains(c) ==> c.premises.finite()
    }

    /// `m` holds every fact and is closed under every clause.
    pub open spec fn satisfied_by(self, m: Set<Symbol>) -> bool {
        &&& self.facts.subset_of(m)
        &&& forall|c: Clause| #[trigger]
            self.clauses.contains(c) && c.premises.subset_of(m) ==> m.contains(c.conclusion)
    }

    /// `q` is true in every set of symbols that satisfies the theory.
    pub open spec fn entails(self, q: Symbol) -> bool {
        forall|m: Set<Symbol>| #[trigger] self.satisfied_by(m) ==> m.contains(q)
    }

    /// `q` has a derivation of height at most `n`: it is a fact, or the
    /// conclusion of a clause whose premises have derivations of height
    /// below `n`.
    pub open spec fn derives_within(self, q: Symbol, n: nat) -> bool
        decreases n,
    {
        n > 0 && (self.facts.contains(q) || exists|c: Clause|
            {
                &&& #[trigger] self.clauses.contains(c)
                &&& c.conclusion == q
                &&& forall|p: Symbol| #[trigger]
                    c.premises.contains(p) ==> self.derives_within(p, (n - 1) as nat)
            })
    }

    /// `c` is a clause of the theory that concludes `q` and whose premises
    /// all have a derivation of height at most `n`.
    pub open spec fn applies(self, c: Clause, q: Symbol, n: nat) -> bool {
        &&& self.clauses.contains(c)
        &&& c.conclusion == q
        &&& forall|p: Symbol| #[trigger] c.premises.contains(p) ==> self.derives_within(p, n)
    }

    /// Some clause concludes `q` from premises of height at most `n`.
    pub proof fn lemma_unfold(self, q: Symbol, n: nat) -> (c: Clause)
        requires
            self.derives_within(q, n),
            !self.facts.contains(q),
        ensures
            n > 0,
            self.applies(c, q, (n - 1) as nat),
    {
        choose|c: Clause|
            {
                &&& #[trigger] self.clauses.contains(c)
                &&& c.conclusion == q
                &&& forall|p: Symbol| #[trigger]
                    c.premises.contains(p) ==> self.derives_within(p, (n - 1) as nat)
            }
    }

    /// A clause that applies at height `n` derives its conclusion within
    /// `n + 1`.
    pub proof fn lemma_fold(self, c: Clause, q: Symbol, n: nat)
        requires
            self.applies(c, q, n),
        ensures
            self.derives_within(q, n + 1),
    {
        assert((n + 1 - 1) as nat == n);
    }

    /// `s` is given outright: it is a fact, or the conclusion of a clause
    /// without premises.
    pub open spec fn given(self, s: Symbol) -> bool {
        self.facts.contains(s) || exists|c: Clause|
            #[trigger] self.clauses.contains(c) && c.premises =~= Set::<Symbol>::empty()
                && c.conclusion == s
    }

    /// `q` has a derivation.
    pub open spec fn derives(self, q: Symbol) -> bool {
        exists|n: nat| #[trigger] self.derives_within(q, n)
    }

    /// The part of the theory that does not touch `path`: the facts that are
    /// not on it, and the clauses that neither conclude nor presuppose a
    /// symbol on it.
    pub open spec fn without(self, path: Set<Symbol>) -> Theory {
        Theory {
            facts: self.facts.difference(path),
            clauses: Set::new(
                |c: Clause|
                    {
                        &&& self.clauses.contains(c)
                        &&& !path.contains(c.conclusion)
                        &&& forall|p: Symbol| #[trigger] c.premises.contains(p) ==> !path.contains(p)
                    },
            ),
        }
    }
}

/// A derivation stays one when more height is allowed.
pub proof fn lemma_derives_within_monotone(t: Theory, q: Symbol, n: nat, m: nat)
    requires
        t.derives_within(q, n),
        n <= m,
    ensures
        t.derives_within(q, m),
    decreases n,
{
    if !t.facts.contains(q) {
        let c = t.lemma_unfold(q, n);
        assert forall|p: Symbol| #[trigger] c.premises.contains(p) implies t.derives_within(
            p,
            (m - 1) as nat,
        ) by {
            lemma_derives_within_monotone(t, p, (n - 1) as nat, (m - 1) as nat);
        }
        assert(t.applies(c, q, (m - 1) as nat));
        t.lemma_fold(c, q, (m - 1) as nat);
    }
}

/// Finitely many symbols that each have a derivation have derivations of
/// one common height.
pub proof fn lemma_common_height(t: Theory, ps: Set<Symbol>) -> (n: nat)
    requires
        ps.finite(),
        forall|p: Symbol| #[trigger] ps.contains(p) ==> t.derives(p),
    ensures
        forall|p: Symbol| #[trigger] ps.contains(p) ==> t.derives_within(p, n),
    decreases ps.len(),
{
    if ps.is_empty() {
        0
    } else {
        let x = ps.choose();
        let rest = ps.remove(x);
        let a = lemma_common_height(t, rest);
        assert(t.derives(x));
        let b = choose|b: nat| #[trigger] t.derives_within(x, b);
        let n = if a <= b { b } else { a };
        assert forall|p: Symbol| #[trigger] ps.contains(p) implies t.derives_within(p, n) by {
            if p == x {
                lemma_derives_within_monotone(t, p, b, n);
            } else {
                assert(rest.contains(p));
                lemma_derives_within_monotone(t, p, a, n);
            }
        }
        n
    }
}

/// One step of derivation: a clause whose premises all have a derivation
/// gives its conclusion one.
pub proof fn lemma_derives_step(t: Theory, c: Clause)
    requires
        t.clauses.contains(c),
        c.premises.finite(),
        forall|p: Symbol| #[trigger] c.premises.contains(p) ==> t.derives(p),
    ensures
        t.derives(c.conclusion),
{
    let n = lemma_common_height(t, c.premises);
    t.lemma_fold(c, c.conclusion, n);
}

/// One step of entailment: a clause whose premises are all entailed has an
/// entailed conclusion.
pub proof fn lemma_entails_step(t: Theory, c: Clause)
    requires
        t.clauses.contains(c),
        forall|p: Symbol| #[trigger] c.premises.contains(p) ==> t.entails(p),
    ensures
        t.entails(c.conclusion),
{
    assert forall|m: Set<Symbol>| #[trigger] t.satisfied_by(m) implies m.contains(
        c.conclusion,
    ) by {
        assert(c.premises.subset_of(m));
    }
}

/// What is given outright is entailed.
pub proof fn lemma_given_entailed(t: Theory, s: Symbol)
    requires
        t.given(s),
    ensures
        t.entails(s),
{
    if t.facts.contains(s) {
    } else {
        let c = choose|c: Clause|
            #[trigger] t.clauses.contains(c) && c.premises =~= Set::<Symbol>::empty()
                && c.conclusion == s;
        lemma_entails_step(t, c);
    }
}

/// Soundness of derivation: what has a derivation is true in every model.
pub proof fn lemma_derivation_sound(t: Theory, q: Symbol, n: nat)
    requires
        t.derives_within(q, n),
    ensures
        t.entails(q),
    decreases n,
{
    if t.facts.contains(q) {
    } else {
        let c = t.lemma_unfold(q, n);
        assert forall|p: Symbol| #[trigger] c.premises.contains(p) implies t.entails(p) by {
            lemma_derivation_sound(t, p, (n - 1) as nat);
        }
        lemma_entails_step(t, c);
    }
}

/// Completeness of derivation: the symbols that have a derivation form a
/// model, so what every model holds has a derivation.
pub proof fn lemma_derivation_complete(t: Theory, q: Symbol)
    requires
        t.finitary(),
        t.entails(q),
    ensures
        t.derives(q),
{
    let d = Set::new(|s: Symbol| t.derives(s));
    assert forall|f: Symbol| t.facts.contains(f) implies d.contains(f) by {
        assert(t.derives_within(f, 1));
    }
    assert forall|c: Clause| #[trigger]
        t.clauses.contains(c) && c.premises.subset_of(d) implies d.contains(c.conclusion) by {
        assert forall|p: Symbol| #[trigger] c.premises.contains(p) implies t.derives(p) by {
            assert(d.contains(p));
        }
        lemma_derives_step(t, c);
    }
    assert(t.satisfied_by(d));
    assert(d.contains(q));
}

/// The two readings of "follows from the knowledge base" agree: a symbol is
/// true in every model exactly when it has a derivation. The forward engine
/// decides the first and the backward engine the second, so on every
/// knowledge base and every query the two engines return the same answer.
pub proof fn lemma_engines_agree(t: Theory, q: Symbol)
    requires
        t.finitary(),
    ensures
        t.entails(q) == t.derives(q),
{
    if t.entails(q) {
        lemma_derivation_complete(t, q);
    }
    if t.derives(q) {
        let n = choose|n: nat| #[trigger] t.derives_within(q, n);
        lemma_derivation_sound(t, q, n);
    }
}

/// Every fact follows from the knowledge base, in both readings.
pub proof fn lemma_facts_follow(t: Theory, f: Symbol)
    requires
        t.facts.contains(f),
    ensures
        t.entails(f),
        t.derives(f),
{
    assert(t.derives_within(f, 1));
    lemma_derivation_sound(t, f, 1);
}

/// Without clauses, exactly the facts follow, in both readings.
pub proof fn lemma_no_clauses(t: Theory, q: Symbol)
    requires
        t.clauses =~= Set::<Clause>::empty(),
    ensures
        t.entails(q) == t.facts.contains(q),
        t.derives(q) == t.facts.contains(q),
{
    if t.facts.contains(q) {
        lemma_facts_follow(t, q);
    } else {
        assert(t.satisfied_by(t.facts));
        assert forall|n: nat| !t.derives_within(q, n) by {
            if t.derives_within(q, n) {
                let c = t.lemma_unfold(q, n);
            }
        }
    }
}

/// Nothing can be derived within `n` steps from a theory without facts
/// whose clauses all have a premise.
pub proof fn lemma_no_support_within(t: Theory, q: Symbol, n: nat)
    requires
        t.facts =~= Set::<Symbol>::empty(),
        forall|c: Clause| #[trigger] t.clauses.contains(c) ==> !c.premises.is_empty(),
    ensures
        !t.derives_within(q, n),
    decreases n,
{
    if t.derives_within(q, n) {
        let c = t.lemma_unfold(q, n);
        let p = choose|p: Symbol| c.premises.contains(p);
        assert(c.premises.contains(p)) by {
            if forall|p: Symbol| !c.premises.contains(p) {
                assert(c.premises =~= Set::<Symbol>::empty());
            }
        }
        lemma_no_support_within(t, p, (n - 1) as nat);
    }
}

/// Clauses alone establish nothing: where there is no fact and every clause
/// has a premise, however the clauses feed one another, no symbol follows.
pub proof fn lemma_clauses_alone_prove_nothing(t: Theory, q: Symbol)
    requires
        t.finitary(),
        t.facts =~= Set::<Symbol>::empty(),
        forall|c: Clause| #[trigger] t.clauses.contains(c) ==> !c.premises.is_empty(),
    ensures
        !t.derives(q),
        !t.entails(q),
{
    assert forall|n: nat| !t.derives_within(q, n) by {
        lemma_no_support_within(t, q, n);
    }
    lemma_engines_agree(t, q);
}

/// What is derived without `path` is not on `path`.
pub proof fn lemma_without_excludes(t: Theory, path: Set<Symbol>, s: Symbol)
    requires
        t.without(path).derives(s),
    ensures
        !path.contains(s),
{
    let r = t.without(path);
    let n = choose|n: nat| #[trigger] r.derives_within(s, n);
    if !r.facts.contains(s) {
        let c = r.lemma_unfold(s, n);
    }
}

/// Taking nothing away leaves the theory as it is.
pub proof fn lemma_without_nothing(t: Theory)
    ensures
        t.without(Set::<Symbol>::empty()) == t,
{
    let r = t.without(Set::<Symbol>::empty());
    assert(r.facts =~= t.facts);
    assert(r.clauses =~= t.clauses);
}

/// What is derived without `path` and `g` is derived without `path`.
pub proof fn lemma_without_weaken(t: Theory, path: Set<Symbol>, g: Symbol, s: Symbol, n: nat)
    requires
        t.without(path.insert(g)).derives_within(s, n),
    ensures
        t.without(path).derives_within(s, n),
    decreases n,
{
    let narrow = t.without(path.insert(g));
    let wide = t.without(path);
    if !narrow.facts.contains(s) {
        let c = narrow.lemma_unfold(s, n);
        let k = (n - 1) as nat;
        assert forall|p: Symbol| #[trigger] c.premises.contains(p) implies wide.derives_within(
            p,
            k,
        ) by {
            lemma_without_weaken(t, path, g, p, k);
        }
        assert forall|p: Symbol| #[trigger] c.premises.contains(p) implies !path.contains(p) by {
            assert(!path.insert(g).contains(p));
        }
        assert(path.insert(g).contains(c.conclusion) || !path.contains(c.conclusion));
        assert(wide.clauses.contains(c));
        wide.lemma_fold(c, s, k);
    }
}

/// What is derived without `path`, at a height at which `g` is not, is
/// derived without `path` and `g`.
pub proof fn lemma_without_strengthen(t: Theory, path: Set<Symbol>, g: Symbol, s: Symbol, n: nat)
    requires
        t.without(path).derives_within(s, n),
        !t.without(path).derives_within(g, n),
    ensures
        t.without(path.insert(g)).derives_within(s, n),
    decreases n,
{
    let narrow = t.without(path.insert(g));
    let wide = t.without(path);
    if wide.facts.contains(s) {
        assert(narrow.facts.contains(s));
    } else {
        let c = wide.lemma_unfold(s, n);
        let k = (n - 1) as nat;
        if wide.derives_within(g, k) {
            lemma_derives_within_monotone(wide, g, k, n);
        }
        assert forall|p: Symbol| #[trigger] c.premises.contains(p) implies narrow.derives_within(
            p,
            k,
        ) && !path.insert(g).contains(p) by {
            lemma_without_strengthen(t, path, g, p, k);
        }
        assert(narrow.clauses.contains(c));
        narrow.lemma_fold(c, s, k);
    }
}

/// The least height at which `s` is derived.
pub proof fn lemma_least_height(t: Theory, s: Symbol, n: nat) -> (m: nat)
    requires
        t.derives_within(s, n),
    ensures
        0 < m <= n,
        t.derives_within(s, m),
        !t.derives_within(s, (m - 1) as nat),
    decreases n,
{
    if t.derives_within(s, (n - 1) as nat) {
        lemma_least_height(t, s, (n - 1) as nat)
    } else {
        n
    }
}

/// A goal on the path is not derived without the path.
pub proof fn lemma_search_blocked(t: Theory, path: Set<Symbol>, g: Symbol)
    requires
        path.contains(g),
    ensures
        !t.without(path).derives(g),
{
    if t.without(path).derives(g) {
        lemma_without_excludes(t, path, g);
    }
}

/// A fact off the path is derived without the path.
pub proof fn lemma_search_fact(t: Theory, path: Set<Symbol>, g: Symbol)
    requires
        !path.contains(g),
        t.facts.contains(g),
    ensures
        t.without(path).derives(g),
{
    assert(t.without(path).derives_within(g, 1));
}

/// A goal off the path is derived without the path where some clause
/// concludes it from premises that are all derived without the path and the
/// goal itself.
pub proof fn lemma_search_succeeds(t: Theory, path: Set<Symbol>, g: Symbol, c: Clause)
    requires
        !path.contains(g),
        t.clauses.contains(c),
        c.conclusion == g,
        c.premises.finite(),
        forall|p: Symbol| #[trigger]
            c.premises.contains(p) ==> t.without(path.insert(g)).derives(p),
    ensures
        t.without(path).derives(g),
{
    let wide = t.without(path);
    assert forall|p: Symbol| #[trigger] c.premises.contains(p) implies wide.derives(p)
        && !path.contains(p) by {
        let n = choose|n: nat| #[trigger] t.without(path.insert(g)).derives_within(p, n);
        lemma_without_weaken(t, path, g, p, n);
        lemma_without_excludes(t, path.insert(g), p);
        assert(path.insert(g).contains(p) || !path.contains(p));
    }
    assert(wide.clauses.contains(c));
    lemma_derives_step(wide, c);
}

/// A goal that is no fact is not derived without the path where every
/// clause that concludes it has a premise that is not derived without the
/// path and the goal itself.
pub proof fn lemma_search_fails(t: Theory, path: Set<Symbol>, g: Symbol)
    requires
        !t.facts.contains(g),
        forall|c: Clause| #[trigger]
            t.clauses.contains(c) && c.conclusion == g ==> exists|p: Symbol| #[trigger]
                c.premises.contains(p) && !t.without(path.insert(g)).derives(p),
    ensures
        !t.without(path).derives(g),
{
    let wide = t.without(path);
    if wide.derives(g) {
        let n = choose|n: nat| #[trigger] wide.derives_within(g, n);
        let m = lemma_least_height(wide, g, n);
        let k = (m - 1) as nat;
        let c = wide.lemma_unfold(g, m);
        assert(t.clauses.contains(c));
        let p = choose|p: Symbol| #[trigger]
            c.premises.contains(p) && !t.without(path.insert(g)).derives(p);
        lemma_without_strengthen(t, path, g, p, k);
    }
}

} // verus!
