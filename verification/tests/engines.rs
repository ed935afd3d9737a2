use horn_solver::solver::backward_chaining::backward_chaining;
use horn_solver::solver::forward_chaining::forward_chaining;
use horn_solver::solver::knowledge_base::implication::Implication;
use horn_solver::solver::knowledge_base::KnowledgeBase;
use horn_solver::solver::{Algorithms, Solver};

fn clause(premises: &[&str], conclusion: &str) -> Implication {
    let mut c = Implication::new();
    for p in premises {
        c.add_premise(p.to_string());
    }
    c.set_conclusion(conclusion.to_string());
    c
}

fn kb(facts: &[&str], clauses: &[(&[&str], &str)]) -> KnowledgeBase {
    let mut kb = KnowledgeBase::new();
    for f in facts {
        kb.add_symbol(f.to_string());
    }
    for (premises, conclusion) in clauses {
        kb.add_implication(clause(premises, conclusion));
    }
    kb
}

fn both(kb: &KnowledgeBase, q: &str) -> (bool, bool) {
    let q = q.to_string();
    (forward_chaining(&q, kb, false), backward_chaining(&q, kb, false))
}

#[test]
fn conjunction_of_two_facts_gives_conclusion() {
    let kb = kb(&["P", "Q"], &[(&["P", "Q"], "R")]);
    assert_eq!(both(&kb, "R"), (true, true));
}

#[test]
fn chained_implications_reach_the_query() {
    let kb = kb(&["P"], &[(&["P"], "Q"), (&["Q"], "R")]);
    assert_eq!(both(&kb, "R"), (true, true));
    assert_eq!(both(&kb, "Q"), (true, true));
}

#[test]
fn premise_never_established() {
    let kb = kb(&[], &[(&["A"], "B")]);
    assert_eq!(both(&kb, "B"), (false, false));
    assert_eq!(both(&kb, "A"), (false, false));
}

#[test]
fn unrelated_symbol_is_not_entailed() {
    let kb = kb(&["P"], &[]);
    assert_eq!(both(&kb, "Q"), (false, false));
}

#[test]
fn cycle_without_facts_ends_with_false() {
    let kb = kb(&[], &[(&["A"], "B"), (&["B"], "A")]);
    assert_eq!(both(&kb, "A"), (false, false));
    assert_eq!(both(&kb, "B"), (false, false));
}

#[test]
fn cycle_with_a_fact_is_entailed() {
    let kb = kb(&["A"], &[(&["A"], "B"), (&["B"], "A"), (&["B"], "C")]);
    assert_eq!(both(&kb, "A"), (true, true));
    assert_eq!(both(&kb, "B"), (true, true));
    assert_eq!(both(&kb, "C"), (true, true));
}

#[test]
fn every_fact_is_entailed() {
    let kb = kb(&["P", "Q", "R"], &[(&["P", "Z"], "Y")]);
    for f in ["P", "Q", "R"] {
        assert_eq!(both(&kb, f), (true, true));
    }
    assert_eq!(both(&kb, "Y"), (false, false));
}

#[test]
fn without_clauses_only_facts_are_entailed() {
    let kb = kb(&["A", "B"], &[]);
    for q in ["A", "B", "C", ""] {
        let expected = q == "A" || q == "B";
        assert_eq!(both(&kb, q), (expected, expected));
    }
}

#[test]
fn empty_knowledge_base_entails_nothing() {
    let kb = KnowledgeBase::new();
    assert_eq!(both(&kb, "A"), (false, false));
}

#[test]
fn clause_without_premises_acts_as_fact() {
    let kb = kb(&[], &[(&[], "A"), (&["A"], "B")]);
    assert_eq!(both(&kb, "A"), (true, true));
    assert_eq!(both(&kb, "B"), (true, true));
    assert_eq!(both(&kb, "C"), (false, false));
}

#[test]
fn one_missing_premise_blocks_the_clause() {
    let kb = kb(&["P", "Q"], &[(&["P", "Q", "S"], "R")]);
    assert_eq!(both(&kb, "R"), (false, false));
}

#[test]
fn symbol_revisited_on_another_branch() {
    // D is needed twice, on two branches that do not overlap.
    let kb = kb(
        &["D"],
        &[(&["B", "C"], "A"), (&["D"], "B"), (&["D"], "C")],
    );
    assert_eq!(both(&kb, "A"), (true, true));
}

#[test]
fn failed_branch_does_not_block_a_later_one() {
    // The first clause for A runs into the cycle through B; the second
    // proves A from C, and B then follows from A.
    let kb = kb(
        &["C"],
        &[(&["B"], "A"), (&["A"], "B"), (&["C"], "A")],
    );
    assert_eq!(both(&kb, "A"), (true, true));
    assert_eq!(both(&kb, "B"), (true, true));
}

#[test]
fn shared_premise_is_counted_once() {
    // P reaches the queue twice (as a fact and as a conclusion); the clause
    // P,Q -> R must not fire on P alone.
    let kb = kb(&["P", "S"], &[(&["S"], "P"), (&["P", "Q"], "R")]);
    assert_eq!(both(&kb, "R"), (false, false));
    assert_eq!(both(&kb, "P"), (true, true));
}

#[test]
fn engines_agree_on_a_larger_base() {
    let kb = kb(
        &["A", "B"],
        &[
            (&["A", "B"], "L"),
            (&["A", "P"], "L"),
            (&["B", "L"], "M"),
            (&["L", "M"], "P"),
            (&["P"], "Q"),
            (&["X"], "Y"),
            (&["Y"], "X"),
        ],
    );
    for (q, expected) in [
        ("A", true),
        ("B", true),
        ("L", true),
        ("M", true),
        ("P", true),
        ("Q", true),
        ("X", false),
        ("Y", false),
        ("Z", false),
    ] {
        assert_eq!(both(&kb, q), (expected, expected));
    }
}

#[test]
fn answers_do_not_depend_on_insertion_order() {
    let a = kb(&["P", "Q"], &[(&["P", "Q"], "R"), (&["R"], "S")]);
    let b = kb(&["Q", "P"], &[(&["R"], "S"), (&["Q", "P"], "R")]);
    for q in ["P", "Q", "R", "S", "T"] {
        assert_eq!(both(&a, q), both(&b, q));
    }
}

#[test]
fn repeated_calls_give_the_same_answer() {
    let kb = kb(&["P"], &[(&["P"], "Q"), (&["Q"], "R")]);
    let first = both(&kb, "R");
    for _ in 0..5 {
        assert_eq!(both(&kb, "R"), first);
    }
    assert_eq!(kb.iterate_symbols().len(), 1);
    assert_eq!(kb.iterate_implications().len(), 2);
}

#[test]
fn debug_flag_does_not_change_the_answer() {
    let kb = kb(&["P"], &[(&["P"], "Q")]);
    let q = "Q".to_string();
    let z = "Z".to_string();
    assert_eq!(forward_chaining(&q, &kb, true), true);
    assert_eq!(backward_chaining(&q, &kb, true), true);
    assert_eq!(forward_chaining(&z, &kb, true), false);
    assert_eq!(backward_chaining(&z, &kb, true), false);
}

#[test]
fn solver_runs_either_engine() {
    for algorithm in [Algorithms::ForwardChaining, Algorithms::BackwardChaining] {
        let s = Solver::new(
            kb(&["P", "Q"], &[(&["P", "Q"], "R")]),
            "R".to_string(),
            algorithm,
            false,
        );
        assert!(s.solve());
        assert!(s.solve());
        let s = Solver::new(kb(&[], &[(&["A"], "B")]), "B".to_string(), algorithm, false);
        assert!(!s.solve());
    }
}
