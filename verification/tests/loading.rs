use horn_solver::solver::knowledge_base::text::{chars_of, piece, read_clause, scan_arrow, scan_char};
use horn_solver::solver::knowledge_base::KnowledgeBase;
use horn_solver::solver::{LoadError, Solver};

fn loaded(text: &str) -> KnowledgeBase {
    let mut kb = KnowledgeBase::new();
    assert_eq!(kb.load(&text.to_string()), Ok(()));
    kb
}

fn rejected(text: &str) {
    let mut kb = KnowledgeBase::new();
    kb.add_symbol("A".to_string());
    assert_eq!(kb.load(&text.to_string()), Err(LoadError::Clause));
    assert_eq!(facts(&kb), strings(&["A"]));
    assert!(clauses(&kb).is_empty());
}

fn facts(kb: &KnowledgeBase) -> Vec<String> {
    kb.iterate_symbols().clone()
}

fn clauses(kb: &KnowledgeBase) -> Vec<(Vec<String>, String)> {
    kb.iterate_implications()
        .iter()
        .map(|c| (c.iterate_premises().clone(), c.get_conclusion()))
        .collect()
}

fn strings(items: &[&str]) -> Vec<String> {
    items.iter().map(|s| s.to_string()).collect()
}

#[test]
fn load_reads_facts_and_implications() {
    let kb = loaded("P\nQ\nP,Q->R\n");
    assert_eq!(facts(&kb), strings(&["P", "Q"]));
    assert_eq!(clauses(&kb), vec![(strings(&["P", "Q"]), "R".to_string())]);
}

#[test]
fn load_of_empty_text_adds_nothing() {
    let kb = loaded("");
    assert!(facts(&kb).is_empty());
    assert!(clauses(&kb).is_empty());
}

#[test]
fn load_needs_no_final_line_feed() {
    let kb = loaded("P\nP->Q");
    assert_eq!(facts(&kb), strings(&["P"]));
    assert_eq!(clauses(&kb), vec![(strings(&["P"]), "Q".to_string())]);
}

#[test]
fn load_drops_carriage_return_before_line_feed() {
    let kb = loaded("P\r\nP->Q\r\nR\r");
    assert_eq!(facts(&kb), strings(&["P", "R\r"]));
    assert_eq!(clauses(&kb), vec![(strings(&["P"]), "Q".to_string())]);
}

#[test]
fn load_takes_empty_line_as_empty_fact() {
    let kb = loaded("P\n\nQ\n");
    assert_eq!(facts(&kb), strings(&["P", "", "Q"]));
    let kb = loaded("\n");
    assert_eq!(facts(&kb), strings(&[""]));
    let kb = loaded("\r\n");
    assert_eq!(facts(&kb), strings(&[""]));
}

#[test]
fn load_keeps_each_entry_once() {
    let kb = loaded("P\nP\nP,Q->R\nQ,P->R\nQ,P,Q->R\n");
    assert_eq!(facts(&kb), strings(&["P"]));
    assert_eq!(clauses(&kb), vec![(strings(&["P", "Q"]), "R".to_string())]);
}

#[test]
fn load_ends_conclusion_at_second_arrow() {
    let kb = loaded("A->B->C\n");
    assert!(facts(&kb).is_empty());
    assert_eq!(clauses(&kb), vec![(strings(&["A"]), "B".to_string())]);
    let kb = loaded("A->B->");
    assert_eq!(clauses(&kb), vec![(strings(&["A"]), "B".to_string())]);
    rejected("A->->C");
}

#[test]
fn load_keeps_empty_pieces() {
    let kb = loaded("->B\nA,,B->C\nP,->Q\n");
    assert_eq!(
        clauses(&kb),
        vec![
            (strings(&[""]), "B".to_string()),
            (strings(&["A", "", "B"]), "C".to_string()),
            (strings(&["P", ""]), "Q".to_string()),
        ]
    );
    rejected("->B\nA,,B->C\nP,->\n");
}

#[test]
fn load_rejects_an_implication_without_conclusion() {
    rejected("A->");
    rejected("A->\n");
    rejected("A->\r\n");
    rejected("->");
    rejected("P\nP->Q\nQ->\nR\n");
    rejected("P,Q->\nP->Q");
    rejected("P->Q\nP->->");
}

#[test]
fn load_of_a_rejected_text_adds_nothing() {
    let mut kb = loaded("P\nP->Q\n");
    let before = (facts(&kb), clauses(&kb));
    assert_eq!(kb.load(&"R\nR->S\nS->\n".to_string()), Err(LoadError::Clause));
    assert_eq!((facts(&kb), clauses(&kb)), before);
}

#[test]
fn load_wants_the_whole_arrow() {
    let kb = loaded("A-\nA>B\nA-->B\n-\n>\n");
    assert_eq!(facts(&kb), strings(&["A-", "A>B", "-", ">"]));
    assert_eq!(clauses(&kb), vec![(strings(&["A-"]), "B".to_string())]);
}

#[test]
fn load_handles_other_alphabets() {
    let kb = loaded("é\né,ü->ß\n");
    assert_eq!(facts(&kb), strings(&["é"]));
    assert_eq!(clauses(&kb), vec![(strings(&["é", "ü"]), "ß".to_string())]);
}

#[test]
fn load_adds_to_what_is_there() {
    let mut kb = KnowledgeBase::new();
    kb.add_symbol("A".to_string());
    assert_eq!(kb.load(&"B\nA\nA->C\n".to_string()), Ok(()));
    assert_eq!(kb.load(&"A->C\nD".to_string()), Ok(()));
    assert_eq!(facts(&kb), strings(&["A", "B", "D"]));
    assert_eq!(clauses(&kb), vec![(strings(&["A"]), "C".to_string())]);
}

#[test]
fn scanners_find_the_first_match() {
    let chars = chars_of("a,b->c,d->e");
    assert_eq!(chars.len(), 11);
    assert_eq!(scan_char(&chars, 0, 11, ','), 1);
    assert_eq!(scan_char(&chars, 2, 11, ','), 6);
    assert_eq!(scan_char(&chars, 2, 5, ','), 5);
    assert_eq!(scan_char(&chars, 7, 11, ','), 11);
    assert_eq!(scan_char(&chars, 3, 3, ','), 3);
    assert_eq!(scan_arrow(&chars, 0, 11), 3);
    assert_eq!(scan_arrow(&chars, 4, 11), 8);
    assert_eq!(scan_arrow(&chars, 0, 4), 4);
    assert_eq!(scan_arrow(&chars, 9, 11), 11);
    assert_eq!(scan_arrow(&chars, 3, 5), 3);
    assert_eq!(piece("a,b->c", 2, 3), "b");
    assert_eq!(piece("aé,b", 1, 3), "é,");
    assert_eq!(piece("abc", 1, 1), "");
}

#[test]
fn read_clause_reads_a_range() {
    let text = "x\na,b->c\ny";
    let chars = chars_of(text);
    let clause = read_clause(text, &chars, 2, 8);
    assert_eq!(clause.iterate_premises(), &strings(&["a", "b"]));
    assert_eq!(clause.get_conclusion(), "c");
}

fn problem(algorithm: &str, debug: &str, query: &str) -> String {
    format!(
        "#P\n#P->Q\n[inputs]\nquery={}\n[algorithm]\nalgorithm={}\ndebug={}\n",
        query, algorithm, debug
    )
}

#[test]
fn load_problem_reads_settings_and_knowledge() {
    for algorithm in ["forward chaining", "backward chaining"] {
        for debug in ["0", "1"] {
            let s = Solver::load_problem(problem(algorithm, debug, "Q")).unwrap();
            assert!(s.solve());
            let s = Solver::load_problem(problem(algorithm, debug, "#P")).unwrap();
            assert!(s.solve());
            let s = Solver::load_problem(problem(algorithm, debug, "[inputs]")).unwrap();
            assert!(s.solve());
            let s = Solver::load_problem(problem(algorithm, debug, "Z")).unwrap();
            assert!(!s.solve());
        }
    }
}

#[test]
fn load_problem_rejects_unknown_algorithm() {
    let made = Solver::load_problem(problem("sideways chaining", "0", "Q"));
    assert_eq!(made.err(), Some(LoadError::Algorithm));
    // An unknown engine is reported before an unknown trace switch.
    let made = Solver::load_problem(problem("sideways chaining", "2", "Q"));
    assert_eq!(made.err(), Some(LoadError::Algorithm));
}

#[test]
fn load_problem_rejects_unknown_debug() {
    let made = Solver::load_problem(problem("forward chaining", "yes", "Q"));
    assert_eq!(made.err(), Some(LoadError::Debug));
}

#[test]
fn load_problem_reports_missing_settings() {
    let text = "[inputs]\nquery=Q\n[algorithm]\nalgorithm=forward chaining\n";
    assert_eq!(Solver::load_problem(text.to_string()).err(), Some(LoadError::Structure));
    let text = "[inputs]\nquery=Q\n[algorithm]\ndebug=0\n";
    assert_eq!(Solver::load_problem(text.to_string()).err(), Some(LoadError::Structure));
    let text = "[inputs]\n[algorithm]\nalgorithm=forward chaining\ndebug=0\n";
    assert_eq!(Solver::load_problem(text.to_string()).err(), Some(LoadError::Structure));
    let text = "[algorithm]\nalgorithm=forward chaining\ndebug=0\n";
    assert_eq!(Solver::load_problem(text.to_string()).err(), Some(LoadError::Structure));
    assert_eq!(Solver::load_problem(String::new()).err(), Some(LoadError::Structure));
    // A missing setting is reported after an unknown one.
    let text = "[algorithm]\nalgorithm=forward chaining\ndebug=5\n";
    assert_eq!(Solver::load_problem(text.to_string()).err(), Some(LoadError::Debug));
}

#[test]
fn load_problem_rejects_an_implication_without_conclusion() {
    let text = format!("{}#P->\n", problem("forward chaining", "0", "Q"));
    assert_eq!(Solver::load_problem(text).err(), Some(LoadError::Clause));
    // The clause is reported before anything else.
    let text = "[inputs\nA->\n";
    assert_eq!(Solver::load_problem(text.to_string()).err(), Some(LoadError::Clause));
    let text = format!("{}#P->\n", problem("sideways chaining", "0", "Q"));
    assert_eq!(Solver::load_problem(text).err(), Some(LoadError::Clause));
}

#[test]
fn load_problem_reads_settings_behind_a_byte_order_mark() {
    // The mark is no part of the settings, and it is part of the first
    // entry of the knowledge base: the fact is not `#P`, so `Q` does not
    // follow.
    for algorithm in ["forward chaining", "backward chaining"] {
        let text = format!("\u{feff}{}", problem(algorithm, "0", "Q"));
        let s = Solver::load_problem(text).unwrap();
        assert!(!s.solve());
        let text = format!("\u{feff}{}", problem(algorithm, "0", "\u{feff}#P"));
        let s = Solver::load_problem(text).unwrap();
        assert!(s.solve());
        let text = format!(
            "\u{feff}[inputs]\nquery=[algorithm]\n[algorithm]\nalgorithm={}\ndebug=0\n",
            algorithm
        );
        let s = Solver::load_problem(text).unwrap();
        assert!(s.solve());
    }
    let text = "\u{feff}[inputs\n";
    assert_eq!(Solver::load_problem(text.to_string()).err(), Some(LoadError::Syntax));
}

#[test]
fn load_problem_rejects_what_is_no_ini_document() {
    let text = "[inputs\nquery=Q\n";
    assert_eq!(Solver::load_problem(text.to_string()).err(), Some(LoadError::Syntax));
}

#[test]
fn load_problem_looks_in_the_named_section() {
    // The settings are there, but under the wrong sections.
    let text = "[algorithm]\nquery=Q\n[inputs]\nalgorithm=forward chaining\ndebug=0\n";
    assert_eq!(Solver::load_problem(text.to_string()).err(), Some(LoadError::Structure));
}

#[test]
fn configure_selects_by_the_three_settings() {
    let some = |s: &str| Some(s.to_string());
    let made = Solver::configure(
        loaded("P\nP->Q"),
        some("Q"),
        some("backward chaining"),
        some("1"),
    );
    assert!(made.unwrap().solve());
    let made = Solver::configure(loaded("P"), some("Q"), some("forward chaining"), some("0"));
    assert!(!made.unwrap().solve());
    let made = Solver::configure(loaded("P"), some("Q"), some("Forward chaining"), some("0"));
    assert_eq!(made.err(), Some(LoadError::Algorithm));
    let made = Solver::configure(loaded("P"), None, some("nothing"), None);
    assert_eq!(made.err(), Some(LoadError::Algorithm));
    let made = Solver::configure(loaded("P"), some("Q"), some("forward chaining"), some(""));
    assert_eq!(made.err(), Some(LoadError::Debug));
    let made = Solver::configure(loaded("P"), None, None, some("3"));
    assert_eq!(made.err(), Some(LoadError::Debug));
    let made = Solver::configure(loaded("P"), None, some("forward chaining"), some("0"));
    assert_eq!(made.err(), Some(LoadError::Structure));
    let made = Solver::configure(loaded("P"), some("Q"), None, some("0"));
    assert_eq!(made.err(), Some(LoadError::Structure));
    let made = Solver::configure(loaded("P"), some("Q"), some("forward chaining"), None);
    assert_eq!(made.err(), Some(LoadError::Structure));
}
