use horn_solver::solver::backward_chaining;
use horn_solver::solver::forward_chaining;
use horn_solver::solver::knowledge_base::implication::Implication;
use horn_solver::solver::knowledge_base::KnowledgeBase;

fn sample() -> KnowledgeBase {
    let mut kb = KnowledgeBase::new();
    kb.add_symbol("P".to_string());
    kb.add_symbol("Q".to_string());
    let mut a = Implication::new();
    a.add_premise("P".to_string());
    a.add_premise("Q".to_string());
    a.set_conclusion("R".to_string());
    kb.add_implication(a);
    let mut b = Implication::new();
    b.set_conclusion("T".to_string());
    kb.add_implication(b);
    kb
}

#[test]
fn forward_toolbox_starts_with_what_is_given() {
    let kb = sample();
    let mut tb = forward_chaining::Toolbox::generate(&kb);
    assert!(!tb.is_queue_empty());
    assert!(!tb.is_count_zero(0));
    assert!(tb.is_count_zero(1));
    assert!(!tb.is_count_zero(2));
    assert!(!tb.is_already_inferred(&"P".to_string()));
    let mut popped = Vec::new();
    while let Some(s) = tb.pop_symbol() {
        popped.push(s);
    }
    popped.sort();
    assert_eq!(popped, vec!["P".to_string(), "Q".to_string(), "T".to_string()]);
    assert!(tb.is_queue_empty());
    assert_eq!(tb.pop_symbol(), None);
}

#[test]
fn forward_toolbox_queue_is_first_in_first_out() {
    let kb = KnowledgeBase::new();
    let mut tb = forward_chaining::Toolbox::generate(&kb);
    assert!(tb.is_queue_empty());
    tb.push_symbol("A".to_string());
    tb.push_symbol("B".to_string());
    assert!(!tb.is_queue_empty());
    assert_eq!(tb.pop_symbol(), Some("A".to_string()));
    tb.push_symbol("C".to_string());
    assert_eq!(tb.pop_symbol(), Some("B".to_string()));
    assert_eq!(tb.pop_symbol(), Some("C".to_string()));
    assert_eq!(tb.pop_symbol(), None);
}

#[test]
fn forward_toolbox_counts_down_to_zero() {
    let kb = sample();
    let mut tb = forward_chaining::Toolbox::generate(&kb);
    tb.decrease_count(0);
    assert!(!tb.is_count_zero(0));
    tb.decrease_count(0);
    assert!(tb.is_count_zero(0));
    tb.decrease_count(7);
    assert!(tb.is_count_zero(0));
    assert!(tb.is_count_zero(1));
    assert!(!tb.is_count_zero(7));
}

#[test]
fn forward_toolbox_marks_inferred_symbols() {
    let kb = sample();
    let mut tb = forward_chaining::Toolbox::generate(&kb);
    tb.set_inferred(&"P".to_string());
    tb.set_inferred(&"Z".to_string());
    tb.set_inferred(&"P".to_string());
    assert!(tb.is_already_inferred(&"P".to_string()));
    assert!(tb.is_already_inferred(&"Z".to_string()));
    assert!(!tb.is_already_inferred(&"Q".to_string()));
}

#[test]
fn backward_toolbox_follows_the_path() {
    let kb = sample();
    let mut tb = backward_chaining::Toolbox::generate(&kb, &"R".to_string());
    assert!(!tb.already_reached(&"R".to_string()));
    tb.set_reached(&"R".to_string());
    tb.set_reached(&"P".to_string());
    assert!(tb.already_reached(&"R".to_string()));
    assert!(tb.already_reached(&"P".to_string()));
    assert!(!tb.already_reached(&"Q".to_string()));
    tb.leave();
    assert!(tb.already_reached(&"R".to_string()));
    assert!(!tb.already_reached(&"P".to_string()));
    tb.leave();
    assert!(!tb.already_reached(&"R".to_string()));
}

#[test]
fn search_respects_the_path() {
    let kb = sample();
    let mut tb = backward_chaining::Toolbox::generate(&kb, &"R".to_string());
    assert!(backward_chaining::or_search(&"R".to_string(), &kb, &mut tb, false));
    assert!(backward_chaining::or_search(&"T".to_string(), &kb, &mut tb, false));
    tb.set_reached(&"P".to_string());
    // P is being proved: neither P nor what needs P can be proved now.
    assert!(!backward_chaining::or_search(&"P".to_string(), &kb, &mut tb, false));
    assert!(!backward_chaining::or_search(&"R".to_string(), &kb, &mut tb, false));
    assert!(backward_chaining::or_search(&"Q".to_string(), &kb, &mut tb, false));
    let premises = vec!["Q".to_string(), "T".to_string()];
    assert!(backward_chaining::and_search(&premises, &kb, &mut tb, false));
    let premises = vec!["Q".to_string(), "P".to_string()];
    assert!(!backward_chaining::and_search(&premises, &kb, &mut tb, false));
    assert!(backward_chaining::and_search(&Vec::new(), &kb, &mut tb, false));
    tb.leave();
    assert!(backward_chaining::or_search(&"R".to_string(), &kb, &mut tb, false));
}
