//! Entailment for propositional Horn knowledge bases: a knowledge base of
//! facts and definite clauses, and two engines that decide whether a query
//! symbol follows from it.

pub mod solver;
