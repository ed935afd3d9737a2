//! The two entailment engines, the knowledge base they read, and the solver
//! that holds a problem and runs the chosen engine on it.

use crate::solver::backward_chaining::backward_chaining;
use crate::solver::entailment::{lemma_engines_agree, Symbol, Theory};
use crate::solver::forward_chaining::forward_chaining;
use crate::solver::knowledge_base::text::{entries, well_formed};
use crate::solver::knowledge_base::KnowledgeBase;
use crate::solver::settings::{
    ini_document, ini_get, lookup, name_of, parse_ini, settings_of, settings_text,
};
use vstd::prelude::*;

pub mod backward_chaining;
pub mod entailment;
pub mod forward_chaining;
pub mod knowledge_base;
pub mod settings;

verus! {

/// The engine that a solver runs.
#[derive(Debug, Clone, Copy, PartialEq, Eq, Structural)]
pub enum Algorithms {
    ForwardChaining,
    BackwardChaining,
}

/// Why a text gives no problem.
#[derive(Debug, Clone, Copy, PartialEq, Eq, Structural)]
pub enum LoadError {
    /// A line of the knowledge base holds an arrow and no conclusion.
    Clause,
    /// The text is no INI document.
    Syntax,
    /// The engine named is neither of the two.
    Algorithm,
    /// The trace switch is neither `1` nor `0`.
    Debug,
    /// The query, the engine or the trace switch is missing.
    Structure,
}

/// What the three settings select: an unknown engine is reported first, then
/// an unknown trace switch, then a missing setting.
pub open spec fn selection(
    query: Option<Seq<char>>,
    algorithm: Option<Seq<char>>,
    debug: Option<Seq<char>>,
) -> Result<(Seq<char>, Algorithms, bool), LoadError> {
    if algorithm is Some && algorithm->0 != "forward chaining"@ && algorithm->0
        != "backward chaining"@ {
        Err(LoadError::Algorithm)
    } else if debug is Some && debug->0 != "1"@ && debug->0 != "0"@ {
        Err(LoadError::Debug)
    } else if query is None || algorithm is None || debug is None {
        Err(LoadError::Structure)
    } else {
        Ok(
            (
                query->0,
                if algorithm->0 == "forward chaining"@ {
                    Algorithms::ForwardChaining
                } else {
                    Algorithms::BackwardChaining
                },
                debug->0 == "1"@,
            ),
        )
    }
}

/// A problem: a knowledge base, a query, and the engine to decide it with.
#[derive(Debug)]
pub struct Solver {
    kb: KnowledgeBase,
    query: String,
    algorithm_used: Algorithms,
    debug: bool,
}

impl Solver {
    /// The knowledge base is well formed.
    pub closed spec fn wf(&self) -> bool {
        self.kb.wf()
    }

    /// The knowledge base of the problem.
    pub closed spec fn knowledge(&self) -> KnowledgeBase {
        self.kb
    }

    /// The query of the problem.
    pub closed spec fn question(&self) -> Symbol {
        self.query@
    }

    /// The engine that `solve` runs.
    pub closed spec fn algorithm(&self) -> Algorithms {
        self.algorithm_used
    }

    /// Whether tracing was asked for.
    pub closed spec fn traced(&self) -> bool {
        self.debug
    }

    /// A solver for the given problem.
    pub fn new(
        kb: KnowledgeBase,
        query: String,
        algorithm_used: Algorithms,
        debug: bool,
    ) -> (solver: Self)
        requires
            kb.wf(),
        ensures
            solver.wf(),
            solver.knowledge() == kb,
            solver.question() == query@,
            solver.algorithm() == algorithm_used,
            solver.traced() == debug,
    {
        Solver { kb, query, algorithm_used, debug }
    }

    /// `made` is the solver for `kb` that the three settings select, or the
    /// error that they give.
    pub open spec fn selected(
        made: Result<Solver, LoadError>,
        kb: Theory,
        query: Option<Seq<char>>,
        algorithm: Option<Seq<char>>,
        debug: Option<Seq<char>>,
    ) -> bool {
        match selection(query, algorithm, debug) {
            Ok((question, engine, traced)) => {
                &&& made is Ok
                &&& made->Ok_0.wf()
                &&& made->Ok_0.knowledge()@ == kb
                &&& made->Ok_0.question() == question
                &&& made->Ok_0.algorithm() == engine
                &&& made->Ok_0.traced() == traced
            },
            Err(e) => made is Err && made->Err_0 == e,
        }
    }

    /// The solver for `kb` that the three settings select: the query, the
    /// engine (`forward chaining` or `backward chaining`) and the trace
    /// switch (`1` or `0`), each as the document gave it, if it did.
    pub fn configure(
        kb: KnowledgeBase,
        query: Option<String>,
        algorithm: Option<String>,
        debug: Option<String>,
    ) -> (made: Result<Solver, LoadError>)
        requires
            kb.wf(),
        ensures
            Self::selected(made, kb@, name_of(query), name_of(algorithm), name_of(debug)),
    {
        let forward = "forward chaining".to_owned();
        let backward = "backward chaining".to_owned();
        let on = "1".to_owned();
        let off = "0".to_owned();
        let mut algorithm_used = Algorithms::ForwardChaining;
        match &algorithm {
            Some(a) => {
                if *a == forward {
                    algorithm_used = Algorithms::ForwardChaining;
                } else if *a == backward {
                    algorithm_used = Algorithms::BackwardChaining;
                } else {
                    return Err(LoadError::Algorithm);
                }
            },
            None => {},
        }
        let mut traced = false;
        match &debug {
            Some(d) => {
                if *d == on {
                    traced = true;
                } else if *d == off {
                    traced = false;
                } else {
                    return Err(LoadError::Debug);
                }
            },
            None => {},
        }
        if algorithm.is_none() || debug.is_none() {
            return Err(LoadError::Structure);
        }
        match query {
            Some(q) => Ok(Solver { kb, query: q, algorithm_used, debug: traced }),
            None => Err(LoadError::Structure),
        }
    }

    /// The problem that `file` states, the text of a problem file. Every
    /// line of the text is an entry of the knowledge base, and the text as a
    /// whole, without the byte order mark that may stand at its head, is an
    /// INI document with the query under `query` in `[inputs]`, the engine
    /// under `algorithm` and the trace switch under `debug` in
    /// `[algorithm]`. A text in which an implication lacks its conclusion
    /// gives `LoadError::Clause`; after that, a text that the `ini` crate
    /// rejects gives `LoadError::Syntax`.
    pub fn load_problem(file: String) -> (made: Result<Solver, LoadError>)
        ensures
            if !well_formed(file@) {
                made is Err && made->Err_0 == LoadError::Clause
            } else {
                match ini_document(settings_text(file@)) {
                    Some(values) => Self::selected(
                        made,
                        entries(file@),
                        lookup(values, "inputs"@, "query"@),
                        lookup(values, "algorithm"@, "algorithm"@),
                        lookup(values, "algorithm"@, "debug"@),
                    ),
                    None => made is Err && made->Err_0 == LoadError::Syntax,
                }
            },
    {
        let mut kb = KnowledgeBase::new();
        match kb.load(&file) {
            Ok(()) => {},
            Err(e) => { return Err(e); },
        }
        proof {
            let loaded = entries(file@);
            assert(kb@.facts =~= loaded.facts);
            assert(kb@.clauses =~= loaded.clauses);
        }
        let config = match parse_ini(settings_of(file.as_str())) {
            Ok(config) => config,
            Err(_) => { return Err(LoadError::Syntax); },
        };
        let query = ini_get(&config, "inputs", "query");
        let algorithm = ini_get(&config, "algorithm", "algorithm");
        let debug = ini_get(&config, "algorithm", "debug");
        Solver::configure(kb, query, algorithm, debug)
    }

    /// Runs the chosen engine on the query. Whichever engine runs, the
    /// answer is whether the knowledge base entails the query, which is to
    /// say whether the query has a derivation; the solver itself is only
    /// read, so a second call gives the same answer.
    pub fn solve(&self) -> (answer: bool)
        requires
            self.wf(),
        ensures
            answer == self.knowledge()@.entails(self.question()),
            answer == self.knowledge()@.derives(self.question()),
    {
        proof {
            self.kb.lemma_clause_seq();
            lemma_engines_agree(self.kb@, self.query@);
        }
        match self.algorithm_used {
            Algorithms::ForwardChaining => forward_chaining(&self.query, &self.kb, self.debug),
            Algorithms::BackwardChaining => backward_chaining(&self.query, &self.kb, self.debug),
        }
    }
}

/// The answer of either engine is settled by what the knowledge base holds
/// and by the name of the query: two knowledge bases with the same facts and
/// the same clauses, in whatever order they were filled, give the same
/// answer to queries of the same name. So a second run on the same problem
/// repeats the answer of the first.
pub proof fn lemma_answer_settled(a: KnowledgeBase, b: KnowledgeBase, p: String, q: String)
    requires
        a@.facts =~= b@.facts,
        a@.clauses =~= b@.clauses,
        p@ == q@,
    ensures
        a@.entails(p@) == b@.entails(q@),
        a@.derives(p@) == b@.derives(q@),
{
    assert(a@ == b@);
}

} // verus!
