//! The text form of a knowledge base. Each line is one entry: a line with
//! `->` in it is an implication, `premise,premise,...->conclusion`, and must
//! name a conclusion; any other line, the empty one too, is a fact. Lines end at a line feed, and
//! a carriage return just before the line feed is not part of the line; the
//! last line needs no line feed.

use crate::solver::entailment::{Clause, Symbol, Theory};
use crate::solver::knowledge_base::implication::Implication;
use vstd::prelude::*;
use vstd::string::StrSliceExecFns;

verus! {

/// The first place in `from..to` at which `c` stands, or `to`.
pub open spec fn find_char(text: Seq<char>, from: int, to: int, c: char) -> int
    decreases to - from,
{
    if from >= to {
        to
    } else if text[from] == c {
        from
    } else {
        find_char(text, from + 1, to, c)
    }
}

/// The first place in `from..to` at which `->` stands whole, or `to`.
pub open spec fn find_arrow(text: Seq<char>, from: int, to: int) -> int
    decreases to - from,
{
    if from + 1 >= to {
        to
    } else if text[from] == '-' && text[from + 1] == '>' {
        from
    } else {
        find_arrow(text, from + 1, to)
    }
}

/// The pieces of `from..to` between commas.
pub open spec fn fields(text: Seq<char>, from: int, to: int) -> Set<Symbol>
    decreases to - from,
    via fields_decreases
{
    let comma = find_char(text, from, to, ',');
    if from >= to || comma >= to {
        set![text.subrange(from, to)]
    } else {
        fields(text, comma + 1, to).insert(text.subrange(from, comma))
    }
}

#[via_fn]
proof fn fields_decreases(text: Seq<char>, from: int, to: int) {
    if from < to {
        lemma_find_char_bounds(text, from, to, ',');
    }
}

/// The clause written in `from..to`, a range that holds an arrow: the
/// premises are the pieces before the first arrow, the conclusion is what
/// stands between the first arrow and the second, or the end.
pub open spec fn clause_at(text: Seq<char>, from: int, to: int) -> Clause {
    let arrow = find_arrow(text, from, to);
    Clause {
        premises: fields(text, from, arrow),
        conclusion: text.subrange(arrow + 2, find_arrow(text, arrow + 2, to)),
    }
}

/// Where the line that starts at `from` ends: at the line feed, or at the
/// carriage return before it, or at the end of the text.
pub open spec fn line_end(text: Seq<char>, from: int) -> int {
    let feed = find_char(text, from, text.len() as int, '\n');
    if from < feed < text.len() && text[feed - 1] == '\r' {
        feed - 1
    } else {
        feed
    }
}

/// Where the line after the one that starts at `from` starts.
pub open spec fn next_line(text: Seq<char>, from: int) -> int {
    let feed = find_char(text, from, text.len() as int, '\n');
    if feed < text.len() {
        feed + 1
    } else {
        feed
    }
}

/// `theory` with the entry written in `from..to`.
pub open spec fn with_entry(theory: Theory, text: Seq<char>, from: int, to: int) -> Theory {
    if find_arrow(text, from, to) < to {
        Theory { facts: theory.facts, clauses: theory.clauses.insert(clause_at(text, from, to)) }
    } else {
        Theory { facts: theory.facts.insert(text.subrange(from, to)), clauses: theory.clauses }
    }
}

/// What the lines of `text` from place `from` on say.
pub open spec fn entries_from(text: Seq<char>, from: int) -> Theory
    decreases text.len() - from,
    via entries_from_decreases
{
    if 0 <= from < text.len() {
        with_entry(entries_from(text, next_line(text, from)), text, from, line_end(text, from))
    } else {
        Theory { facts: Set::empty(), clauses: Set::empty() }
    }
}

#[via_fn]
proof fn entries_from_decreases(text: Seq<char>, from: int) {
    if 0 <= from < text.len() {
        lemma_find_char_bounds(text, from, text.len() as int, '\n');
    }
}

/// The entry written in `from..to` is well formed: where it holds an arrow,
/// a conclusion stands behind the first arrow.
pub open spec fn entry_well_formed(text: Seq<char>, from: int, to: int) -> bool {
    let arrow = find_arrow(text, from, to);
    arrow < to ==> find_arrow(text, arrow + 2, to) > arrow + 2
}

/// Every line of `text` from place `from` on is a well-formed entry.
pub open spec fn well_formed_from(text: Seq<char>, from: int) -> bool
    decreases text.len() - from,
    via well_formed_from_decreases
{
    if 0 <= from < text.len() {
        entry_well_formed(text, from, line_end(text, from)) && well_formed_from(
            text,
            next_line(text, from),
        )
    } else {
        true
    }
}

#[via_fn]
proof fn well_formed_from_decreases(text: Seq<char>, from: int) {
    if 0 <= from < text.len() {
        lemma_find_char_bounds(text, from, text.len() as int, '\n');
    }
}

/// Every line of `text` is a well-formed entry: no implication lacks its
/// conclusion.
pub open spec fn well_formed(text: Seq<char>) -> bool {
    well_formed_from(text, 0)
}

/// What `text` says.
pub open spec fn entries(text: Seq<char>) -> Theory {
    entries_from(text, 0)
}

/// In a well-formed text every implication from place `from` on names a
/// conclusion.
pub proof fn lemma_entries_conclude_from(text: Seq<char>, from: int)
    requires
        well_formed_from(text, from),
    ensures
        forall|c: Clause| #[trigger]
            entries_from(text, from).clauses.contains(c) ==> c.conclusion.len() > 0,
    decreases text.len() - from,
{
    if 0 <= from < text.len() {
        let to = line_end(text, from);
        let arrow = find_arrow(text, from, to);
        let rest = entries_from(text, next_line(text, from));
        lemma_find_char_bounds(text, from, text.len() as int, '\n');
        lemma_entries_conclude_from(text, next_line(text, from));
        lemma_find_arrow_bounds(text, from, to);
        if arrow < to {
            lemma_find_arrow_bounds(text, arrow + 2, to);
            let made = clause_at(text, from, to);
            assert(made.conclusion.len() > 0);
            assert forall|c: Clause| #[trigger]
                entries_from(text, from).clauses.contains(c) implies c.conclusion.len() > 0 by {
                assert(c == made || rest.clauses.contains(c));
            }
        }
    }
}

/// `find_arrow` stays within its range, and an arrow that it finds lies
/// whole within it.
pub proof fn lemma_find_arrow_bounds(text: Seq<char>, from: int, to: int)
    requires
        from <= to,
    ensures
        from <= find_arrow(text, from, to) <= to,
        find_arrow(text, from, to) < to ==> find_arrow(text, from, to) + 2 <= to,
    decreases to - from,
{
    if from + 1 < to && !(text[from] == '-' && text[from + 1] == '>') {
        lemma_find_arrow_bounds(text, from + 1, to);
    }
}

/// In a well-formed text every implication names a conclusion.
pub proof fn lemma_entries_conclude(text: Seq<char>)
    requires
        well_formed(text),
    ensures
        forall|c: Clause| #[trigger] entries(text).clauses.contains(c) ==> c.conclusion.len() > 0,
{
    lemma_entries_conclude_from(text, 0);
}

/// `find_char` stays within its range.
pub proof fn lemma_find_char_bounds(text: Seq<char>, from: int, to: int, c: char)
    requires
        from <= to,
    ensures
        from <= find_char(text, from, to, c) <= to,
    decreases to - from,
{
    if from < to && text[from] != c {
        lemma_find_char_bounds(text, from + 1, to, c);
    }
}

/// The characters of `text`.
pub fn chars_of(text: &str) -> (chars: Vec<char>)
    ensures
        chars@ == text@,
{
    let n = text.unicode_len();
    let mut chars: Vec<char> = Vec::new();
    let mut i: usize = 0;
    while i < n
        invariant
            n == text@.len(),
            i <= n,
            chars@ == text@.subrange(0, i as int),
        decreases n - i,
    {
        chars.push(text.get_char(i));
        assert(chars@ =~= text@.subrange(0, i + 1));
        i += 1;
    }
    assert(chars@ =~= text@);
    chars
}

/// The first place in `from..to` at which `c` stands, or `to`.
pub fn scan_char(chars: &Vec<char>, from: usize, to: usize, c: char) -> (at: usize)
    requires
        from <= to <= chars@.len(),
    ensures
        at == find_char(chars@, from as int, to as int, c),
        from <= at <= to,
        at < to ==> chars@[at as int] == c,
{
    let mut i: usize = from;
    while i < to && chars[i] != c
        invariant
            from <= i <= to <= chars@.len(),
            find_char(chars@, from as int, to as int, c) == find_char(chars@, i as int, to as int, c),
        decreases to - i,
    {
        i += 1;
    }
    i
}

/// The first place in `from..to` at which `->` stands whole, or `to`.
pub fn scan_arrow(chars: &Vec<char>, from: usize, to: usize) -> (at: usize)
    requires
        from <= to <= chars@.len(),
    ensures
        at == find_arrow(chars@, from as int, to as int),
        from <= at <= to,
        at < to ==> at + 1 < to,
{
    let mut i: usize = from;
    while to - i > 1 && !(chars[i] == '-' && chars[i + 1] == '>')
        invariant
            from <= i <= to <= chars@.len(),
            find_arrow(chars@, from as int, to as int) == find_arrow(chars@, i as int, to as int),
        decreases to - i,
    {
        i += 1;
    }
    if to - i > 1 {
        i
    } else {
        to
    }
}

/// The piece `from..to` of `text`, as a string of its own.
pub fn piece(text: &str, from: usize, to: usize) -> (symbol: String)
    requires
        from <= to <= text@.len(),
    ensures
        symbol@ == text@.subrange(from as int, to as int),
{
    text.substring_char(from, to).to_owned()
}

/// The implication written in `from..to` of `text`, a range that holds an
/// arrow. `chars` holds the characters of `text`.
pub fn read_clause(text: &str, chars: &Vec<char>, from: usize, to: usize) -> (clause: Implication)
    requires
        chars@ == text@,
        from <= to <= chars@.len(),
        find_arrow(chars@, from as int, to as int) < to,
    ensures
        clause.wf(),
        clause@ == clause_at(text@, from as int, to as int),
        entry_well_formed(text@, from as int, to as int) ==> clause@.conclusion.len() > 0,
{
    let arrow = scan_arrow(chars, from, to);
    let mut clause = Implication::new();
    let mut at: usize = from;
    let mut more = true;
    while more
        invariant
            chars@ == text@,
            from <= at <= arrow < to <= chars@.len(),
            clause.wf(),
            clause@.conclusion == Seq::<char>::empty(),
            more ==> clause@.premises.union(fields(text@, at as int, arrow as int)) == fields(
                text@,
                from as int,
                arrow as int,
            ),
            !more ==> clause@.premises == fields(text@, from as int, arrow as int),
        decreases arrow - at + (if more { 1int } else { 0int }),
    {
        let ghost before = clause@.premises;
        let comma = scan_char(chars, at, arrow, ',');
        clause.add_premise(piece(text, at, comma));
        if comma < arrow {
            assert(clause@.premises.union(fields(text@, comma + 1, arrow as int)) =~= before.union(
                fields(text@, at as int, arrow as int),
            ));
            at = comma + 1;
        } else {
            assert(clause@.premises =~= before.union(fields(text@, at as int, arrow as int)));
            more = false;
        }
    }
    let stop = scan_arrow(chars, arrow + 2, to);
    clause.set_conclusion(piece(text, arrow + 2, stop));
    clause
}

/// Whether every line of the text with the characters `chars` is a
/// well-formed entry.
pub fn check_text(chars: &Vec<char>) -> (ok: bool)
    ensures
        ok == well_formed(chars@),
{
    let n = chars.len();
    let mut start: usize = 0;
    while start < n
        invariant
            n == chars@.len(),
            start <= n,
            well_formed(chars@) == well_formed_from(chars@, start as int),
        decreases n - start,
    {
        let feed = scan_char(chars, start, n, '\n');
        let end = if start < feed && feed < n && chars[feed - 1] == '\r' {
            feed - 1
        } else {
            feed
        };
        let arrow = scan_arrow(chars, start, end);
        if arrow < end {
            let stop = scan_arrow(chars, arrow + 2, end);
            if stop == arrow + 2 {
                return false;
            }
        }
        start = if feed < n {
            feed + 1
        } else {
            feed
        };
    }
    true
}

} // verus!
