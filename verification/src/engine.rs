//! The adapter around the Datalog collaborator. Its types are declared
//! opaquely and every call into it goes through a small trusted wrapper;
//! the decisions between the calls — validating the input, splitting
//! program from query, building the schema, classifying extensional
//! predicates, and shaping the response — are verified against the clause
//! shapes extracted from the parse.
//!
//! Parsing, program construction and stratification are the collaborator's.
//! Evaluation is not: the engine crate's naive reference evaluator treats a
//! positive premise as satisfied only when no stored atom matches it, so it
//! derives nothing from ordinary rules. The fixed point is therefore
//! computed by this library's own verified evaluator, on plain values read
//! off the parsed clauses.

use vstd::prelude::*;

use crate::eval;
use crate::response;
use crate::shape;
use crate::shape::ClauseShape;
use crate::text;
use mangle_ast::PrettyPrint;

verus! {

/// The arena holding every term of one invocation.
#[verifier::external_type_specification]
#[verifier::external_body]
pub struct ExArena(mangle_ast::Arena);

/// An interned predicate symbol; equality is identity of the index.
#[verifier::external_type_specification]
#[verifier::external_body]
pub struct ExPredicateIndex(mangle_ast::PredicateIndex);

/// A parsed compilation unit: an ordered list of clauses.
#[verifier::external_type_specification]
#[verifier::external_body]
pub struct ExUnit<'a>(mangle_ast::Unit<'a>);

/// A clause: a head atom and an ordered list of premises.
#[verifier::external_type_specification]
#[verifier::external_body]
pub struct ExClause<'a>(mangle_ast::Clause<'a>);

/// The parser over the input bytes. It is held in a struct of this
/// library's own because the reader type parameter of
/// `mangle_parse::Parser` carries a trait bound that cannot be declared
/// here.
#[verifier::external_body]
pub struct InputParser<'a> {
    inner: mangle_parse::Parser<'a, &'a [u8]>,
}

/// A deductive program: extensional predicates and rules.
#[verifier::external_type_specification]
#[verifier::external_body]
pub struct ExProgram<'p>(mangle_analysis::Program<'p>);

/// A program whose predicates have been partitioned into strata.
#[verifier::external_type_specification]
#[verifier::external_body]
pub struct ExStratifiedProgram<'p>(mangle_analysis::StratifiedProgram<'p>);

/// Relies on `mangle_ast::Arena::new_with_global_interner`: a fresh arena
/// sharing the process-wide symbol interner.
#[verifier::external_body]
fn arena_new() -> mangle_ast::Arena {
    mangle_ast::Arena::new_with_global_interner()
}

/// Relies on `mangle_parse::Parser::new`: a parser over the input bytes,
/// labelled with a source name.
#[verifier::external_body]
fn parser_new<'a>(arena: &'a mangle_ast::Arena, text_in: &'a str, label: &str) -> InputParser<
    'a,
> {
    InputParser { inner: mangle_parse::Parser::new(arena, text_in.as_bytes(), label) }
}

/// Relies on `mangle_parse::Parser::next_token`: advances the lexer to the
/// first token; a lexer failure is returned as its message.
#[verifier::external_body]
fn parser_advance<'a>(p: &mut InputParser<'a>) -> Result<(), String> {
    p.inner.next_token().map_err(|e| e.to_string())
}

/// Relies on `mangle_parse::Parser::parse_unit`: parses a compilation unit;
/// a parse failure is returned as its message.
#[verifier::external_body]
fn parser_unit<'a>(p: &mut InputParser<'a>) -> Result<&'a mangle_ast::Unit<'a>, String> {
    p.inner.parse_unit().map_err(|e| e.to_string())
}

/// Relies on the `clauses` field of `mangle_ast::Unit`: the parsed clauses
/// in input order.
#[verifier::external_body]
fn unit_clauses<'a>(u: &'a mangle_ast::Unit<'a>) -> Vec<&'a mangle_ast::Clause<'a>> {
    u.clauses.to_vec()
}

/// Relies on the `premises` field of `mangle_ast::Clause`: how many
/// premises the clause has.
#[verifier::external_body]
fn clause_premise_count(c: &mangle_ast::Clause<'_>) -> usize {
    c.premises.len()
}

/// Relies on the `head` field of `mangle_ast::Clause`: the predicate symbol
/// of the head atom.
#[verifier::external_body]
fn clause_head_sym(c: &mangle_ast::Clause<'_>) -> mangle_ast::PredicateIndex {
    c.head.sym
}

/// Relies on the `premises` field of `mangle_ast::Clause`: the predicate
/// symbol of premise `j` when that premise is an atom, `None` otherwise.
#[verifier::external_body]
fn clause_premise_atom_sym(
    c: &mangle_ast::Clause<'_>,
    j: usize,
) -> Option<mangle_ast::PredicateIndex> {
    match c.premises.get(j) {
        Some(mangle_ast::Term::Atom(a)) => Some(a.sym),
        _ => None,
    }
}

/// Relies on the derived `PartialEq` of `mangle_ast::PredicateIndex`:
/// whether the two interned indices are the same symbol.
#[verifier::external_body]
fn pred_eq(a: &mangle_ast::PredicateIndex, b: &mangle_ast::PredicateIndex) -> (r: bool)
    ensures
        r == (a == b),
{
    a == b
}

/// Relies on `mangle_analysis::Program::new`: an empty program bound to the
/// arena, with no extensional predicates and no rules.
#[verifier::external_body]
fn program_new<'p>(arena: &'p mangle_ast::Arena) -> mangle_analysis::Program<'p> {
    mangle_analysis::Program::new(arena)
}

/// Relies on `mangle_analysis::Program::add_clause`: adds the clause to the
/// program's rule set under its head predicate.
#[verifier::external_body]
fn program_add_rule<'p, 'c>(
    p: &mut mangle_analysis::Program<'p>,
    arena: &'c mangle_ast::Arena,
    c: &'c mangle_ast::Clause<'c>,
) {
    p.add_clause(arena, c);
}

/// Relies on the `ext_preds` field of `mangle_analysis::Program`: sets the
/// program's extensional predicate list.
#[verifier::external_body]
fn program_set_ext_preds<'p>(
    p: &mut mangle_analysis::Program<'p>,
    preds: Vec<mangle_ast::PredicateIndex>,
) {
    p.ext_preds = preds;
}

/// Relies on `mangle_analysis::Program::stratify`: partitions the program
/// into strata, or fails. Its source has a single failure, the fixed text
/// `program cannot be stratified`, and that text is passed through bare.
#[verifier::external_body]
fn stratify_program<'p>(p: mangle_analysis::Program<'p>) -> (r: Result<
    mangle_analysis::StratifiedProgram<'p>,
    String,
>)
    ensures
        r matches Err(m) ==> m@ == "program cannot be stratified"@,
{
    p.stratify()
}

/// Relies on the argument list of the head atom of `mangle_ast::Clause`:
/// how many arguments it has.
#[verifier::external_body]
fn clause_head_arg_count(c: &mangle_ast::Clause<'_>) -> usize {
    c.head.args.len()
}

/// Relies on the head atom of `mangle_ast::Clause` and on `PrettyPrint`:
/// argument `i` as a plain term — a variable's identifier and printed
/// name, or a constant's canonical printed form, which stands for its
/// value. A function application yields `None`.
#[verifier::external_body]
fn clause_head_arg(
    arena: &mangle_ast::Arena,
    c: &mangle_ast::Clause<'_>,
    i: usize,
) -> Option<crate::eval::TermShape> {
    match c.head.args.get(i).map(|t| **t) {
        Some(mangle_ast::BaseTerm::Variable(v)) => Some(
            crate::eval::TermShape::Var(v.0, format!("{}", v.pretty(arena))),
        ),
        Some(mangle_ast::BaseTerm::Const(k)) => Some(
            crate::eval::TermShape::Const(format!("{}", k.pretty(arena))),
        ),
        _ => None,
    }
}

/// Relies on the `premises` field of `mangle_ast::Clause`: how many
/// arguments the atom premise `j` has, when that premise is an atom.
#[verifier::external_body]
fn clause_premise_arg_count(c: &mangle_ast::Clause<'_>, j: usize) -> Option<usize> {
    match c.premises.get(j) {
        Some(mangle_ast::Term::Atom(a)) => Some(a.args.len()),
        _ => None,
    }
}

/// Relies on the `premises` field of `mangle_ast::Clause` and on
/// `PrettyPrint`: argument `i` of atom premise `j` as a plain term, as for
/// the head.
#[verifier::external_body]
fn clause_premise_arg(
    arena: &mangle_ast::Arena,
    c: &mangle_ast::Clause<'_>,
    j: usize,
    i: usize,
) -> Option<crate::eval::TermShape> {
    let a = match c.premises.get(j) {
        Some(mangle_ast::Term::Atom(a)) => a,
        _ => return None,
    };
    match a.args.get(i).map(|t| **t) {
        Some(mangle_ast::BaseTerm::Variable(v)) => Some(
            crate::eval::TermShape::Var(v.0, format!("{}", v.pretty(arena))),
        ),
        Some(mangle_ast::BaseTerm::Const(k)) => Some(
            crate::eval::TermShape::Const(format!("{}", k.pretty(arena))),
        ),
        _ => None,
    }
}

/// Relies on `mangle_ast::PrettyPrint::pretty` for `PredicateIndex`: the
/// predicate's name.
#[verifier::external_body]
fn pred_text(arena: &mangle_ast::Arena, p: &mangle_ast::PredicateIndex) -> String {
    format!("{}", p.pretty(arena))
}

/// The distinct predicate symbols seen so far; the position of a symbol is
/// its identifier in the clause shapes.
struct PredTable {
    items: Vec<mangle_ast::PredicateIndex>,
}

impl PredTable {
    /// No symbol is recorded twice, so identifier equality is symbol
    /// equality.
    spec fn wf(self) -> bool {
        forall|i: int, j: int|
            0 <= i < j < self.items@.len() ==> self.items@[i] != self.items@[j]
    }

    fn new() -> (t: PredTable)
        ensures
            t.wf(),
            t.items@.len() == 0,
    {
        PredTable { items: Vec::new() }
    }

    /// The identifier of `p`, added at the end when it is new.
    fn intern(&mut self, p: &mangle_ast::PredicateIndex) -> (id: usize)
        requires
            old(self).wf(),
        ensures
            final(self).wf(),
            old(self).items@.is_prefix_of(final(self).items@),
            id < final(self).items@.len(),
            final(self).items@[id as int] == *p,
    {
        let n = self.items.len();
        let mut i: usize = 0;
        while i < n
            invariant
                old(self).wf(),
                n == self.items@.len(),
                i <= n,
                self.items@ == old(self).items@,
                forall|k: int| 0 <= k < i ==> self.items@[k] != *p,
            decreases n - i,
        {
            if pred_eq(&self.items[i], p) {
                return i;
            }
            i += 1;
        }
        self.items.push(*p);
        proof {
            assert(self.items@.drop_last() =~= old(self).items@);
        }
        self.items.len() - 1
    }
}

/// All predicate identifiers in the shape are positions in a table of `n`
/// symbols.
pub open spec fn shape_ids_ok(s: ClauseShape, n: int) -> bool {
    s.head < n && forall|j: int| 0 <= j < s.atom_premises@.len() ==> s.atom_premises@[j] < n
}

/// Reads the shape of every clause: head predicate, atom-premise
/// predicates, and premise count, with predicates interned into `table`.
fn clause_shapes<'a>(clauses: &Vec<&'a mangle_ast::Clause<'a>>, table: &mut PredTable) -> (shapes:
    Vec<ClauseShape>)
    requires
        old(table).wf(),
    ensures
        final(table).wf(),
        shapes@.len() == clauses@.len(),
        forall|i: int|
            0 <= i < shapes@.len() ==> shape_ids_ok(shapes@[i], final(table).items@.len() as int),
{
    let mut shapes: Vec<ClauseShape> = Vec::new();
    let mut i: usize = 0;
    while i < clauses.len()
        invariant
            table.wf(),
            i <= clauses@.len(),
            shapes@.len() == i,
            forall|k: int| 0 <= k < i ==> shape_ids_ok(shapes@[k], table.items@.len() as int),
        decreases clauses@.len() - i,
    {
        let c = clauses[i];
        let n_prem = clause_premise_count(c);
        let hsym = clause_head_sym(c);
        let head = table.intern(&hsym);
        let mut aps: Vec<usize> = Vec::new();
        let mut j: usize = 0;
        while j < n_prem
            invariant
                table.wf(),
                j <= n_prem,
                head < table.items@.len(),
                forall|w: int| 0 <= w < aps@.len() ==> aps@[w] < table.items@.len(),
                forall|k: int| 0 <= k < shapes@.len() ==> shape_ids_ok(
                    shapes@[k],
                    table.items@.len() as int,
                ),
            decreases n_prem - j,
        {
            match clause_premise_atom_sym(c, j) {
                Some(ps) => {
                    let id = table.intern(&ps);
                    aps.push(id);
                },
                None => {},
            }
            j += 1;
        }
        shapes.push(ClauseShape { head, atom_premises: aps, n_premises: n_prem });
        i += 1;
    }
    shapes
}

/// The head atom of a clause as plain values, under its interned predicate
/// identifier; `None` when an argument is a function application, which
/// the evaluator does not take.
fn head_atom_shape(arena: &mangle_ast::Arena, c: &mangle_ast::Clause<'_>, pred: usize) -> (r:
    Option<eval::AtomShape>)
    ensures
        r matches Some(a) ==> a.pred == pred,
{
    let n = clause_head_arg_count(c);
    let mut args: Vec<eval::TermShape> = Vec::new();
    let mut i: usize = 0;
    while i < n
        invariant
            i <= n,
        decreases n - i,
    {
        match clause_head_arg(arena, c, i) {
            Some(t) => args.push(t),
            None => {
                return None;
            },
        }
        i += 1;
    }
    Some(eval::AtomShape { pred, args })
}

/// A rule clause as plain values: its head and its body of atom premises,
/// with their interned predicate identifiers taken from the clause's
/// shape; `None` when a premise is not an atom or an argument is a
/// function application.
fn rule_shape(arena: &mangle_ast::Arena, c: &mangle_ast::Clause<'_>, s: &ClauseShape) -> (r:
    Option<eval::RuleShape>)
    ensures
        r matches Some(rl) ==> rl.head.pred == s.head,
{
    if s.atom_premises.len() != s.n_premises {
        return None;
    }
    let head = match head_atom_shape(arena, c, s.head) {
        Some(a) => a,
        None => {
            return None;
        },
    };
    let mut body: Vec<eval::AtomShape> = Vec::new();
    let m = s.n_premises;
    let mut j: usize = 0;
    while j < m
        invariant
            m == s.atom_premises@.len(),
            j <= m,
        decreases m - j,
    {
        let cnt = match clause_premise_arg_count(c, j) {
            Some(k) => k,
            None => {
                return None;
            },
        };
        let mut args: Vec<eval::TermShape> = Vec::new();
        let mut i: usize = 0;
        while i < cnt
            invariant
                i <= cnt,
            decreases cnt - i,
        {
            match clause_premise_arg(arena, c, j, i) {
                Some(t) => args.push(t),
                None => {
                    return None;
                },
            }
            i += 1;
        }
        body.push(eval::AtomShape { pred: s.atom_premises[j], args });
        j += 1;
    }
    Some(eval::RuleShape { head, body })
}

fn prefix_msg(prefix: &str, detail: &str) -> (r: String)
    ensures
        r@ == prefix@ + detail@,
{
    let mut s = String::from_str(prefix);
    s.append(detail);
    s
}

proof fn lemma_prefix_concat(p: Seq<char>, e: Seq<char>)
    ensures
        p.is_prefix_of(p + e),
{
    assert((p + e).subrange(0, p.len() as int) =~= p);
}

/// Every error message an invocation can return: the five fixed texts, the
/// stratifier's single failure text (passed through bare, as the error
/// taxonomy prescribes), or a lexer or parser failure under its prefix.
/// Non-atom premises and function-application arguments are narrowed to the
/// fixed unsupported-term text: the evaluator takes atom premises over
/// variables and constants only.
pub open spec fn error_message_shape(m: Seq<char>) -> bool {
    ||| m == "Input string cannot be empty."@
    ||| m == "No clauses found in input."@
    ||| m == "The last statement must be a query atom, not a rule."@
    ||| m == "Evaluation error: unsupported term in clause"@
    ||| m == "Query error: unsupported term in query"@
    ||| m == "program cannot be stratified"@
    ||| "Parser error: "@.is_prefix_of(m)
    ||| "Parse error: "@.is_prefix_of(m)
}

/// The result lines are exactly the rendered answers of one evaluation:
/// the store seeds the facts, holds each atom once and is sound for the
/// rules; the answers are exactly the stored atoms answering the query;
/// and line `k` is the canonical text of answer `k` under the predicate
/// name.
pub open spec fn evaluated_outcome(
    facts: Seq<eval::AtomShape>,
    rules: Seq<eval::RuleShape>,
    store: Seq<eval::AtomShape>,
    answers: Seq<eval::AtomShape>,
    q: eval::AtomShape,
    name: Seq<char>,
    lines: Seq<String>,
) -> bool {
    &&& eval::eval_ok(facts, rules, store)
    &&& eval::query_exact(store, q, answers)
    &&& eval::lines_rendered(name, answers, lines)
}

/// The data lines have the shape of rendered query answers: some program
/// of facts and rules, some query atom and some predicate name evaluate to
/// them as `evaluated_outcome` says.
pub open spec fn ok_data_shape(lines: Seq<String>) -> bool {
    exists|
        w: (
            Seq<eval::AtomShape>,
            Seq<eval::RuleShape>,
            Seq<eval::AtomShape>,
            Seq<eval::AtomShape>,
            eval::AtomShape,
            Seq<char>,
        ),
    | evaluated_outcome(w.0, w.1, w.2, w.3, w.4, w.5, lines)
}

/// What one invocation promises of its outcome: a blank input fails with
/// exactly the empty-input text, a success implies the input was not
/// blank and carries rendered query answers, and every failure message has
/// one of the documented shapes.
pub open spec fn internal_outcome(input: Seq<char>, r: Result<Vec<String>, String>) -> bool {
    &&& (text::is_blank_text(input) ==> (r matches Err(m) && m@
        == "Input string cannot be empty."@))
    &&& (r matches Ok(d) ==> !text::is_blank_text(input) && ok_data_shape(d@))
    &&& (r matches Err(m) ==> error_message_shape(m@))
}

/// Runs one invocation: validates the input, parses it, splits program from
/// query, loads facts and rules, evaluates to a fixed point, and reads the
/// matching atoms back as strings. A blank input is rejected before any
/// parsing work, with exactly the fixed message.
pub fn run_query_internal(input: &str) -> (r: Result<Vec<String>, String>)
    ensures
        internal_outcome(input@, r),
{
    if text::is_blank(input) {
        return Err(String::from_str("Input string cannot be empty."));
    }
    let arena = arena_new();
    let mut parser = parser_new(&arena, input, "wasm_input");
    match parser_advance(&mut parser) {
        Ok(_) => {},
        Err(e) => {
            let msg = prefix_msg("Parser error: ", e.as_str());
            proof {
                lemma_prefix_concat("Parser error: "@, e@);
            }
            return Err(msg);
        },
    }
    let unit = match parser_unit(&mut parser) {
        Ok(u) => u,
        Err(e) => {
            let msg = prefix_msg("Parse error: ", e.as_str());
            proof {
                lemma_prefix_concat("Parse error: "@, e@);
            }
            return Err(msg);
        },
    };
    let clauses = unit_clauses(unit);
    let mut table = PredTable::new();
    let shapes = clause_shapes(&clauses, &mut table);
    let q_idx = match shape::split_query(&shapes) {
        Ok(q) => q,
        Err(shape::SplitError::NoClauses) => {
            return Err(String::from_str("No clauses found in input."));
        },
        Err(shape::SplitError::QueryIsRule) => {
            return Err(String::from_str("The last statement must be a query atom, not a rule."));
        },
    };
    let mut program = program_new(&arena);
    let rule_hs = shape::rule_heads(&shapes, q_idx);
    let ext_ids = shape::ext_preds(&shapes, q_idx, &rule_hs);
    let mut facts: Vec<eval::AtomShape> = Vec::new();
    let mut rules: Vec<eval::RuleShape> = Vec::new();
    let mut i: usize = 0;
    while i < q_idx
        invariant
            !text::is_blank_text(input@),
            i <= q_idx,
            q_idx < shapes@.len(),
            shapes@.len() == clauses@.len(),
        decreases q_idx - i,
    {
        if shapes[i].n_premises == 0 {
            match head_atom_shape(&arena, clauses[i], shapes[i].head) {
                Some(a) => facts.push(a),
                None => {
                    return Err(String::from_str("Evaluation error: unsupported term in clause"));
                },
            }
        } else {
            program_add_rule(&mut program, &arena, clauses[i]);
            match rule_shape(&arena, clauses[i], &shapes[i]) {
                Some(rl) => rules.push(rl),
                None => {
                    return Err(String::from_str("Evaluation error: unsupported term in clause"));
                },
            }
        }
        i += 1;
    }
    proof {
        assert forall|w: int| 0 <= w < ext_ids@.len() implies ext_ids@[w]
            < table.items@.len() by {
            let p = ext_ids@[w];
            assert(ext_ids@.contains(p));
            assert(shape::ext_pred_set(shapes@, q_idx as int).contains(p));
            let i = choose|i: int|
                0 <= i < q_idx && i < shapes@.len() && shape::is_fact(shapes@[i]) && shapes@[
                    i
                ].head == p;
        }
    }
    let mut ext_syms: Vec<mangle_ast::PredicateIndex> = Vec::new();
    let mut v: usize = 0;
    while v < ext_ids.len()
        invariant
            forall|u: int| 0 <= u < ext_ids@.len() ==> ext_ids@[u] < table.items@.len(),
            v <= ext_ids@.len(),
        decreases ext_ids@.len() - v,
    {
        ext_syms.push(table.items[ext_ids[v]]);
        v += 1;
    }
    program_set_ext_preds(&mut program, ext_syms);
    match stratify_program(program) {
        Ok(_) => {},
        Err(e) => {
            return Err(e);
        },
    }
    let store = eval::eval(&facts, &rules);
    let qatom = match head_atom_shape(&arena, clauses[q_idx], shapes[q_idx].head) {
        Some(a) => a,
        None => {
            return Err(String::from_str("Query error: unsupported term in query"));
        },
    };
    let answers = eval::query(&store, &qatom);
    let name = pred_text(&arena, &table.items[shapes[q_idx].head]);
    let mut results: Vec<String> = Vec::new();
    let mut k: usize = 0;
    while k < answers.len()
        invariant
            k <= answers@.len(),
            results@.len() == k,
            forall|w: int|
                0 <= w < k ==> results@[w]@ == eval::atom_line_text(name@, answers@[w].args@),
        decreases answers@.len() - k,
    {
        results.push(eval::atom_line(name.as_str(), &answers[k]));
        k += 1;
    }
    proof {
        let ghost w = (facts@, rules@, store@, answers@, qatom, name@);
        assert(eval::lines_rendered(name@, answers@, results@));
        assert(evaluated_outcome(w.0, w.1, w.2, w.3, w.4, w.5, results@));
        assert(ok_data_shape(results@));
    }
    Ok(results)
}

/// The host entry point: every outcome is a JSON envelope — the success
/// envelope of the invocation's result data, or the error envelope of its
/// failure message, which has one of the documented shapes. A blank input
/// yields exactly the empty-input error envelope.
pub fn run_mangle_query(input: &str) -> (r: String)
    ensures
        exists|res: Result<Vec<String>, String>|
            {
                &&& #[trigger] internal_outcome(input@, res)
                &&& (res matches Ok(d) ==> r@ == response::success_json(d.deep_view()))
                &&& (res matches Err(m) ==> r@ == response::error_json(m@))
            },
        (exists|d: Seq<Seq<char>>| r@ == response::success_json(d)) || (exists|m: Seq<char>|
            r@ == response::error_json(m)),
        text::is_blank_text(input@) ==> r@ == response::error_json(
            "Input string cannot be empty."@,
        ),
{
    let res = run_query_internal(input);
    let ghost gres = res;
    match res {
        Ok(data) => {
            let out = response::success_envelope(&data);
            proof {
                assert(internal_outcome(input@, gres) && (gres matches Ok(d) ==> out@
                    == response::success_json(d.deep_view())) && (gres matches Err(m) ==> out@
                    == response::error_json(m@)));
            }
            out
        },
        Err(m) => {
            let out = response::error_envelope(m.as_str());
            proof {
                assert(internal_outcome(input@, gres) && (gres matches Ok(d) ==> out@
                    == response::success_json(d.deep_view())) && (gres matches Err(m2) ==> out@
                    == response::error_json(m2@)));
            }
            out
        },
    }
}

} // verus!
