//! Bottom-up evaluation of the loaded program, on plain values. Facts and
//! rule atoms are reduced to predicate identifiers and printed terms; the
//! evaluator joins rule premises against the store, derives head instances
//! until no new atom appears, and reads the atoms matching the query back
//! out.
//!
//! The contracts state that the store seeds every fact, holds each atom
//! once, and is sound: every stored atom is a seed fact or the consequence
//! of a rule whose instantiated body is itself stored. The query returns
//! exactly the stored atoms answering it. Completeness of the fixed point —
//! that the store is closed under every rule — is not stated; it is
//! exercised by tests.

use vstd::prelude::*;

verus! {

/// A term of an atom: a variable (its interned identifier and its printed
/// name) or a constant (its canonical printed form, which stands for the
/// constant's value).
pub enum TermShape {
    Var(u32, String),
    Const(String),
}

/// An atom: a predicate identifier and its arguments.
pub struct AtomShape {
    pub pred: usize,
    pub args: Vec<TermShape>,
}

/// A rule: a head atom and its body of atom premises.
pub struct RuleShape {
    pub head: AtomShape,
    pub body: Vec<AtomShape>,
}

/// Terms are the same when they are the same variable or the same
/// constant; a variable's printed name is determined by its identifier.
pub open spec fn term_same(a: TermShape, b: TermShape) -> bool {
    ||| (a matches TermShape::Var(i, _) && b matches TermShape::Var(j, _) && i == j)
    ||| (a matches TermShape::Const(x) && b matches TermShape::Const(y) && x@ == y@)
}

/// Atoms are the same when predicate, arity and all terms agree.
pub open spec fn atom_same(a: AtomShape, b: AtomShape) -> bool {
    a.pred == b.pred && a.args@.len() == b.args@.len() && (forall|i: int|
        0 <= i < a.args@.len() ==> term_same(a.args@[i], b.args@[i]))
}

/// Whether some atom of `s` is the same as `a`.
pub open spec fn store_has(s: Seq<AtomShape>, a: AtomShape) -> bool {
    exists|i: int| 0 <= i < s.len() && atom_same(s[i], a)
}

/// No two atoms of `s` are the same.
pub open spec fn store_distinct(s: Seq<AtomShape>) -> bool {
    forall|i: int, j: int| 0 <= i < j < s.len() ==> !atom_same(s[i], s[j])
}

/// A stored atom answers a query atom when the predicates and arities agree
/// and every constant argument of the query stands, equal, in the atom;
/// variable arguments of the query match anything.
pub open spec fn answers_query(q: AtomShape, a: AtomShape) -> bool {
    q.pred == a.pred && q.args@.len() == a.args@.len() && (forall|i: int|
        #![trigger q.args@[i]]
        0 <= i < q.args@.len() ==> (q.args@[i] matches TermShape::Const(c) ==> (a.args@[i] matches
            TermShape::Const(d)
        && d@ == c@)))
}

/// Whether the bindings list binds variable `v`.
pub open spec fn binds(s: Seq<(u32, TermShape)>, v: u32) -> bool {
    exists|i: int| 0 <= i < s.len() && s[i].0 == v
}

/// The term bound to `v`; meaningful when the keys are distinct.
pub open spec fn bound_term(s: Seq<(u32, TermShape)>, v: u32) -> TermShape {
    s[choose|i: int| 0 <= i < s.len() && s[i].0 == v].1
}

/// No variable is bound twice.
pub open spec fn keys_distinct(s: Seq<(u32, TermShape)>) -> bool {
    forall|i: int, j: int| 0 <= i < j < s.len() ==> s[i].0 != s[j].0
}

/// `t` under the bindings: a bound variable is replaced, everything else
/// stands as it is.
pub open spec fn applied(s: Seq<(u32, TermShape)>, t: TermShape) -> TermShape {
    match t {
        TermShape::Var(v, _) => if binds(s, v) {
            bound_term(s, v)
        } else {
            t
        },
        TermShape::Const(_) => t,
    }
}

/// `a` is the instance of the pattern atom `pat` under the bindings.
pub open spec fn instance_of(s: Seq<(u32, TermShape)>, pat: AtomShape, a: AtomShape) -> bool {
    a.pred == pat.pred && a.args@.len() == pat.args@.len() && (forall|i: int|
        0 <= i < pat.args@.len() ==> term_same(a.args@[i], applied(s, pat.args@[i])))
}

/// Every variable argument of the pattern atom is bound.
pub open spec fn pat_vars_bound(s: Seq<(u32, TermShape)>, pat: AtomShape) -> bool {
    forall|i: int|
        #![trigger pat.args@[i]]
        0 <= i < pat.args@.len() ==> (pat.args@[i] matches TermShape::Var(v, _) ==> binds(s, v))
}

/// Some stored atom is the instance of the premise under the bindings.
pub open spec fn premise_holds(
    store: Seq<AtomShape>,
    s: Seq<(u32, TermShape)>,
    pat: AtomShape,
) -> bool {
    exists|a: AtomShape| instance_of(s, pat, a) && store_has(store, a)
}

/// Every body premise has a stored instance under the bindings.
pub open spec fn body_holds(
    store: Seq<AtomShape>,
    s: Seq<(u32, TermShape)>,
    body: Seq<AtomShape>,
) -> bool {
    forall|j: int| #![trigger body[j]] 0 <= j < body.len() ==> premise_holds(store, s, body[j])
}

/// `h` follows by one application of a rule with the given head and body:
/// some bindings instantiate every body premise to a stored atom and the
/// head to `h`.
pub open spec fn derived_from(
    store: Seq<AtomShape>,
    head: AtomShape,
    body: Seq<AtomShape>,
    h: AtomShape,
) -> bool {
    exists|s: Seq<(u32, TermShape)>| body_holds(store, s, body) && instance_of(s, head, h)
}

/// `h` is a consequence of rule `r` against the store.
pub open spec fn consequence_of(store: Seq<AtomShape>, r: RuleShape, h: AtomShape) -> bool {
    derived_from(store, r.head, r.body@, h)
}

/// Soundness of the store: every stored atom is one of the seed facts or a
/// consequence of some rule whose instantiated body is itself stored.
pub open spec fn supported(
    store: Seq<AtomShape>,
    facts: Seq<AtomShape>,
    rules: Seq<RuleShape>,
    h: AtomShape,
) -> bool {
    (exists|i: int| 0 <= i < facts.len() && atom_same(facts[i], h)) || (exists|i: int|
        0 <= i < rules.len() && consequence_of(store, rules[i], h))
}

/// Every seed fact is in the store.
pub open spec fn seeds_stored(facts: Seq<AtomShape>, store: Seq<AtomShape>) -> bool {
    forall|i: int| 0 <= i < facts.len() ==> store_has(store, facts[i])
}

/// Every stored atom is supported by the seeds and the rules.
pub open spec fn all_supported(
    facts: Seq<AtomShape>,
    rules: Seq<RuleShape>,
    store: Seq<AtomShape>,
) -> bool {
    forall|k: int| 0 <= k < store.len() ==> supported(store, facts, rules, store[k])
}

/// What `eval` promises of its store: seeded, duplicate-free, and sound.
pub open spec fn eval_ok(
    facts: Seq<AtomShape>,
    rules: Seq<RuleShape>,
    store: Seq<AtomShape>,
) -> bool {
    seeds_stored(facts, store) && store_distinct(store) && all_supported(facts, rules, store)
}

/// What `query` promises of its answers: exactly the stored atoms
/// answering `q`, each once.
pub open spec fn query_exact(store: Seq<AtomShape>, q: AtomShape, r: Seq<AtomShape>) -> bool {
    (forall|a: AtomShape| store_has(r, a) <==> (store_has(store, a) && answers_query(q, a)))
        && store_distinct(r)
}

/// Line `k` is the canonical text of answer `k` under the predicate name.
pub open spec fn lines_rendered(
    name: Seq<char>,
    answers: Seq<AtomShape>,
    lines: Seq<String>,
) -> bool {
    lines.len() == answers.len() && (forall|k: int|
        0 <= k < lines.len() ==> lines[k]@ == atom_line_text(name, answers[k].args@))
}

proof fn lemma_bound_at(s: Seq<(u32, TermShape)>, v: u32, k: int)
    requires
        keys_distinct(s),
        0 <= k < s.len(),
        s[k].0 == v,
    ensures
        binds(s, v),
        bound_term(s, v) == s[k].1,
{
    assert(binds(s, v));
    let i = choose|i: int| 0 <= i < s.len() && s[i].0 == v;
    assert(i == k);
}

proof fn lemma_binds_mono(s: Seq<(u32, TermShape)>, s2: Seq<(u32, TermShape)>, v: u32)
    requires
        s.is_prefix_of(s2),
        binds(s, v),
    ensures
        binds(s2, v),
{
    let i = choose|i: int| 0 <= i < s.len() && s[i].0 == v;
    assert(s2[i].0 == v);
}

proof fn lemma_applied_mono(s: Seq<(u32, TermShape)>, s2: Seq<(u32, TermShape)>, t: TermShape)
    requires
        s.is_prefix_of(s2),
        keys_distinct(s2),
        t matches TermShape::Var(v, _) ==> binds(s, v),
    ensures
        applied(s2, t) == applied(s, t),
{
    match t {
        TermShape::Var(v, _) => {
            assert(keys_distinct(s));
            lemma_binds_mono(s, s2, v);
            let i = choose|i: int| 0 <= i < s.len() && s[i].0 == v;
            lemma_bound_at(s, v, i);
            lemma_bound_at(s2, v, i);
        },
        TermShape::Const(_) => {},
    }
}

proof fn lemma_instance_mono(
    s: Seq<(u32, TermShape)>,
    s2: Seq<(u32, TermShape)>,
    pat: AtomShape,
    a: AtomShape,
)
    requires
        s.is_prefix_of(s2),
        keys_distinct(s2),
        pat_vars_bound(s, pat),
        instance_of(s, pat, a),
    ensures
        instance_of(s2, pat, a),
{
    assert forall|i: int| 0 <= i < pat.args@.len() implies term_same(
        a.args@[i],
        applied(s2, pat.args@[i]),
    ) by {
        lemma_applied_mono(s, s2, pat.args@[i]);
        assert(term_same(a.args@[i], applied(s, pat.args@[i])));
    }
}

proof fn lemma_pvb_mono(s: Seq<(u32, TermShape)>, s2: Seq<(u32, TermShape)>, pat: AtomShape)
    requires
        s.is_prefix_of(s2),
        pat_vars_bound(s, pat),
    ensures
        pat_vars_bound(s2, pat),
{
    assert forall|i: int|
        #![trigger pat.args@[i]]
        0 <= i < pat.args@.len() implies (pat.args@[i] matches TermShape::Var(v, _) ==> binds(
        s2,
        v,
    )) by {
        match pat.args@[i] {
            TermShape::Var(v, _) => lemma_binds_mono(s, s2, v),
            TermShape::Const(_) => (),
        }
    }
}

proof fn lemma_derived_mono(
    s1: Seq<AtomShape>,
    s2: Seq<AtomShape>,
    head: AtomShape,
    body: Seq<AtomShape>,
    h: AtomShape,
)
    requires
        s1.is_prefix_of(s2),
        derived_from(s1, head, body, h),
    ensures
        derived_from(s2, head, body, h),
{
    let s = choose|s: Seq<(u32, TermShape)>| body_holds(s1, s, body) && instance_of(s, head, h);
    assert forall|j: int| #![trigger body[j]] 0 <= j < body.len() implies premise_holds(
        s2,
        s,
        body[j],
    ) by {
        assert(premise_holds(s1, s, body[j]));
        let a = choose|a: AtomShape| instance_of(s, body[j], a) && store_has(s1, a);
        let w = choose|w: int| 0 <= w < s1.len() && atom_same(s1[w], a);
        assert(s2[w] == s1[w]);
        assert(atom_same(s2[w], a));
        assert(instance_of(s, body[j], a) && store_has(s2, a));
    }
    assert(body_holds(s2, s, body) && instance_of(s, head, h));
}

proof fn lemma_instance_same(s: Seq<(u32, TermShape)>, pat: AtomShape, h: AtomShape, h2: AtomShape)
    requires
        instance_of(s, pat, h),
        atom_same(h, h2),
    ensures
        instance_of(s, pat, h2),
{
    assert forall|i: int| 0 <= i < pat.args@.len() implies term_same(
        h2.args@[i],
        applied(s, pat.args@[i]),
    ) by {
        assert(term_same(h.args@[i], h2.args@[i]));
        assert(term_same(h.args@[i], applied(s, pat.args@[i])));
    }
}

proof fn lemma_atom_same_refl(a: AtomShape)
    ensures
        atom_same(a, a),
{
    assert forall|i: int| 0 <= i < a.args@.len() implies term_same(a.args@[i], a.args@[i]) by {
        match a.args@[i] {
            TermShape::Var(_, _) => {},
            TermShape::Const(_) => {},
        }
    }
}

proof fn lemma_supported_mono(
    s1: Seq<AtomShape>,
    s2: Seq<AtomShape>,
    facts: Seq<AtomShape>,
    rules: Seq<RuleShape>,
    h: AtomShape,
)
    requires
        s1.is_prefix_of(s2),
        supported(s1, facts, rules, h),
    ensures
        supported(s2, facts, rules, h),
{
    if !(exists|i: int| 0 <= i < facts.len() && atom_same(facts[i], h)) {
        let i = choose|i: int| 0 <= i < rules.len() && consequence_of(s1, rules[i], h);
        lemma_derived_mono(s1, s2, rules[i].head, rules[i].body@, h);
        assert(consequence_of(s2, rules[i], h));
    }
}

proof fn lemma_atom_same_sym(a: AtomShape, b: AtomShape)
    requires
        atom_same(a, b),
    ensures
        atom_same(b, a),
{
    assert forall|i: int| 0 <= i < b.args@.len() implies term_same(b.args@[i], a.args@[i]) by {
        assert(term_same(a.args@[i], b.args@[i]));
    }
}

proof fn lemma_atom_same_trans(a: AtomShape, b: AtomShape, c: AtomShape)
    requires
        atom_same(a, b),
        atom_same(b, c),
    ensures
        atom_same(a, c),
{
    assert forall|i: int| 0 <= i < a.args@.len() implies term_same(a.args@[i], c.args@[i]) by {
        assert(term_same(a.args@[i], b.args@[i]));
        assert(term_same(b.args@[i], c.args@[i]));
    }
}

proof fn lemma_answers_same(q: AtomShape, a: AtomShape, b: AtomShape)
    requires
        answers_query(q, a),
        atom_same(a, b),
    ensures
        answers_query(q, b),
{
    assert forall|i: int|
        #![trigger q.args@[i]]
        0 <= i < q.args@.len() implies (q.args@[i] matches TermShape::Const(c) ==> (b.args@[i]
        matches TermShape::Const(d)
    && d@ == c@)) by {
        assert(term_same(a.args@[i], b.args@[i]));
    }
}

/// Adds `a` to the store when no atom of it is the same, keeping the store
/// free of duplicates; everything already in the store stays.
fn store_insert(store: &mut Vec<AtomShape>, a: &AtomShape) -> (added: bool)
    requires
        store_distinct(old(store)@),
    ensures
        store_distinct(final(store)@),
        store_has(final(store)@, *a),
        old(store)@.is_prefix_of(final(store)@),
        forall|x: AtomShape| store_has(old(store)@, x) ==> store_has(final(store)@, x),
        forall|x: AtomShape| store_has(final(store)@, x) ==> (store_has(old(store)@, x)
            || atom_same(*a, x)),
        added == !store_has(old(store)@, *a),
        !added ==> final(store)@ == old(store)@,
        added ==> final(store)@.len() == old(store)@.len() + 1 && atom_same(
            *a,
            final(store)@.last(),
        ),
{
    if store_contains(store, a) {
        return false;
    }
    store.push(atom_copy(a));
    proof {
        let s = store@;
        let prev = old(store)@;
        assert(s.drop_last() =~= prev);
        assert(atom_same(s.last(), *a));
        lemma_atom_same_sym(s.last(), *a);
        assert forall|x: AtomShape| store_has(prev, x) implies store_has(s, x) by {
            let w = choose|w: int| 0 <= w < prev.len() && atom_same(prev[w], x);
            assert(atom_same(s[w], x));
        }
        assert forall|x: AtomShape| store_has(s, x) implies (store_has(prev, x) || atom_same(
            *a,
            x,
        )) by {
            let w = choose|w: int| 0 <= w < s.len() && atom_same(s[w], x);
            if w < s.len() - 1 {
                assert(atom_same(prev[w], x));
            } else {
                lemma_atom_same_trans(*a, s.last(), x);
            }
        }
        assert forall|i: int, j: int| 0 <= i < j < s.len() implies !atom_same(s[i], s[j]) by {
            if j == s.len() - 1 {
                if atom_same(s[i], s[j]) {
                    lemma_atom_same_trans(s[i], s.last(), *a);
                    assert(store_has(prev, *a));
                }
            }
        }
    }
    true
}

fn term_copy(t: &TermShape) -> (r: TermShape)
    ensures
        term_same(r, *t),
        r matches TermShape::Var(_, n) ==> (t matches TermShape::Var(_, m) && n@ == m@),
{
    match t {
        TermShape::Var(id, name) => TermShape::Var(*id, name.clone()),
        TermShape::Const(c) => TermShape::Const(c.clone()),
    }
}

fn term_eq(a: &TermShape, b: &TermShape) -> (r: bool)
    ensures
        r == term_same(*a, *b),
{
    match a {
        TermShape::Var(i, _) => match b {
            TermShape::Var(j, _) => *i == *j,
            _ => false,
        },
        TermShape::Const(x) => match b {
            TermShape::Const(y) => x.eq(y),
            _ => false,
        },
    }
}

fn atom_eq(a: &AtomShape, b: &AtomShape) -> (r: bool)
    ensures
        r == atom_same(*a, *b),
{
    if a.pred != b.pred || a.args.len() != b.args.len() {
        return false;
    }
    let n = a.args.len();
    let mut i: usize = 0;
    while i < n
        invariant
            n == a.args@.len(),
            n == b.args@.len(),
            a.pred == b.pred,
            i <= n,
            forall|j: int| 0 <= j < i ==> term_same(a.args@[j], b.args@[j]),
        decreases n - i,
    {
        if !term_eq(&a.args[i], &b.args[i]) {
            return false;
        }
        i += 1;
    }
    true
}

fn store_contains(s: &Vec<AtomShape>, a: &AtomShape) -> (r: bool)
    ensures
        r == store_has(s@, *a),
{
    let mut i: usize = 0;
    while i < s.len()
        invariant
            i <= s@.len(),
            forall|j: int| 0 <= j < i ==> !atom_same(s@[j], *a),
        decreases s@.len() - i,
    {
        if atom_eq(&s[i], a) {
            return true;
        }
        i += 1;
    }
    false
}

fn atom_copy(a: &AtomShape) -> (r: AtomShape)
    ensures
        atom_same(r, *a),
{
    let mut args: Vec<TermShape> = Vec::new();
    let n = a.args.len();
    let mut i: usize = 0;
    while i < n
        invariant
            n == a.args@.len(),
            i <= n,
            args@.len() == i,
            forall|j: int| 0 <= j < i ==> term_same(args@[j], a.args@[j]),
        decreases n - i,
    {
        args.push(term_copy(&a.args[i]));
        i += 1;
    }
    AtomShape { pred: a.pred, args }
}

fn subst_lookup(subst: &Vec<(u32, TermShape)>, v: u32) -> (r: Option<usize>)
    ensures
        r matches Some(k) ==> k < subst@.len() && subst@[k as int].0 == v,
        r is None ==> forall|j: int| 0 <= j < subst@.len() ==> subst@[j].0 != v,
{
    let mut i: usize = 0;
    while i < subst.len()
        invariant
            i <= subst@.len(),
            forall|j: int| 0 <= j < i ==> subst@[j].0 != v,
        decreases subst@.len() - i,
    {
        if subst[i].0 == v {
            return Some(i);
        }
        i += 1;
    }
    None
}

/// Matches the pattern atom against a stored atom under the current
/// bindings, adding new bindings at the end. Returns whether it matched
/// and how many bindings were added; on failure the caller drops them.
fn match_atom(subst: &mut Vec<(u32, TermShape)>, pat: &AtomShape, fact: &AtomShape) -> (r: (
    bool,
    usize,
))
    requires
        keys_distinct(old(subst)@),
    ensures
        old(subst)@.is_prefix_of(final(subst)@),
        final(subst)@.len() == old(subst)@.len() + r.1,
        keys_distinct(final(subst)@),
        r.0 ==> instance_of(final(subst)@, *pat, *fact) && pat_vars_bound(final(subst)@, *pat),
{
    let ghost base = subst@;
    let base_len = subst.len();
    if pat.pred != fact.pred || pat.args.len() != fact.args.len() {
        return (false, 0);
    }
    let n = pat.args.len();
    let mut i: usize = 0;
    while i < n
        invariant
            n == pat.args@.len(),
            n == fact.args@.len(),
            pat.pred == fact.pred,
            i <= n,
            base == old(subst)@,
            base_len == base.len(),
            base.is_prefix_of(subst@),
            keys_distinct(subst@),
            forall|j: int|
                #![trigger pat.args@[j]]
                0 <= j < i ==> (pat.args@[j] matches TermShape::Var(v, _) ==> binds(subst@, v)),
            forall|j: int| 0 <= j < i ==> term_same(fact.args@[j], applied(subst@, pat.args@[j])),
        decreases n - i,
    {
        let ghost prev = subst@;
        let ok: bool = match &pat.args[i] {
            TermShape::Const(_) => term_eq(&pat.args[i], &fact.args[i]),
            TermShape::Var(v, _) => {
                match subst_lookup(subst, *v) {
                    Some(k) => {
                        proof {
                            lemma_bound_at(subst@, *v, k as int);
                        }
                        term_eq(&subst[k].1, &fact.args[i])
                    },
                    None => {
                        subst.push((*v, term_copy(&fact.args[i])));
                        proof {
                            assert(subst@.drop_last() =~= prev);
                            assert forall|x: int, y: int| 0 <= x < y < subst@.len() implies subst@[
                                x
                            ].0 != subst@[y].0 by {
                                if y == subst@.len() - 1 {
                                    assert(prev[x].0 != *v);
                                }
                            }
                            lemma_bound_at(subst@, *v, subst@.len() - 1);
                        }
                        true
                    },
                }
            },
        };
        if !ok {
            return (false, subst.len() - base_len);
        }
        proof {
            assert forall|j: int| 0 <= j < i + 1 implies term_same(
                fact.args@[j],
                applied(subst@, pat.args@[j]),
            ) by {
                if j < i {
                    lemma_applied_mono(prev, subst@, pat.args@[j]);
                } else {
                    assert(term_same(fact.args@[j], applied(subst@, pat.args@[j])));
                }
            }
            assert forall|j: int|
                #![trigger pat.args@[j]]
                0 <= j < i + 1 implies (pat.args@[j] matches TermShape::Var(v, _) ==> binds(
                subst@,
                v,
            )) by {
                if j < i {
                    match pat.args@[j] {
                        TermShape::Var(v, _) => lemma_binds_mono(prev, subst@, v),
                        TermShape::Const(_) => (),
                    }
                }
            }
        }
        i += 1;
    }
    (true, subst.len() - base_len)
}

fn drop_bindings(subst: &mut Vec<(u32, TermShape)>, n: usize)
    requires
        n <= old(subst)@.len(),
    ensures
        final(subst)@ == old(subst)@.take(old(subst)@.len() - n),
{
    let mut k: usize = 0;
    while k < n
        invariant
            k <= n,
            n <= old(subst)@.len(),
            subst@ == old(subst)@.take(old(subst)@.len() - k),
        decreases n - k,
    {
        subst.pop();
        proof {
            assert(subst@ =~= old(subst)@.take(old(subst)@.len() - (k + 1)));
        }
        k += 1;
    }
}

/// The head instance under the bindings: bound variables are replaced,
/// everything else stands as it is.
fn apply_subst(a: &AtomShape, subst: &Vec<(u32, TermShape)>) -> (r: AtomShape)
    requires
        keys_distinct(subst@),
    ensures
        r.pred == a.pred,
        r.args@.len() == a.args@.len(),
        instance_of(subst@, *a, r),
{
    let mut args: Vec<TermShape> = Vec::new();
    let n = a.args.len();
    let mut i: usize = 0;
    while i < n
        invariant
            keys_distinct(subst@),
            n == a.args@.len(),
            i <= n,
            args@.len() == i,
            forall|j: int| 0 <= j < i ==> term_same(args@[j], applied(subst@, a.args@[j])),
        decreases n - i,
    {
        let t = match &a.args[i] {
            TermShape::Var(v, _) => {
                match subst_lookup(subst, *v) {
                    Some(k) => {
                        proof {
                            lemma_bound_at(subst@, *v, k as int);
                        }
                        term_copy(&subst[k].1)
                    },
                    None => term_copy(&a.args[i]),
                }
            },
            TermShape::Const(_) => term_copy(&a.args[i]),
        };
        args.push(t);
        i += 1;
    }
    AtomShape { pred: a.pred, args }
}

/// Searches all ways of matching the rule body from premise `bi` on, and
/// collects the head instance of every complete match.
fn search_rule(
    store: &Vec<AtomShape>,
    head: &AtomShape,
    body: &Vec<AtomShape>,
    bi: usize,
    subst: &mut Vec<(u32, TermShape)>,
    out: &mut Vec<AtomShape>,
)
    requires
        bi <= body@.len(),
        keys_distinct(old(subst)@),
        forall|j: int| 0 <= j < bi ==> pat_vars_bound(old(subst)@, body@[j]),
        forall|j: int|
            #![trigger body@[j]]
            0 <= j < bi ==> premise_holds(store@, old(subst)@, body@[j]),
    ensures
        final(subst)@ == old(subst)@,
        old(out)@.is_prefix_of(final(out)@),
        forall|w: int| old(out)@.len() <= w < final(out)@.len() ==> derived_from(
            store@,
            *head,
            body@,
            final(out)@[w],
        ),
    decreases body@.len() - bi,
{
    let blen = body.len();
    if bi == blen {
        let h = apply_subst(head, subst);
        proof {
            assert(body_holds(store@, subst@, body@));
            assert(instance_of(subst@, *head, h));
        }
        out.push(h);
        proof {
            assert(out@.drop_last() =~= old(out)@);
            assert(derived_from(store@, *head, body@, h));
        }
        return ;
    }
    let mut k: usize = 0;
    while k < store.len()
        invariant
            blen == body@.len(),
            bi < blen,
            k <= store@.len(),
            subst@ == old(subst)@,
            keys_distinct(subst@),
            forall|j: int| 0 <= j < bi ==> pat_vars_bound(subst@, body@[j]),
            forall|j: int|
                #![trigger body@[j]]
                0 <= j < bi ==> premise_holds(store@, subst@, body@[j]),
            old(out)@.is_prefix_of(out@),
            forall|w: int| old(out)@.len() <= w < out@.len() ==> derived_from(
                store@,
                *head,
                body@,
                out@[w],
            ),
        decreases store@.len() - k,
    {
        let ghost out_before = out@;
        let ghost sub_before = subst@;
        let (ok, added) = match_atom(subst, &body[bi], &store[k]);
        if ok {
            proof {
                lemma_atom_same_refl(store@[k as int]);
                assert(store_has(store@, store@[k as int]));
                assert forall|j: int| 0 <= j < bi + 1 implies pat_vars_bound(
                    subst@,
                    body@[j],
                ) by {
                    if j < bi {
                        lemma_pvb_mono(sub_before, subst@, body@[j]);
                    }
                }
                assert forall|j: int| #![trigger body@[j]] 0 <= j < bi + 1 implies premise_holds(
                    store@,
                    subst@,
                    body@[j],
                ) by {
                    if j < bi {
                        assert(premise_holds(store@, sub_before, body@[j]));
                        let a = choose|a: AtomShape|
                            instance_of(sub_before, body@[j], a) && store_has(store@, a);
                        lemma_instance_mono(sub_before, subst@, body@[j], a);
                        assert(instance_of(subst@, body@[j], a) && store_has(store@, a));
                    } else {
                        assert(instance_of(subst@, body@[j], store@[k as int]) && store_has(
                            store@,
                            store@[k as int],
                        ));
                    }
                }
            }
            search_rule(store, head, body, bi + 1, subst, out);
            proof {
                assert forall|w: int| old(out)@.len() <= w < out@.len() implies derived_from(
                    store@,
                    *head,
                    body@,
                    out@[w],
                ) by {
                    if w < out_before.len() {
                        assert(out@[w] == out_before[w]);
                    }
                }
            }
        }
        proof {
            assert(subst@.take(subst@.len() - added) =~= old(subst)@);
        }
        drop_bindings(subst, added);
        k += 1;
    }
}

/// Every instance of the rule's head whose body premises all stand in the
/// store.
fn rule_instances(store: &Vec<AtomShape>, rule: &RuleShape) -> (out: Vec<AtomShape>)
    ensures
        forall|w: int| 0 <= w < out@.len() ==> consequence_of(store@, *rule, out@[w]),
{
    let mut out: Vec<AtomShape> = Vec::new();
    let mut subst: Vec<(u32, TermShape)> = Vec::new();
    search_rule(store, &rule.head, &rule.body, 0, &mut subst, &mut out);
    out
}

/// Evaluates the program: seeds the store with the facts and applies the
/// rules until no new atom appears. The store holds each atom once; every
/// seed fact is in it; and nothing else is: each stored atom is a seed
/// fact or the consequence of a rule whose instantiated body is itself
/// stored.
pub fn eval(facts: &Vec<AtomShape>, rules: &Vec<RuleShape>) -> (store: Vec<AtomShape>)
    ensures
        forall|i: int| 0 <= i < facts@.len() ==> store_has(store@, facts@[i]),
        store_distinct(store@),
        forall|k: int| 0 <= k < store@.len() ==> supported(store@, facts@, rules@, store@[k]),
        eval_ok(facts@, rules@, store@),
{
    let mut store: Vec<AtomShape> = Vec::new();
    let mut i: usize = 0;
    while i < facts.len()
        invariant
            i <= facts@.len(),
            forall|j: int| 0 <= j < i ==> store_has(store@, facts@[j]),
            store_distinct(store@),
            forall|k: int| 0 <= k < store@.len() ==> supported(store@, facts@, rules@, store@[k]),
        decreases facts@.len() - i,
    {
        let ghost before = store@;
        let added = store_insert(&mut store, &facts[i]);
        proof {
            assert forall|k: int| 0 <= k < store@.len() implies supported(
                store@,
                facts@,
                rules@,
                store@[k],
            ) by {
                if k < before.len() {
                    assert(store@[k] == before[k]);
                    lemma_supported_mono(before, store@, facts@, rules@, store@[k]);
                } else {
                    assert(added && k == store@.len() - 1);
                    assert(atom_same(facts@[i as int], store@[k]));
                }
            }
        }
        i += 1;
    }
    let mut round: usize = 0;
    let mut changed = true;
    while changed && round < usize::MAX
        invariant
            forall|j: int| 0 <= j < facts@.len() ==> store_has(store@, facts@[j]),
            store_distinct(store@),
            forall|k: int| 0 <= k < store@.len() ==> supported(store@, facts@, rules@, store@[k]),
        decreases usize::MAX - round,
    {
        changed = false;
        let mut r: usize = 0;
        while r < rules.len()
            invariant
                forall|j: int| 0 <= j < facts@.len() ==> store_has(store@, facts@[j]),
                store_distinct(store@),
                forall|k: int| 0 <= k < store@.len() ==> supported(
                    store@,
                    facts@,
                    rules@,
                    store@[k],
                ),
                r <= rules@.len(),
            decreases rules@.len() - r,
        {
            let ghost s0 = store@;
            let derived = rule_instances(&store, &rules[r]);
            let mut d: usize = 0;
            while d < derived.len()
                invariant
                    r < rules@.len(),
                    s0.is_prefix_of(store@),
                    forall|w: int| 0 <= w < derived@.len() ==> consequence_of(
                        s0,
                        rules@[r as int],
                        derived@[w],
                    ),
                    forall|j: int| 0 <= j < facts@.len() ==> store_has(store@, facts@[j]),
                    store_distinct(store@),
                    forall|k: int| 0 <= k < store@.len() ==> supported(
                        store@,
                        facts@,
                        rules@,
                        store@[k],
                    ),
                    d <= derived@.len(),
                decreases derived@.len() - d,
            {
                let ghost before = store@;
                let added = store_insert(&mut store, &derived[d]);
                if added {
                    changed = true;
                }
                proof {
                    assert(before.is_prefix_of(store@));
                    assert(s0.is_prefix_of(store@)) by {
                        assert(store@.subrange(0, s0.len() as int) =~= s0);
                    }
                    assert forall|k: int| 0 <= k < store@.len() implies supported(
                        store@,
                        facts@,
                        rules@,
                        store@[k],
                    ) by {
                        if k < before.len() {
                            assert(store@[k] == before[k]);
                            lemma_supported_mono(before, store@, facts@, rules@, store@[k]);
                        } else {
                            assert(added && k == store@.len() - 1);
                            assert(atom_same(derived@[d as int], store@[k]));
                            assert(consequence_of(s0, rules@[r as int], derived@[d as int]));
                            let s = choose|s: Seq<(u32, TermShape)>|
                                body_holds(s0, s, rules@[r as int].body@) && instance_of(
                                    s,
                                    rules@[r as int].head,
                                    derived@[d as int],
                                );
                            lemma_instance_same(
                                s,
                                rules@[r as int].head,
                                derived@[d as int],
                                store@[k],
                            );
                            assert(body_holds(s0, s, rules@[r as int].body@) && instance_of(
                                s,
                                rules@[r as int].head,
                                store@[k],
                            ));
                            assert(consequence_of(s0, rules@[r as int], store@[k]));
                            lemma_derived_mono(
                                s0,
                                store@,
                                rules@[r as int].head,
                                rules@[r as int].body@,
                                store@[k],
                            );
                            assert(consequence_of(store@, rules@[r as int], store@[k]));
                        }
                    }
                }
                d += 1;
            }
            r += 1;
        }
        round += 1;
    }
    proof {
        assert(seeds_stored(facts@, store@));
        assert(all_supported(facts@, rules@, store@));
    }
    store
}

/// The selection invariant: `r` holds exactly the atoms of the first `i`
/// stored atoms that answer the query.
pub open spec fn selected(r: Seq<AtomShape>, s: Seq<AtomShape>, q: AtomShape, i: int) -> bool {
    forall|a: AtomShape|
        #![trigger store_has(r, a)]
        #![trigger answers_query(q, a)]
        store_has(r, a) <==> (store_has(s.take(i), a) && answers_query(q, a))
}

/// The stored atoms answering the query, each once, in store order.
pub fn query(store: &Vec<AtomShape>, q: &AtomShape) -> (r: Vec<AtomShape>)
    requires
        store_distinct(store@),
    ensures
        forall|a: AtomShape| store_has(r@, a) <==> (store_has(store@, a) && answers_query(*q, a)),
        store_distinct(r@),
        query_exact(store@, *q, r@),
{
    let mut r: Vec<AtomShape> = Vec::new();
    let mut i: usize = 0;
    while i < store.len()
        invariant
            store_distinct(store@),
            i <= store@.len(),
            selected(r@, store@, *q, i as int),
            store_distinct(r@),
        decreases store@.len() - i,
    {
        let ghost before = r@;
        let ghost cur = store@[i as int];
        proof {
            assert(selected(before, store@, *q, i as int));
        }
        let hit = matches_query_exec(q, &store[i]);
        let ghost mut gc: AtomShape = cur;
        let ghost mut gdup: bool = true;
        if hit {
            let copied = atom_copy(&store[i]);
            let dup = store_contains(&r, &copied);
            proof {
                gc = copied;
                gdup = dup;
            }
            if !dup {
                r.push(copied);
                proof {
                    assert(r@.drop_last() =~= before);
                }
            }
        }
        proof {
            let taken = store@.take(i + 1);
            assert(taken.drop_last() =~= store@.take(i as int));
            assert(taken.last() == cur);
            if hit {
                assert(atom_same(gc, cur));
                lemma_atom_same_sym(gc, cur);
            }
            assert forall|a: AtomShape| store_has(r@, a) implies (store_has(taken, a)
                && answers_query(*q, a)) by {
                if store_has(before, a) {
                    assert(store_has(before, a) <==> (store_has(store@.take(i as int), a)
                        && answers_query(*q, a)));
                    assert(store_has(store@.take(i as int), a) && answers_query(*q, a));
                    let w = choose|w: int|
                        0 <= w < store@.take(i as int).len() && atom_same(
                            store@.take(i as int)[w],
                            a,
                        );
                    assert(atom_same(taken[w], a));
                } else {
                    if !hit || gdup {
                        assert(r@ == before);
                        assert(false);
                    }
                    let w = choose|w: int| 0 <= w < r@.len() && atom_same(r@[w], a);
                    if w < r@.len() - 1 {
                        assert(atom_same(before[w], a));
                        assert(false);
                    }
                    assert(atom_same(gc, a));
                    lemma_atom_same_trans(cur, gc, a);
                    assert(atom_same(taken[i as int], a));
                    lemma_answers_same(*q, cur, a);
                }
            }
            assert forall|a: AtomShape| (store_has(taken, a) && answers_query(*q, a)) implies
                store_has(r@, a) by {
                let w = choose|w: int| 0 <= w < taken.len() && atom_same(taken[w], a);
                if w < i {
                    assert(atom_same(store@.take(i as int)[w], a));
                    assert(store_has(store@.take(i as int), a));
                    assert(store_has(before, a));
                    let v = choose|v: int| 0 <= v < before.len() && atom_same(before[v], a);
                    assert(atom_same(r@[v], a));
                } else {
                    assert(atom_same(cur, a));
                    if !hit {
                        lemma_atom_same_sym(cur, a);
                        lemma_answers_same(*q, a, cur);
                        assert(false);
                    } else if !gdup {
                        lemma_atom_same_trans(gc, cur, a);
                        assert(atom_same(r@[r@.len() - 1], a));
                    } else {
                        let v = choose|v: int| 0 <= v < before.len() && atom_same(before[v], gc);
                        lemma_atom_same_trans(before[v], gc, cur);
                        lemma_atom_same_trans(before[v], cur, a);
                        assert(atom_same(r@[v], a));
                    }
                }
            }
            assert forall|x: int, y: int| 0 <= x < y < r@.len() implies !atom_same(
                r@[x],
                r@[y],
            ) by {
                if y == r@.len() - 1 && hit && !gdup && y >= before.len() {
                    if atom_same(r@[x], r@[y]) {
                        lemma_atom_same_trans(before[x], gc, cur);
                        assert(store_has(before, gc));
                    }
                }
            }
            assert(selected(r@, store@, *q, i + 1));
        }
        i += 1;
    }
    proof {
        assert(store@.take(store@.len() as int) =~= store@);
        assert forall|a: AtomShape| store_has(r@, a) <==> (store_has(store@, a) && answers_query(
            *q,
            a,
        )) by {
            assert(store_has(r@, a) <==> (store_has(store@.take(store@.len() as int), a)
                && answers_query(*q, a)));
        }
        assert(query_exact(store@, *q, r@));
    }
    r
}

/// The printed form of a term: a variable's name or a constant's canonical
/// form.
pub open spec fn term_text(t: TermShape) -> Seq<char> {
    match t {
        TermShape::Var(_, n) => n@,
        TermShape::Const(c) => c@,
    }
}

/// The argument list joined with a comma and a space.
pub open spec fn args_text(args: Seq<TermShape>) -> Seq<char>
    decreases args.len(),
{
    if args.len() == 0 {
        Seq::empty()
    } else if args.len() == 1 {
        term_text(args[0])
    } else {
        args_text(args.drop_last()) + ", "@ + term_text(args.last())
    }
}

/// The canonical line for a result atom: the predicate name, the argument
/// list in parentheses, and a closing period.
pub open spec fn atom_line_text(name: Seq<char>, args: Seq<TermShape>) -> Seq<char> {
    name + "("@ + args_text(args) + ")."@
}

proof fn lemma_args_text_step(args: Seq<TermShape>, i: int)
    requires
        0 <= i < args.len(),
    ensures
        i == 0 ==> args_text(args.take(1)) == term_text(args[0]),
        i > 0 ==> args_text(args.take(i + 1)) == args_text(args.take(i)) + ", "@ + term_text(
            args[i],
        ),
{
    assert(args.take(i + 1).drop_last() =~= args.take(i));
    assert(args.take(i + 1).last() == args[i]);
}

/// Writes the canonical line for `a` under the given predicate name.
pub fn atom_line(name: &str, a: &AtomShape) -> (r: String)
    ensures
        r@ == atom_line_text(name@, a.args@),
{
    let mut out = String::from_str(name);
    out.append("(");
    let n = a.args.len();
    let mut i: usize = 0;
    while i < n
        invariant
            n == a.args@.len(),
            i <= n,
            out@ == name@ + "("@ + args_text(a.args@.take(i as int)),
        decreases n - i,
    {
        let ghost prev = out@;
        if i > 0 {
            out.append(", ");
        }
        match &a.args[i] {
            TermShape::Var(_, vn) => out.append(vn.as_str()),
            TermShape::Const(c) => out.append(c.as_str()),
        }
        proof {
            if i == 0 {
                assert(out@ =~= prev + term_text(a.args@[i as int]));
            } else {
                assert(out@ =~= prev + ", "@ + term_text(a.args@[i as int]));
            }
            lemma_args_text_step(a.args@, i as int);
        }
        i += 1;
    }
    proof {
        assert(a.args@.take(n as int) =~= a.args@);
    }
    let r = out.concat(").");
    proof {
        assert(r@ =~= atom_line_text(name@, a.args@));
    }
    r
}

fn matches_query_exec(q: &AtomShape, a: &AtomShape) -> (r: bool)
    ensures
        r == answers_query(*q, *a),
{
    if q.pred != a.pred || q.args.len() != a.args.len() {
        return false;
    }
    let n = q.args.len();
    let mut i: usize = 0;
    while i < n
        invariant
            n == q.args@.len(),
            n == a.args@.len(),
            q.pred == a.pred,
            i <= n,
            forall|j: int|
                #![trigger q.args@[j]]
                0 <= j < i ==> (q.args@[j] matches TermShape::Const(c) ==> (a.args@[j] matches
                    TermShape::Const(d)
                && d@ == c@)),
        decreases n - i,
    {
        let ok: bool = match &q.args[i] {
            TermShape::Const(_) => term_eq(&q.args[i], &a.args[i]),
            TermShape::Var(_, _) => true,
        };
        if !ok {
            return false;
        }
        i += 1;
    }
    true
}

} // verus!
