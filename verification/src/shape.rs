//! The shape of a parsed clause list, and the decisions the adapter takes on
//! it: splitting off the query, enumerating the schema, and classifying
//! predicates as extensional or intensional.
//!
//! Predicates are identified by small numbers; each distinct predicate
//! symbol of the input gets one. A clause's shape records its head
//! predicate, the predicates of its atom premises, and how many premises it
//! has in all. A clause with no premises is a fact, any other is a rule.

use vstd::prelude::*;

verus! {

/// What the adapter reads off one clause: the head predicate, the
/// predicates of the premises that are atoms (in order), and the total
/// premise count (atoms and other formulas alike).
pub struct ClauseShape {
    pub head: usize,
    pub atom_premises: Vec<usize>,
    pub n_premises: usize,
}

/// A clause with no premises at all.
pub open spec fn is_fact(s: ClauseShape) -> bool {
    s.n_premises == 0
}

/// Whether `p` occurs in the clause as head or as an atom premise.
pub open spec fn shape_mentions(s: ClauseShape, p: usize) -> bool {
    s.head == p || s.atom_premises@.contains(p)
}

/// Every predicate mentioned anywhere in the clause list.
pub open spec fn mentioned_preds(shapes: Seq<ClauseShape>) -> Set<usize> {
    Set::new(|p: usize| exists|i: int| 0 <= i < shapes.len() && shape_mentions(shapes[i], p))
}

/// Heads of the rules among the first `n` clauses.
pub open spec fn rule_head_preds(shapes: Seq<ClauseShape>, n: int) -> Set<usize> {
    Set::new(
        |p: usize|
            exists|i: int| 0 <= i < n && i < shapes.len() && !is_fact(shapes[i]) && shapes[i].head
                == p,
    )
}

/// Heads of the facts among the first `n` clauses.
pub open spec fn fact_head_preds(shapes: Seq<ClauseShape>, n: int) -> Set<usize> {
    Set::new(
        |p: usize|
            exists|i: int| 0 <= i < n && i < shapes.len() && is_fact(shapes[i]) && shapes[i].head
                == p,
    )
}

/// A predicate is extensional when it heads at least one fact and never
/// heads a rule.
pub open spec fn ext_pred_set(shapes: Seq<ClauseShape>, n: int) -> Set<usize> {
    fact_head_preds(shapes, n).difference(rule_head_preds(shapes, n))
}

/// Why a clause list cannot be split into a program and a query.
#[derive(Debug, PartialEq, Eq, Structural)]
pub enum SplitError {
    /// The list is empty.
    NoClauses,
    /// The last clause has premises, so it is a rule, not a query atom.
    QueryIsRule,
}

/// Splits the clause list: the last clause must be a fact-form query atom,
/// everything before it is the program. Returns the index of the query
/// clause.
pub fn split_query(shapes: &Vec<ClauseShape>) -> (r: Result<usize, SplitError>)
    ensures
        shapes@.len() == 0 <==> r == Result::<usize, SplitError>::Err(SplitError::NoClauses),
        (shapes@.len() > 0 && !is_fact(shapes@.last())) <==> r == Result::<
            usize,
            SplitError,
        >::Err(SplitError::QueryIsRule),
        r matches Ok(q) ==> shapes@.len() > 0 && q == shapes@.len() - 1 && is_fact(shapes@.last()),
{
    if shapes.len() == 0 {
        return Err(SplitError::NoClauses);
    }
    if shapes[shapes.len() - 1].n_premises != 0 {
        return Err(SplitError::QueryIsRule);
    }
    Ok(shapes.len() - 1)
}

fn vec_contains(v: &Vec<usize>, p: usize) -> (r: bool)
    ensures
        r == v@.contains(p),
{
    let mut i: usize = 0;
    while i < v.len()
        invariant
            i <= v@.len(),
            forall|j: int| 0 <= j < i ==> v@[j] != p,
        decreases v@.len() - i,
    {
        if v[i] == p {
            return true;
        }
        i += 1;
    }
    false
}

fn insert_unique(v: &mut Vec<usize>, p: usize)
    requires
        old(v)@.no_duplicates(),
    ensures
        final(v)@.no_duplicates(),
        forall|q: usize| final(v)@.contains(q) <==> (old(v)@.contains(q) || q == p),
        old(v)@.is_prefix_of(final(v)@),
{
    if !vec_contains(v, p) {
        v.push(p);
        proof {
            assert(v@.last() == p);
            assert(v@.drop_last() =~= old(v)@);
            assert forall|q: usize| v@.contains(q) implies (old(v)@.contains(q) || q == p) by {
                let j = choose|j: int| 0 <= j < v@.len() && v@[j] == q;
                if j < v@.len() - 1 {
                    assert(old(v)@[j] == q);
                }
            }
        }
    }
}

/// The distinct heads of the rules among the first `n` clauses.
pub fn rule_heads(shapes: &Vec<ClauseShape>, n: usize) -> (r: Vec<usize>)
    requires
        n <= shapes@.len(),
    ensures
        forall|p: usize| r@.contains(p) <==> rule_head_preds(shapes@, n as int).contains(p),
        r@.no_duplicates(),
{
    let mut r: Vec<usize> = Vec::new();
    let mut i: usize = 0;
    while i < n
        invariant
            n <= shapes@.len(),
            i <= n,
            forall|p: usize| r@.contains(p) <==> rule_head_preds(shapes@, i as int).contains(p),
            r@.no_duplicates(),
        decreases n - i,
    {
        let ghost before = r@;
        let h = shapes[i].head;
        let take_it = shapes[i].n_premises != 0;
        if take_it {
            insert_unique(&mut r, h);
        }
        proof {
            assert forall|p: usize| r@.contains(p) implies rule_head_preds(
                shapes@,
                i + 1,
            ).contains(p) by {
                if before.contains(p) {
                    let j = choose|j: int|
                        0 <= j < i && !is_fact(shapes@[j]) && shapes@[j].head == p;
                    assert(0 <= j < i + 1 && !is_fact(shapes@[j]) && shapes@[j].head == p);
                } else {
                    assert(take_it && p == h);
                    assert(!is_fact(shapes@[i as int]) && shapes@[i as int].head == p);
                }
            }
            assert forall|p: usize| rule_head_preds(shapes@, i + 1).contains(p) implies r@.contains(
                p,
            ) by {
                let j = choose|j: int|
                    0 <= j < i + 1 && j < shapes@.len() && !is_fact(shapes@[j]) && shapes@[j].head
                        == p;
                if j < i {
                    assert(rule_head_preds(shapes@, i as int).contains(p));
                    assert(before.contains(p));
                }
            }
        }
        i += 1;
    }
    r
}

/// The distinct extensional predicates among the first `n` clauses: heads of
/// facts that never head a rule. `rule_hs` must enumerate the rule heads.
pub fn ext_preds(shapes: &Vec<ClauseShape>, n: usize, rule_hs: &Vec<usize>) -> (r: Vec<usize>)
    requires
        n <= shapes@.len(),
        forall|p: usize| rule_hs@.contains(p) <==> rule_head_preds(shapes@, n as int).contains(p),
    ensures
        forall|p: usize| r@.contains(p) <==> ext_pred_set(shapes@, n as int).contains(p),
        r@.no_duplicates(),
{
    let ghost rset = rule_head_preds(shapes@, n as int);
    let mut r: Vec<usize> = Vec::new();
    let mut i: usize = 0;
    while i < n
        invariant
            n <= shapes@.len(),
            i <= n,
            rset == rule_head_preds(shapes@, n as int),
            forall|p: usize| rule_hs@.contains(p) <==> rset.contains(p),
            forall|p: usize|
                r@.contains(p) <==> fact_head_preds(shapes@, i as int).difference(rset).contains(
                    p,
                ),
            r@.no_duplicates(),
        decreases n - i,
    {
        let ghost before = r@;
        let h = shapes[i].head;
        let take_it = shapes[i].n_premises == 0 && !vec_contains(rule_hs, h);
        if take_it {
            insert_unique(&mut r, h);
        }
        proof {
            let fs_prev = fact_head_preds(shapes@, i as int).difference(rset);
            let fs_next = fact_head_preds(shapes@, i + 1).difference(rset);
            assert forall|p: usize| r@.contains(p) implies fs_next.contains(p) by {
                if before.contains(p) {
                    let j = choose|j: int|
                        0 <= j < i && is_fact(shapes@[j]) && shapes@[j].head == p;
                    assert(0 <= j < i + 1 && is_fact(shapes@[j]) && shapes@[j].head == p);
                } else {
                    assert(take_it && p == h);
                    assert(is_fact(shapes@[i as int]) && shapes@[i as int].head == p);
                }
            }
            assert forall|p: usize| fs_next.contains(p) implies r@.contains(p) by {
                let j = choose|j: int|
                    0 <= j < i + 1 && j < shapes@.len() && is_fact(shapes@[j]) && shapes@[j].head
                        == p;
                if j < i {
                    assert(fs_prev.contains(p));
                    assert(before.contains(p));
                }
            }
        }
        i += 1;
    }
    r
}

/// The distinct predicates mentioned anywhere in the full clause list,
/// heads and atom premises alike: the schema registers each of them.
pub fn schema_preds(shapes: &Vec<ClauseShape>) -> (r: Vec<usize>)
    ensures
        forall|p: usize| r@.contains(p) <==> mentioned_preds(shapes@).contains(p),
        r@.no_duplicates(),
{
    let ghost all = shapes@;
    let mut r: Vec<usize> = Vec::new();
    let mut i: usize = 0;
    while i < shapes.len()
        invariant
            all == shapes@,
            i <= all.len(),
            forall|p: usize| r@.contains(p) <==> mentioned_preds(all.take(i as int)).contains(p),
            r@.no_duplicates(),
        decreases all.len() - i,
    {
        let ghost before = r@;
        add_shape_preds(&mut r, &shapes[i]);
        proof {
            let taken = all.take(i + 1);
            assert forall|p: usize| r@.contains(p) implies mentioned_preds(taken).contains(p) by {
                if before.contains(p) {
                    let j = choose|j: int|
                        0 <= j < i && shape_mentions(all.take(i as int)[j], p);
                    assert(shape_mentions(taken[j], p));
                } else {
                    assert(shape_mentions(taken[i as int], p));
                }
            }
            assert forall|p: usize| mentioned_preds(taken).contains(p) implies r@.contains(p) by {
                let j = choose|j: int| 0 <= j < taken.len() && shape_mentions(taken[j], p);
                assert(taken[j] == all[j]);
                if j < i {
                    assert(all.take(i as int)[j] == all[j]);
                    assert(shape_mentions(all.take(i as int)[j], p));
                    assert(mentioned_preds(all.take(i as int)).contains(p));
                    assert(before.contains(p));
                } else {
                    assert(j == i);
                    assert(shape_mentions(all[i as int], p));
                }
            }
        }
        i += 1;
    }
    proof {
        assert(all.take(all.len() as int) =~= all);
    }
    r
}

fn add_shape_preds(r: &mut Vec<usize>, s: &ClauseShape)
    requires
        old(r)@.no_duplicates(),
    ensures
        final(r)@.no_duplicates(),
        forall|p: usize| final(r)@.contains(p) <==> (old(r)@.contains(p) || shape_mentions(*s, p)),
{
    insert_unique(r, s.head);
    let m = s.atom_premises.len();
    let mut k: usize = 0;
    while k < m
        invariant
            m == s.atom_premises@.len(),
            k <= m,
            r@.no_duplicates(),
            forall|p: usize|
                r@.contains(p) <==> (old(r)@.contains(p) || p == s.head || (exists|j: int|
                    0 <= j < k && s.atom_premises@[j] == p)),
        decreases m - k,
    {
        let ghost r_prev = r@;
        let q = s.atom_premises[k];
        insert_unique(r, q);
        proof {
            assert forall|p: usize| r@.contains(p) implies (old(r)@.contains(p) || p == s.head || (
            exists|j: int| 0 <= j < k + 1 && s.atom_premises@[j] == p)) by {
                if p == q {
                    assert(0 <= k < k + 1 && s.atom_premises@[k as int] == p);
                } else {
                    assert(r_prev.contains(p));
                    if !old(r)@.contains(p) && p != s.head {
                        let j = choose|j: int| 0 <= j < k && s.atom_premises@[j] == p;
                        assert(0 <= j < k + 1 && s.atom_premises@[j] == p);
                    }
                }
            }
            assert forall|p: usize| (old(r)@.contains(p) || p == s.head || (exists|j: int|
                0 <= j < k + 1 && s.atom_premises@[j] == p)) implies r@.contains(p) by {
                if !old(r)@.contains(p) && p != s.head && p != q {
                    let j = choose|j: int| 0 <= j < k + 1 && s.atom_premises@[j] == p;
                    assert(j < k);
                    assert(r_prev.contains(p));
                }
            }
        }
        k += 1;
    }
    proof {
        assert forall|p: usize| final(r)@.contains(p) implies (old(r)@.contains(p)
            || shape_mentions(*s, p)) by {}
        assert forall|p: usize| (old(r)@.contains(p) || shape_mentions(*s, p)) implies
            final(r)@.contains(p) by {
            if !old(r)@.contains(p) && p != s.head {
                let w = choose|w: int|
                    0 <= w < s.atom_premises@.len() && s.atom_premises@[w] == p;
                assert(0 <= w < m && s.atom_premises@[w] == p);
            }
        }
    }
}

/// Every predicate that occurs syntactically in some clause, as its head or
/// as one of its atom premises, is among the mentioned predicates that the
/// schema registers.
pub proof fn lemma_schema_complete(shapes: Seq<ClauseShape>, i: int, p: usize)
    requires
        0 <= i < shapes.len(),
        shape_mentions(shapes[i], p),
    ensures
        mentioned_preds(shapes).contains(p),
{
}

/// The extensional predicates and the rule-head predicates are disjoint: a
/// predicate that heads any rule is never listed as extensional.
pub proof fn lemma_ext_rule_disjoint(shapes: Seq<ClauseShape>, n: int)
    ensures
        ext_pred_set(shapes, n).disjoint(rule_head_preds(shapes, n)),
{
    assert forall|p: usize| ext_pred_set(shapes, n).contains(p) implies !rule_head_preds(
        shapes,
        n,
    ).contains(p) by {}
}

} // verus!
