use mangle_query::eval::{atom_line, eval, query, AtomShape, RuleShape, TermShape};
use mangle_query::is_blank;
use mangle_query::response::{error_envelope, panic_message, success_envelope};
use mangle_query::shape::{ext_preds, rule_heads, schema_preds, split_query, ClauseShape, SplitError};

fn shape(head: usize, atom_premises: Vec<usize>, n_premises: usize) -> ClauseShape {
    ClauseShape { head, atom_premises, n_premises }
}

#[test]
fn test_is_blank_cases() {
    assert!(is_blank(""));
    assert!(is_blank(" \t\r\n"));
    assert!(is_blank("\u{a0}\u{2028}\u{3000}"));
    assert!(!is_blank(" a "));
    assert!(!is_blank("p(\"x\")."));
}

#[test]
fn test_split_query_empty() {
    let shapes: Vec<ClauseShape> = vec![];
    assert_eq!(split_query(&shapes), Err(SplitError::NoClauses));
}

#[test]
fn test_split_query_rule_last() {
    let shapes = vec![shape(0, vec![], 0), shape(1, vec![0], 1)];
    assert_eq!(split_query(&shapes), Err(SplitError::QueryIsRule));
}

#[test]
fn test_split_query_ok() {
    let shapes = vec![shape(0, vec![], 0), shape(1, vec![0], 1), shape(1, vec![], 0)];
    assert_eq!(split_query(&shapes), Ok(2));
}

#[test]
fn test_schema_covers_all_predicates() {
    // Heads and atom premises all appear; nothing is listed twice.
    let shapes = vec![
        shape(0, vec![], 0),
        shape(1, vec![2, 3], 2),
        shape(2, vec![1, 1], 3),
        shape(1, vec![], 0),
    ];
    let mut schema = schema_preds(&shapes);
    schema.sort();
    assert_eq!(schema, vec![0, 1, 2, 3]);
}

#[test]
fn test_ext_preds_disjoint_from_rule_heads() {
    // Predicate 0: fact only. Predicate 1: fact and rule head. Predicate 2:
    // rule head only. Only predicate 0 is extensional.
    let shapes = vec![
        shape(0, vec![], 0),
        shape(1, vec![], 0),
        shape(1, vec![0], 1),
        shape(2, vec![1], 1),
        shape(2, vec![], 0),
    ];
    let n = shapes.len();
    let rh = rule_heads(&shapes, n);
    let ext = ext_preds(&shapes, n, &rh);
    let mut rh_sorted = rh.clone();
    rh_sorted.sort();
    assert_eq!(rh_sorted, vec![1, 2]);
    assert_eq!(ext, vec![0]);
    for p in &ext {
        assert!(!rh.contains(p));
    }
}

#[test]
fn test_success_envelope_plain() {
    let data = vec!["p(\"a\").".to_string()];
    let out = success_envelope(&data);
    assert_eq!(out, "{\"status\":\"success\",\"data\":[\"p(\\\"a\\\").\"]}");
    let v: serde_json::Value = serde_json::from_str(&out).unwrap();
    assert_eq!(v["data"][0], "p(\"a\").");
}

#[test]
fn test_success_envelope_empty() {
    let data: Vec<String> = vec![];
    assert_eq!(success_envelope(&data), "{\"status\":\"success\",\"data\":[]}");
}

#[test]
fn test_success_envelope_many() {
    let data = vec!["a".to_string(), "b".to_string(), "c".to_string()];
    assert_eq!(success_envelope(&data), "{\"status\":\"success\",\"data\":[\"a\",\"b\",\"c\"]}");
}

#[test]
fn test_error_envelope_escaping() {
    let out = error_envelope("a\"b\\c\nd\te\u{1}f");
    let v: serde_json::Value = serde_json::from_str(&out).unwrap();
    assert_eq!(v["status"], "error");
    assert_eq!(v["message"], "a\"b\\c\nd\te\u{1}f");
    assert!(out.contains("\\u0001"));
    // The envelope matches what a JSON serializer produces for the same
    // message.
    let reference = serde_json::to_string("a\"b\\c\nd\te\u{1}f").unwrap();
    assert!(out.ends_with(&format!("{}}}", reference)));
}

fn cterm(s: &str) -> TermShape {
    TermShape::Const(s.to_string())
}

fn vterm(id: u32, n: &str) -> TermShape {
    TermShape::Var(id, n.to_string())
}

fn atom(p: usize, args: Vec<TermShape>) -> AtomShape {
    AtomShape { pred: p, args }
}

#[test]
fn test_eval_transitive_closure() {
    // edge(a,b). edge(b,c). path(X,Y) :- edge(X,Y).
    // path(X,Z) :- path(X,Y), edge(Y,Z).
    let facts = vec![
        atom(0, vec![cterm("\"a\""), cterm("\"b\"")]),
        atom(0, vec![cterm("\"b\""), cterm("\"c\"")]),
    ];
    let rules = vec![
        RuleShape {
            head: atom(1, vec![vterm(1, "X"), vterm(2, "Y")]),
            body: vec![atom(0, vec![vterm(1, "X"), vterm(2, "Y")])],
        },
        RuleShape {
            head: atom(1, vec![vterm(1, "X"), vterm(3, "Z")]),
            body: vec![
                atom(1, vec![vterm(1, "X"), vterm(2, "Y")]),
                atom(0, vec![vterm(2, "Y"), vterm(3, "Z")]),
            ],
        },
    ];
    let store = eval(&facts, &rules);
    let answers = query(&store, &atom(1, vec![cterm("\"a\""), vterm(9, "Q")]));
    let mut lines: Vec<String> = answers.iter().map(|a| atom_line("path", a)).collect();
    lines.sort();
    assert_eq!(
        lines,
        vec!["path(\"a\", \"b\").".to_string(), "path(\"a\", \"c\").".to_string()]
    );
}

#[test]
fn test_eval_repeated_variable_binds_consistently() {
    // q(X) :- p(X, X). Facts p(a,b) and p(c,c): only c qualifies.
    let facts = vec![
        atom(0, vec![cterm("\"a\""), cterm("\"b\"")]),
        atom(0, vec![cterm("\"c\""), cterm("\"c\"")]),
    ];
    let rules = vec![RuleShape {
        head: atom(1, vec![vterm(1, "X")]),
        body: vec![atom(0, vec![vterm(1, "X"), vterm(1, "X")])],
    }];
    let store = eval(&facts, &rules);
    let answers = query(&store, &atom(1, vec![vterm(9, "Q")]));
    assert_eq!(answers.len(), 1);
    assert_eq!(atom_line("q", &answers[0]), "q(\"c\").");
}

#[test]
fn test_query_filters_by_constants() {
    let facts = vec![
        atom(0, vec![cterm("\"a\""), cterm("\"b\"")]),
        atom(0, vec![cterm("\"a\""), cterm("\"c\"")]),
        atom(0, vec![cterm("\"d\""), cterm("\"b\"")]),
    ];
    let rules: Vec<RuleShape> = vec![];
    let store = eval(&facts, &rules);
    let answers = query(&store, &atom(0, vec![cterm("\"a\""), vterm(1, "X")]));
    assert_eq!(answers.len(), 2);
    let none = query(&store, &atom(0, vec![cterm("\"z\""), vterm(1, "X")]));
    assert_eq!(none.len(), 0);
}

#[test]
fn test_atom_line_format() {
    assert_eq!(
        atom_line("p", &atom(0, vec![cterm("\"x\""), vterm(1, "Y")])),
        "p(\"x\", Y)."
    );
    assert_eq!(atom_line("zero", &atom(0, vec![])), "zero().");
}

#[test]
fn test_panic_message_tiers() {
    assert_eq!(panic_message(Some("engine overflow".to_string())), "engine overflow");
    assert_eq!(panic_message(None), "An unknown panic occurred.");
}
