use mangle_query::run_mangle_query;

fn parse(result_json: &str) -> serde_json::Value {
    serde_json::from_str(result_json).unwrap()
}

#[test]
fn test_success_case() {
    let input = r#"
        service("order-service").
        uses_library("order-service", "log4j", "2.14").
        vulnerable_version("log4j", "2.14").
        is_vulnerable(Svc) :-
          uses_library(Svc, Lib, Ver),
          vulnerable_version(Lib, Ver).
        is_vulnerable(Svc).
    "#;
    let result_json = run_mangle_query(input);
    let result = parse(&result_json);

    assert_eq!(result["status"], "success");
    let data = result["data"].as_array().unwrap();
    assert_eq!(data.len(), 1);
    assert_eq!(data[0], "is_vulnerable(\"order-service\").");
}

#[test]
fn test_no_results_case() {
    let input = r#"
        service("order-service").
        uses_library("order-service", "log4j", "2.17"). # Safe version
        vulnerable_version("log4j", "2.14").
        is_vulnerable(Svc) :-
          uses_library(Svc, Lib, Ver),
          vulnerable_version(Lib, Ver).
        is_vulnerable(Svc).
    "#;
    let result_json = run_mangle_query(input);
    let result = parse(&result_json);

    assert_eq!(result["status"], "success");
    let data = result["data"].as_array().unwrap();
    assert_eq!(data.len(), 0);
}

#[test]
fn test_syntax_error_case() {
    let input = r#"
        // Missing dot at the end of the fact
        service("order-service")
        is_vulnerable(Svc).
    "#;
    let result_json = run_mangle_query(input);
    let result = parse(&result_json);

    assert_eq!(result["status"], "error");
    let message = result["message"].as_str().unwrap();
    assert!(!message.is_empty());
    assert!(message.starts_with("Parse error:") || message.starts_with("Parser error:"));
}

#[test]
fn test_multi_step_deduction() {
    let input = r#"
        # Base Facts
        is_a("Mufasa", "lion").
        parent("Mufasa", "Simba").
        is_male("Mufasa").

        # Rule 1: Deduce what a father is
        father(Parent, Child) :-
          parent(Parent, Child),
          is_male(Parent).

        # Rule 2: Deduce a paternal relationship based on the first rule
        paternal_grandfather(GF, GC) :-
          father(GF, F),
          parent(F, GC).

        # This would fail, so we don't include it yet.
        # For now, we test the first deduction.
        father(Father, "Simba").
    "#;
    let result_json = run_mangle_query(input);
    let result = parse(&result_json);

    assert_eq!(result["status"], "success");
    let data = result["data"].as_array().unwrap();
    assert_eq!(data.len(), 1);
    assert_eq!(data[0], "father(\"Mufasa\", \"Simba\").");
}

#[test]
fn test_whitespace_only_input() {
    let result_json = run_mangle_query("   \t\n   ");
    assert_eq!(
        result_json,
        "{\"status\":\"error\",\"message\":\"Input string cannot be empty.\"}"
    );
}

#[test]
fn test_empty_input() {
    let result_json = run_mangle_query("");
    let result = parse(&result_json);
    assert_eq!(result["status"], "error");
    assert_eq!(result["message"], "Input string cannot be empty.");
}

#[test]
fn test_comment_only_input() {
    let result_json = run_mangle_query("// just a comment\n");
    let result = parse(&result_json);
    assert_eq!(result["status"], "error");
    let message = result["message"].as_str().unwrap();
    assert!(
        message == "No clauses found in input."
            || message.starts_with("Parse error:")
            || message.starts_with("Parser error:")
    );
}

#[test]
fn test_query_is_rule_rejection() {
    let input = r#"
        parent("Mufasa", "Simba").
        father(P, C) :- parent(P, C), is_male(P).
    "#;
    let result_json = run_mangle_query(input);
    let result = parse(&result_json);
    assert_eq!(result["status"], "error");
    assert_eq!(
        result["message"],
        "The last statement must be a query atom, not a rule."
    );
}

#[test]
fn test_empty_result_envelope_exact() {
    let input = r#"
        parent("Mufasa", "Simba").
        parent("Sarabi", Who).
    "#;
    let result_json = run_mangle_query(input);
    assert_eq!(result_json, "{\"status\":\"success\",\"data\":[]}");
}

#[test]
fn test_idempotent_runs() {
    let input = r#"
        edge("a", "b").
        edge("b", "c").
        connected(X, Y) :- edge(X, Y).
        connected(X, "c").
    "#;
    let first = run_mangle_query(input);
    let second = run_mangle_query(input);
    let v1 = parse(&first);
    let v2 = parse(&second);
    assert_eq!(v1["status"], "success");
    assert_eq!(v2["status"], "success");
    let mut d1: Vec<String> = v1["data"]
        .as_array()
        .unwrap()
        .iter()
        .map(|x| x.as_str().unwrap().to_string())
        .collect();
    let mut d2: Vec<String> = v2["data"]
        .as_array()
        .unwrap()
        .iter()
        .map(|x| x.as_str().unwrap().to_string())
        .collect();
    d1.sort();
    d2.sort();
    assert_eq!(d1, d2);
}

#[test]
fn test_fact_and_rule_same_predicate() {
    // A predicate that is both asserted as a fact and derived by a rule is
    // intensional; its facts act as seed tuples.
    let input = r#"
        reachable("a", "b").
        edge("b", "c").
        reachable(X, Y) :- reachable(X, Z), edge(Z, Y).
        reachable("a", Y).
    "#;
    let result_json = run_mangle_query(input);
    let result = parse(&result_json);
    assert_eq!(result["status"], "success");
    let mut data: Vec<String> = result["data"]
        .as_array()
        .unwrap()
        .iter()
        .map(|x| x.as_str().unwrap().to_string())
        .collect();
    data.sort();
    assert_eq!(
        data,
        vec![
            "reachable(\"a\", \"b\").".to_string(),
            "reachable(\"a\", \"c\").".to_string()
        ]
    );
}

#[test]
fn test_every_response_is_json() {
    let inputs = ["", "   ", "nonsense((", "p(\"a\"). p(X).", "// c\n"];
    for input in inputs {
        let result_json = run_mangle_query(input);
        let v = parse(&result_json);
        let status = v["status"].as_str().unwrap();
        assert!(status == "success" || status == "error");
        if status == "success" {
            let data = v["data"].as_array().unwrap();
            for item in data {
                assert!(item.is_string());
            }
        } else {
            assert!(v["message"].is_string());
        }
    }
}
