use moesif_wasm::event::RequestInfo;
use moesif_wasm::rules::{
    check_regex, evaluate, BodyTemplate, GovernanceRule, RegexCondition, RegexConditionsAnd,
    ResponseOverride, ResponseOverrides, RuleTemplate, Variable,
};

fn request(uri: &str, verb: &str) -> RequestInfo {
    let mut req = RequestInfo::new();
    req.uri = uri.to_string();
    req.verb = verb.to_string();
    req
}

fn rule(
    regex_config: Vec<RegexConditionsAnd>,
    block: bool,
    status: i32,
    headers: &[(&str, &str)],
    body: Option<&str>,
    variables: Option<Vec<Variable>>,
) -> GovernanceRule {
    GovernanceRule {
        id: "r".to_string(),
        name: "rule".to_string(),
        type_field: "regex".to_string(),
        block,
        regex_config,
        response: ResponseOverrides {
            body: body.map(|b| BodyTemplate(b.to_string())),
            headers: headers.iter().map(|(k, v)| (k.to_string(), v.to_string())).collect(),
            status,
        },
        variables,
        applied_to: "matching".to_string(),
        applied_to_unidentified: false,
        org_id: "org".to_string(),
        app_id: "app".to_string(),
        created_at: "2024-01-01".to_string(),
    }
}

fn cond(path: &str, value: &str) -> RegexCondition {
    RegexCondition { path: path.to_string(), value: value.to_string() }
}

#[test]
fn empty_regex_config_matches_unconditionally() {
    let r = rule(Vec::new(), true, 403, &[], None, None);
    assert!(check_regex(&r, &request("/anything", "GET")));
    assert!(check_regex(&r, &request("", "")));
}

#[test]
fn and_group_requires_every_condition() {
    let groups = vec![RegexConditionsAnd {
        conditions: vec![cond("request.uri", "^/api"), cond("request.verb", "^POST$")],
    }];
    let r = rule(groups, true, 403, &[], None, None);
    assert!(check_regex(&r, &request("/api/users", "POST")));
    assert!(!check_regex(&r, &request("/api/users", "GET")));
    assert!(!check_regex(&r, &request("/other", "POST")));
}

#[test]
fn groups_are_or_combined() {
    let groups = vec![
        RegexConditionsAnd { conditions: vec![cond("request.uri", "^/admin")] },
        RegexConditionsAnd { conditions: vec![cond("request.verb", "^DELETE$")] },
    ];
    let r = rule(groups, true, 403, &[], None, None);
    assert!(check_regex(&r, &request("/admin/x", "GET")));
    assert!(check_regex(&r, &request("/public", "DELETE")));
    assert!(!check_regex(&r, &request("/public", "GET")));
}

#[test]
fn malformed_regex_fails_closed() {
    let groups = vec![RegexConditionsAnd { conditions: vec![cond("request.uri", "(")] }];
    let r = rule(groups, true, 403, &[], None, None);
    assert!(!check_regex(&r, &request("(", "GET")));
}

#[test]
fn unknown_path_resolves_to_empty_string() {
    let groups = vec![RegexConditionsAnd { conditions: vec![cond("request.nope", "^$")] }];
    let r = rule(groups, true, 403, &[], None, None);
    assert!(check_regex(&r, &request("/x", "GET")));
}

#[test]
fn evaluate_yields_nothing_without_a_match() {
    let groups = vec![RegexConditionsAnd { conditions: vec![cond("request.uri", "^/admin")] }];
    let rules = vec![rule(groups, true, 403, &[], None, None)];
    assert!(evaluate(&rules, &request("/public", "GET")).is_none());
}

#[test]
fn evaluate_accumulates_across_matching_rules() {
    let r1 = rule(
        Vec::new(),
        false,
        401,
        &[("x-rule", "one"), ("x-first", "yes")],
        Some("first body"),
        None,
    );
    let r2 = rule(
        Vec::new(),
        true,
        403,
        &[("x-rule", "two")],
        None,
        None,
    );
    let rules = vec![r1, r2];
    let tov = evaluate(&rules, &request("/x", "GET")).unwrap();
    // block is OR-combined; later status wins; later headers override by key;
    // the last body seen sticks.
    assert!(tov.block);
    assert_eq!(tov.status, 403);
    let expected_headers: Vec<(String, String)> = vec![
        ("x-rule".to_string(), "two".to_string()),
        ("x-first".to_string(), "yes".to_string()),
    ];
    assert_eq!(tov.headers, expected_headers);
    assert_eq!(tov.body, Some(b"first body".to_vec()));
}

#[test]
fn evaluate_substitutes_variables_from_the_request() {
    let r1 = rule(
        Vec::new(),
        true,
        403,
        &[("x-blocked-uri", "{{u}}")],
        Some("blocked {{u}} via {{v}}"),
        Some(vec![
            Variable { name: "u".to_string(), path: "request.uri".to_string() },
            Variable { name: "v".to_string(), path: "request.verb".to_string() },
        ]),
    );
    let rules = vec![r1];
    let tov = evaluate(&rules, &request("/api/users", "POST")).unwrap();
    let expected_headers: Vec<(String, String)> = vec![
        ("x-blocked-uri".to_string(), "/api/users".to_string()),
    ];
    assert_eq!(tov.headers, expected_headers);
    assert_eq!(tov.body, Some(b"blocked /api/users via POST".to_vec()));
}

#[test]
fn template_override_instantiates_one_rule() {
    let r1 = rule(Vec::new(), true, 500, &[("h", "{{a}}!")], Some("{{a}}"), None);
    let tpl = RuleTemplate {
        rule: r1,
        values: vec![("a".to_string(), "v".to_string())],
    };
    let tov = tpl.template_override();
    assert!(tov.block);
    assert_eq!(tov.status, 500);
    let expected_headers: Vec<(String, String)> = vec![("h".to_string(), "v!".to_string())];
    assert_eq!(tov.headers, expected_headers);
    assert_eq!(tov.body, Some(b"v".to_vec()));
}

#[test]
fn response_override_merges_templates_in_order() {
    let t1 = RuleTemplate {
        rule: rule(Vec::new(), false, 401, &[("k", "{{a}}")], Some("b1"), None),
        values: vec![("a".to_string(), "one".to_string())],
    };
    let t2 = RuleTemplate {
        rule: rule(Vec::new(), true, 402, &[("k", "two")], None, None),
        values: Vec::new(),
    };
    let response = moesif_wasm::event::ResponseInfo {
        time: String::new(),
        status: 200,
        headers: Vec::new(),
        ip_address: None,
        body: moesif_wasm::event::BodyValue::Null,
    };
    let merged = ResponseOverride::new(response, vec![t1, t2]);
    assert!(merged.override_values.block);
    assert_eq!(merged.override_values.status, 402);
    let expected_headers: Vec<(String, String)> = vec![("k".to_string(), "two".to_string())];
    assert_eq!(merged.override_values.headers, expected_headers);
    assert_eq!(merged.override_values.body, Some(b"b1".to_vec()));
    assert!(!merged.wrote_headers);
    assert!(!merged.wrote_body);
}
