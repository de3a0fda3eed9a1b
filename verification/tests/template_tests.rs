use moesif_wasm::rules::{
    template, rule_templated_body, BodyTemplate, GovernanceRule, ResponseOverrides, Variable,
};

fn pairs(items: &[(&str, &str)]) -> Vec<(String, String)> {
    items.iter().map(|(a, b)| (a.to_string(), b.to_string())).collect()
}

#[test]
fn substitutes_each_referenced_variable() {
    let vars = pairs(&[("a", "x"), ("b", "y")]);
    assert_eq!(template("{{a}}-{{b}}", &vars), "x-y");
}

#[test]
fn variable_not_referenced_leaves_template_unchanged() {
    let vars = pairs(&[("a", "x")]);
    assert_eq!(template("hello world", &vars), "hello world");
}

#[test]
fn placeholder_of_absent_variable_stays_literal() {
    let vars = pairs(&[("a", "x")]);
    assert_eq!(template("{{a}}-{{b}}", &vars), "x-{{b}}");
}

#[test]
fn repeated_placeholders_are_all_replaced() {
    let vars = pairs(&[("a", "z")]);
    assert_eq!(template("{{a}}{{a}}{{a}}", &vars), "zzz");
}

#[test]
fn empty_template_stays_empty() {
    let vars = pairs(&[("a", "x")]);
    assert_eq!(template("", &vars), "");
}

#[test]
fn no_variables_leaves_template_unchanged() {
    let vars: Vec<(String, String)> = Vec::new();
    assert_eq!(template("{{a}}", &vars), "{{a}}");
}

fn rule_with(body: Option<&str>, vars: Option<Vec<Variable>>) -> GovernanceRule {
    GovernanceRule {
        id: "r1".to_string(),
        name: "rule".to_string(),
        type_field: "regex".to_string(),
        block: false,
        regex_config: Vec::new(),
        response: ResponseOverrides {
            body: body.map(|b| BodyTemplate(b.to_string())),
            headers: Vec::new(),
            status: 200,
        },
        variables: vars,
        applied_to: "matching".to_string(),
        applied_to_unidentified: false,
        org_id: "org".to_string(),
        app_id: "app".to_string(),
        created_at: "2024-01-01".to_string(),
    }
}

#[test]
fn rule_body_templated_with_variable_paths() {
    let rule = rule_with(
        Some("uri={{u}}"),
        Some(vec![Variable { name: "u".to_string(), path: "request.uri".to_string() }]),
    );
    assert_eq!(rule_templated_body(&rule), Some("uri=request.uri".to_string()));
}

#[test]
fn rule_without_body_or_variables_yields_nothing() {
    assert_eq!(rule_templated_body(&rule_with(None, Some(Vec::new()))), None);
    assert_eq!(rule_templated_body(&rule_with(Some("b"), None)), None);
}
