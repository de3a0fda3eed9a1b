//! Governance rules: regex policies evaluated against a request record,
//! producing response-override instructions whose header values and body are
//! produced by `{{variable}}` template substitution.

use vstd::prelude::*;
use vstd::string::*;
use vstd::utf8::encode_utf8;
use crate::event::{RequestInfo, ResponseInfo};
use crate::headers::{spec_upsert, upsert};
use crate::text::{replace, spec_occurs, spec_replace, lemma_replace_absent};

verus! {

// ---------------------------------------------------------------------------
// Rule data model
// ---------------------------------------------------------------------------

pub struct RegexCondition {
    pub path: String,
    pub value: String,
}

pub struct RegexConditionsAnd {
    pub conditions: Vec<RegexCondition>,
}

pub struct BodyTemplate(pub String);

pub struct ResponseOverrides {
    pub body: Option<BodyTemplate>,
    pub headers: Vec<(String, String)>,
    pub status: i32,
}

pub struct Variable {
    pub name: String,
    pub path: String,
}

/// A policy that conditionally blocks or rewrites a response. It matches a
/// request iff at least one AND-group's conditions all match; an empty
/// `regex_config` matches unconditionally.
pub struct GovernanceRule {
    pub id: String,
    pub name: String,
    pub type_field: String,
    pub block: bool,
    pub regex_config: Vec<RegexConditionsAnd>,
    pub response: ResponseOverrides,
    pub variables: Option<Vec<Variable>>,
    pub applied_to: String,
    pub applied_to_unidentified: bool,
    pub org_id: String,
    pub app_id: String,
    pub created_at: String,
}

pub struct GovernanceRulesResponse {
    pub rules: Vec<GovernanceRule>,
    pub e_tag: Option<String>,
}

// ---------------------------------------------------------------------------
// Template substitution
// ---------------------------------------------------------------------------

/// The placeholder text a variable name is referenced by.
pub open spec fn spec_placeholder(name: Seq<char>) -> Seq<char> {
    "{{"@ + name + "}}"@
}

/// The template with each variable's placeholder replaced by its value, the
/// variables applied in list order.
pub open spec fn spec_template(t: Seq<char>, vars: Seq<(Seq<char>, Seq<char>)>) -> Seq<char>
    decreases vars.len(),
{
    if vars.len() == 0 {
        t
    } else {
        spec_template(spec_replace(t, spec_placeholder(vars[0].0), vars[0].1), vars.skip(1))
    }
}

/// Substitute `{{name}}` placeholders in `t` by the paired values.
pub fn template(t: &str, vars: &Vec<(String, String)>) -> (r: String)
    ensures
        r@ == spec_template(t@, vars.deep_view()),
{
    let ghost dv = vars.deep_view();
    let n = vars.len();
    let mut s = t.to_owned();
    let mut i: usize = 0;
    proof {
        assert(dv.skip(0) =~= dv);
    }
    while i < n
        invariant
            i <= n,
            n == vars@.len(),
            dv == vars.deep_view(),
            spec_template(t@, dv) == spec_template(s@, dv.skip(i as int)),
        decreases n - i,
    {
        proof {
            assert(dv[i as int] == (vars@[i as int].0@, vars@[i as int].1@));
            assert(dv.skip(i as int)[0] == dv[i as int]);
            assert(dv.skip(i as int).skip(1) =~= dv.skip(i + 1));
            reveal_strlit("{{");
            reveal_strlit("}}");
        }
        let mut pattern = String::from_str("{{");
        pattern.append(vars[i].0.as_str());
        pattern.append("}}");
        proof {
            assert(pattern@ == spec_placeholder(dv[i as int].0));
        }
        s = replace(s.as_str(), pattern.as_str(), vars[i].1.as_str());
        i = i + 1;
    }
    proof {
        assert(dv.skip(n as int) =~= Seq::<(Seq<char>, Seq<char>)>::empty());
    }
    s
}

/// A template in which no supplied variable's placeholder occurs comes back
/// unchanged: substitution touches referenced placeholders and nothing else.
pub proof fn lemma_template_without_placeholders(t: Seq<char>, vars: Seq<(Seq<char>, Seq<char>)>)
    requires
        forall|k: int| 0 <= k < vars.len() ==> !spec_occurs(t, spec_placeholder(#[trigger] vars[k].0)),
    ensures
        spec_template(t, vars) == t,
    decreases vars.len(),
{
    if vars.len() > 0 {
        reveal_strlit("{{");
        assert(spec_placeholder(vars[0].0).len() > 0);
        lemma_replace_absent(t, spec_placeholder(vars[0].0), vars[0].1);
        assert(forall|k: int|
            0 <= k < vars.skip(1).len() ==> #[trigger] vars.skip(1)[k] == vars[k + 1]);
        lemma_template_without_placeholders(t, vars.skip(1));
    }
}

// ---------------------------------------------------------------------------
// Request path resolution
// ---------------------------------------------------------------------------

/// The fixed path-resolution table: the request fields a rule's conditions and
/// variables may reference. An unknown path resolves to the empty string.
pub open spec fn spec_request_path_lookup(req: RequestInfo, path: Seq<char>) -> Seq<char> {
    if path == "request.uri"@ {
        req.uri@
    } else if path == "request.verb"@ {
        req.verb@
    } else {
        Seq::<char>::empty()
    }
}

/// Resolve a rule path against the request record.
pub fn request_path_lookup(req: &RequestInfo, path: &String) -> (r: String)
    ensures
        r@ == spec_request_path_lookup(*req, path@),
{
    if *path == "request.uri".to_owned() {
        req.uri.clone()
    } else if *path == "request.verb".to_owned() {
        req.verb.clone()
    } else {
        String::new()
    }
}

// ---------------------------------------------------------------------------
// Regex matching
// ---------------------------------------------------------------------------

/// Whether the pattern is a valid regular expression.
pub uninterp spec fn regex_ok(pattern: Seq<char>) -> bool;

/// Whether the (valid) pattern matches somewhere in the text.
pub uninterp spec fn regex_match(pattern: Seq<char>, text: Seq<char>) -> bool;

/// Relies on regex::Regex::new and regex::Regex::is_match: whether the
/// pattern compiles, and whether it matches the text, depend on those
/// arguments alone. An invalid pattern yields no verdict.
#[verifier::external_body]
fn regex_is_match(pattern: &String, text: &String) -> (r: Option<bool>)
    ensures
        r is Some <==> regex_ok(pattern@),
        r matches Some(b) ==> b == regex_match(pattern@, text@),
{
    match regex::Regex::new(pattern.as_str()) {
        Ok(re) => Some(re.is_match(text.as_str())),
        Err(_) => None,
    }
}

/// One condition matches when its regex is valid and matches the resolved
/// request field; a malformed regex fails closed and never matches.
pub open spec fn spec_cond_matches(c: RegexCondition, req: RequestInfo) -> bool {
    regex_ok(c.value@) && regex_match(c.value@, spec_request_path_lookup(req, c.path@))
}

/// All conditions of an AND-group match.
pub open spec fn spec_group_matches(g: RegexConditionsAnd, req: RequestInfo) -> bool {
    forall|i: int| 0 <= i < g.conditions@.len() ==> spec_cond_matches(#[trigger] g.conditions@[i], req)
}

/// A rule matches iff some AND-group matches — OR over groups, AND within a
/// group — and unconditionally when it has no groups at all.
pub open spec fn spec_rule_matches(rule: GovernanceRule, req: RequestInfo) -> bool {
    rule.regex_config@.len() == 0 || (exists|i: int|
        0 <= i < rule.regex_config@.len() && spec_group_matches(
            #[trigger] rule.regex_config@[i],
            req,
        ))
}

/// Every rule whose regex configuration is empty matches every request: the
/// vacuous match.
pub proof fn lemma_vacuous_match(rules: Seq<GovernanceRule>, req: RequestInfo)
    requires
        forall|i: int| 0 <= i < rules.len() ==> #[trigger] rules[i].regex_config@.len() == 0,
    ensures
        forall|i: int| 0 <= i < rules.len() ==> spec_rule_matches(#[trigger] rules[i], req),
{
}

fn check_group(g: &RegexConditionsAnd, req: &RequestInfo) -> (r: bool)
    ensures
        r == spec_group_matches(*g, *req),
{
    let n = g.conditions.len();
    let mut j: usize = 0;
    while j < n
        invariant
            j <= n,
            n == g.conditions@.len(),
            forall|k: int| 0 <= k < j ==> spec_cond_matches(#[trigger] g.conditions@[k], *req),
        decreases n - j,
    {
        let c = &g.conditions[j];
        let text = request_path_lookup(req, &c.path);
        let matched = match regex_is_match(&c.value, &text) {
            Some(b) => b,
            None => false,
        };
        if !matched {
            return false;
        }
        j = j + 1;
    }
    true
}

/// Whether the rule's regex policy matches the request: OR over AND-groups,
/// the empty configuration matching unconditionally, malformed regexes
/// failing closed.
pub fn check_regex(rule: &GovernanceRule, req: &RequestInfo) -> (r: bool)
    ensures
        r == spec_rule_matches(*rule, *req),
{
    let n = rule.regex_config.len();
    if n == 0 {
        return true;
    }
    let mut i: usize = 0;
    while i < n
        invariant
            i <= n,
            n == rule.regex_config@.len(),
            forall|k: int| 0 <= k < i ==> !spec_group_matches(#[trigger] rule.regex_config@[k], *req),
        decreases n - i,
    {
        if check_group(&rule.regex_config[i], req) {
            return true;
        }
        i = i + 1;
    }
    false
}

// ---------------------------------------------------------------------------
// Templated overrides
// ---------------------------------------------------------------------------

/// A matched rule paired with the variable values resolved for one request.
pub struct RuleTemplate {
    pub rule: GovernanceRule,
    pub values: Vec<(String, String)>,
}

/// The concrete response override a matched rule instructs: whether to block,
/// the status, and headers and body with placeholders substituted.
pub struct TemplatedOverrideValues {
    pub block: bool,
    pub headers: Vec<(String, String)>,
    pub status: i32,
    pub body: Option<Vec<u8>>,
}

/// Each header value templated under `values`; keys untouched, order kept.
pub open spec fn spec_templated_headers(
    hs: Seq<(Seq<char>, Seq<char>)>,
    values: Seq<(Seq<char>, Seq<char>)>,
) -> Seq<(Seq<char>, Seq<char>)> {
    Seq::new(hs.len(), |i: int| (hs[i].0, spec_template(hs[i].1, values)))
}

/// Fold a batch of entries into a header map, front to back, later entries
/// for a key replacing earlier ones.
pub open spec fn spec_upsert_all(
    acc: Seq<(Seq<char>, Seq<char>)>,
    hs: Seq<(Seq<char>, Seq<char>)>,
) -> Seq<(Seq<char>, Seq<char>)>
    decreases hs.len(),
{
    if hs.len() == 0 {
        acc
    } else {
        spec_upsert_all(spec_upsert(acc, hs[0].0, hs[0].1), hs.skip(1))
    }
}

fn templated_headers(hs: &Vec<(String, String)>, values: &Vec<(String, String)>) -> (r: Vec<
    (String, String),
>)
    ensures
        r.deep_view() == spec_templated_headers(hs.deep_view(), values.deep_view()),
{
    let ghost hdv = hs.deep_view();
    let ghost vdv = values.deep_view();
    let n = hs.len();
    let mut out: Vec<(String, String)> = Vec::new();
    let mut i: usize = 0;
    proof {
        assert(out.deep_view() =~= spec_templated_headers(hdv, vdv).take(0));
    }
    while i < n
        invariant
            i <= n,
            n == hs@.len(),
            hdv == hs.deep_view(),
            vdv == values.deep_view(),
            out.deep_view() =~= spec_templated_headers(hdv, vdv).take(i as int),
        decreases n - i,
    {
        proof {
            assert(hdv[i as int] == (hs@[i as int].0@, hs@[i as int].1@));
        }
        let ghost o0 = out.deep_view();
        let key = hs[i].0.clone();
        let value = template(hs[i].1.as_str(), values);
        out.push((key, value));
        proof {
            assert(out.deep_view() =~= o0.push(
                (hdv[i as int].0, spec_template(hdv[i as int].1, vdv)),
            ));
            assert(out.deep_view() =~= spec_templated_headers(hdv, vdv).take(i + 1));
        }
        i = i + 1;
    }
    proof {
        assert(spec_templated_headers(hdv, vdv).take(n as int) =~= spec_templated_headers(
            hdv,
            vdv,
        ));
    }
    out
}

impl RuleTemplate {
    /// Instantiate the rule's override under this template's variable values.
    pub fn template_override(&self) -> (r: TemplatedOverrideValues)
        ensures
            r.block == self.rule.block,
            r.status == self.rule.response.status,
            r.headers.deep_view() == spec_templated_headers(
                self.rule.response.headers.deep_view(),
                self.values.deep_view(),
            ),
            match self.rule.response.body {
                Some(b) => r.body matches Some(bytes) && bytes@ == encode_utf8(
                    spec_template(b.0@, self.values.deep_view()),
                ),
                None => r.body is None,
            },
    {
        let headers = templated_headers(&self.rule.response.headers, &self.values);
        let body = match &self.rule.response.body {
            Some(b) => Some(template(b.0.as_str(), &self.values).as_str().as_bytes_vec()),
            None => None,
        };
        TemplatedOverrideValues {
            block: self.rule.block,
            headers,
            status: self.rule.response.status,
            body,
        }
    }
}

/// Whether any template's rule asks to block: OR across all of them.
pub open spec fn spec_merged_block(ts: Seq<RuleTemplate>) -> bool
    decreases ts.len(),
{
    if ts.len() == 0 {
        false
    } else {
        spec_merged_block(ts.drop_last()) || ts.last().rule.block
    }
}

/// The status of the last template, each one overwriting the one before.
pub open spec fn spec_merged_status(ts: Seq<RuleTemplate>) -> i32
    decreases ts.len(),
{
    if ts.len() == 0 {
        0
    } else {
        ts.last().rule.response.status
    }
}

/// All templated headers folded together, later templates overriding earlier
/// ones key by key.
pub open spec fn spec_merged_headers(ts: Seq<RuleTemplate>) -> Seq<(Seq<char>, Seq<char>)>
    decreases ts.len(),
{
    if ts.len() == 0 {
        Seq::<(Seq<char>, Seq<char>)>::empty()
    } else {
        spec_upsert_all(
            spec_merged_headers(ts.drop_last()),
            spec_templated_headers(
                ts.last().rule.response.headers.deep_view(),
                ts.last().values.deep_view(),
            ),
        )
    }
}

/// The templated body of the last template that has one, if any.
pub open spec fn spec_merged_body(ts: Seq<RuleTemplate>) -> Option<Seq<u8>>
    decreases ts.len(),
{
    if ts.len() == 0 {
        None
    } else if ts.last().rule.response.body is Some {
        Some(
            encode_utf8(
                spec_template((ts.last().rule.response.body->0).0@, ts.last().values.deep_view()),
            ),
        )
    } else {
        spec_merged_body(ts.drop_last())
    }
}

/// The override applied to one response: the accumulated instructions of all
/// matched rules, and the write-progress of applying them.
pub struct ResponseOverride {
    pub override_values: TemplatedOverrideValues,
    pub response: ResponseInfo,
    pub wrote_headers: bool,
    pub wrote_body: bool,
}

fn merge_override_headers(
    headers: Vec<(String, String)>,
    t_headers: &Vec<(String, String)>,
) -> (r: Vec<(String, String)>)
    ensures
        r.deep_view() == spec_upsert_all(headers.deep_view(), t_headers.deep_view()),
{
    let ghost start = headers.deep_view();
    let ghost th = t_headers.deep_view();
    let m = t_headers.len();
    let mut acc = headers;
    let mut j: usize = 0;
    proof {
        assert(th.skip(0) =~= th);
    }
    while j < m
        invariant
            j <= m,
            m == t_headers@.len(),
            th == t_headers.deep_view(),
            spec_upsert_all(start, th) == spec_upsert_all(acc.deep_view(), th.skip(j as int)),
        decreases m - j,
    {
        proof {
            assert(th[j as int] == (t_headers@[j as int].0@, t_headers@[j as int].1@));
            assert(th.skip(j as int)[0] == th[j as int]);
            assert(th.skip(j as int).skip(1) =~= th.skip(j + 1));
        }
        let key = t_headers[j].0.clone();
        let value = t_headers[j].1.clone();
        acc = upsert(acc, key, value);
        j = j + 1;
    }
    proof {
        assert(th.skip(m as int) =~= Seq::<(Seq<char>, Seq<char>)>::empty());
    }
    acc
}

impl ResponseOverride {
    /// Accumulate the override instructions of all matched templates: `block`
    /// is OR-combined, later templates' status and headers override earlier
    /// ones, and the last templated body wins.
    pub fn new(response: ResponseInfo, templates: Vec<RuleTemplate>) -> (r: ResponseOverride)
        ensures
            r.override_values.block == spec_merged_block(templates@),
            r.override_values.status == spec_merged_status(templates@),
            r.override_values.headers.deep_view() == spec_merged_headers(templates@),
            r.override_values.body.deep_view() == spec_merged_body(templates@),
            r.response == response,
            r.wrote_headers == false,
            r.wrote_body == false,
    {
        let n = templates.len();
        let mut block = false;
        let mut status: i32 = 0;
        let mut headers: Vec<(String, String)> = Vec::new();
        let mut body: Option<Vec<u8>> = None;
        let mut i: usize = 0;
        proof {
            assert(templates@.take(0) =~= Seq::<RuleTemplate>::empty());
            assert(headers.deep_view() =~= Seq::<(Seq<char>, Seq<char>)>::empty());
        }
        while i < n
            invariant
                i <= n,
                n == templates@.len(),
                block == spec_merged_block(templates@.take(i as int)),
                status == spec_merged_status(templates@.take(i as int)),
                headers.deep_view() == spec_merged_headers(templates@.take(i as int)),
                body.deep_view() == spec_merged_body(templates@.take(i as int)),
            decreases n - i,
        {
            proof {
                assert(templates@.take(i + 1).drop_last() =~= templates@.take(i as int));
                assert(templates@.take(i + 1).last() == templates@[i as int]);
            }
            let t = templates[i].template_override();
            block = block || t.block;
            status = t.status;
            headers = merge_override_headers(headers, &t.headers);
            if let Some(b) = t.body {
                body = Some(b);
            }
            i = i + 1;
        }
        proof {
            assert(templates@.take(n as int) =~= templates@);
        }
        ResponseOverride {
            override_values: TemplatedOverrideValues { block, headers, status, body },
            response,
            wrote_headers: false,
            wrote_body: false,
        }
    }
}

// ---------------------------------------------------------------------------
// Rule evaluation
// ---------------------------------------------------------------------------

/// The variable values a rule resolves against a request: each variable's
/// name paired with its path looked up in the request record.
pub open spec fn spec_resolved_values(vars: Option<Vec<Variable>>, req: RequestInfo) -> Seq<
    (Seq<char>, Seq<char>),
> {
    match vars {
        Some(vs) => Seq::new(
            vs@.len(),
            |i: int| (vs@[i].name@, spec_request_path_lookup(req, vs@[i].path@)),
        ),
        None => Seq::<(Seq<char>, Seq<char>)>::empty(),
    }
}

fn resolve_variables(vars: &Option<Vec<Variable>>, req: &RequestInfo) -> (r: Vec<(String, String)>)
    ensures
        r.deep_view() == spec_resolved_values(*vars, *req),
{
    let mut out: Vec<(String, String)> = Vec::new();
    match vars {
        Some(vs) => {
            let n = vs.len();
            let mut i: usize = 0;
            proof {
                assert(out.deep_view() =~= spec_resolved_values(*vars, *req).take(0));
            }
            while i < n
                invariant
                    i <= n,
                    n == vs@.len(),
                    vars matches Some(vv) && vv == *vs,
                    out.deep_view() =~= spec_resolved_values(*vars, *req).take(i as int),
                decreases n - i,
            {
                let ghost o0 = out.deep_view();
                let name = vs[i].name.clone();
                let value = request_path_lookup(req, &vs[i].path);
                out.push((name, value));
                proof {
                    assert(out.deep_view() =~= o0.push(
                        (vs@[i as int].name@, spec_request_path_lookup(*req, vs@[i as int].path@)),
                    ));
                    assert(out.deep_view() =~= spec_resolved_values(*vars, *req).take(i + 1));
                }
                i = i + 1;
            }
            proof {
                assert(spec_resolved_values(*vars, *req).take(n as int) =~= spec_resolved_values(
                    *vars,
                    *req,
                ));
            }
            out
        },
        None => out,
    }
}

/// A rule's variables taken as plain pairs, each name with its raw path.
pub open spec fn spec_variables_as_pairs(vars: Seq<Variable>) -> Seq<(Seq<char>, Seq<char>)> {
    Seq::new(vars.len(), |i: int| (vars[i].name@, vars[i].path@))
}

/// The rule's body template instantiated with the variables' paths as the
/// values — the preview rendered when a fetched rule set is inspected.
pub fn rule_templated_body(rule: &GovernanceRule) -> (r: Option<String>)
    ensures
        r is Some <==> (rule.response.body is Some && rule.variables is Some),
        r matches Some(s) ==> s@ == spec_template(
            (rule.response.body->0).0@,
            spec_variables_as_pairs((rule.variables->0)@),
        ),
{
    match (&rule.response.body, &rule.variables) {
        (Some(body), Some(vars)) => {
            let ghost pairs = spec_variables_as_pairs(vars@);
            let n = vars.len();
            let mut values: Vec<(String, String)> = Vec::new();
            let mut i: usize = 0;
            proof {
                assert(values.deep_view() =~= pairs.take(0));
            }
            while i < n
                invariant
                    i <= n,
                    n == vars@.len(),
                    rule.variables matches Some(vv) && vv == *vars,
                    pairs == spec_variables_as_pairs(vars@),
                    values.deep_view() =~= pairs.take(i as int),
                decreases n - i,
            {
                let ghost v0 = values.deep_view();
                values.push((vars[i].name.clone(), vars[i].path.clone()));
                proof {
                    assert(values.deep_view() =~= v0.push((vars@[i as int].name@,
                    vars@[i as int].path@)));
                    assert(values.deep_view() =~= pairs.take(i + 1));
                }
                i = i + 1;
            }
            proof {
                assert(pairs.take(n as int) =~= pairs);
            }
            Some(template(body.0.as_str(), &values))
        },
        _ => None,
    }
}

/// Whether any rule in the set matches the request.
pub open spec fn spec_any_match(rs: Seq<GovernanceRule>, req: RequestInfo) -> bool {
    exists|i: int| 0 <= i < rs.len() && spec_rule_matches(#[trigger] rs[i], req)
}

/// OR of `block` across the matching rules.
pub open spec fn spec_eval_block(rs: Seq<GovernanceRule>, req: RequestInfo) -> bool
    decreases rs.len(),
{
    if rs.len() == 0 {
        false
    } else {
        spec_eval_block(rs.drop_last(), req) || (spec_rule_matches(rs.last(), req)
            && rs.last().block)
    }
}

/// The status of the last matching rule, zero when none matches.
pub open spec fn spec_eval_status(rs: Seq<GovernanceRule>, req: RequestInfo) -> i32
    decreases rs.len(),
{
    if rs.len() == 0 {
        0
    } else if spec_rule_matches(rs.last(), req) {
        rs.last().response.status
    } else {
        spec_eval_status(rs.drop_last(), req)
    }
}

/// The templated headers of the matching rules folded in order, later rules
/// overriding earlier ones key by key.
pub open spec fn spec_eval_headers(rs: Seq<GovernanceRule>, req: RequestInfo) -> Seq<
    (Seq<char>, Seq<char>),
>
    decreases rs.len(),
{
    if rs.len() == 0 {
        Seq::<(Seq<char>, Seq<char>)>::empty()
    } else if spec_rule_matches(rs.last(), req) {
        spec_upsert_all(
            spec_eval_headers(rs.drop_last(), req),
            spec_templated_headers(
                rs.last().response.headers.deep_view(),
                spec_resolved_values(rs.last().variables, req),
            ),
        )
    } else {
        spec_eval_headers(rs.drop_last(), req)
    }
}

/// The templated body of the last matching rule that carries one.
pub open spec fn spec_eval_body(rs: Seq<GovernanceRule>, req: RequestInfo) -> Option<Seq<u8>>
    decreases rs.len(),
{
    if rs.len() == 0 {
        None
    } else if spec_rule_matches(rs.last(), req) && rs.last().response.body is Some {
        Some(
            encode_utf8(
                spec_template(
                    (rs.last().response.body->0).0@,
                    spec_resolved_values(rs.last().variables, req),
                ),
            ),
        )
    } else {
        spec_eval_body(rs.drop_last(), req)
    }
}

/// Evaluate the governance rules against a request record, in listed order.
/// No matching rule yields no override. Across the matching rules, `block` is
/// OR-combined and later rules' status, headers and body override earlier
/// ones; header values and the body are produced by `{{variable}}`
/// substitution under the rule's resolved variables.
pub fn evaluate(rules: &Vec<GovernanceRule>, request: &RequestInfo) -> (r: Option<
    TemplatedOverrideValues,
>)
    ensures
        r is Some <==> spec_any_match(rules@, *request),
        r matches Some(tov) ==> {
            &&& tov.block == spec_eval_block(rules@, *request)
            &&& tov.status == spec_eval_status(rules@, *request)
            &&& tov.headers.deep_view() == spec_eval_headers(rules@, *request)
            &&& tov.body.deep_view() == spec_eval_body(rules@, *request)
        },
{
    let n = rules.len();
    let mut matched = false;
    let mut block = false;
    let mut status: i32 = 0;
    let mut headers: Vec<(String, String)> = Vec::new();
    let mut body: Option<Vec<u8>> = None;
    let mut i: usize = 0;
    proof {
        assert(rules@.take(0) =~= Seq::<GovernanceRule>::empty());
        assert(headers.deep_view() =~= Seq::<(Seq<char>, Seq<char>)>::empty());
    }
    while i < n
        invariant
            i <= n,
            n == rules@.len(),
            matched == spec_any_match(rules@.take(i as int), *request),
            block == spec_eval_block(rules@.take(i as int), *request),
            status == spec_eval_status(rules@.take(i as int), *request),
            headers.deep_view() == spec_eval_headers(rules@.take(i as int), *request),
            body.deep_view() == spec_eval_body(rules@.take(i as int), *request),
        decreases n - i,
    {
        proof {
            assert(rules@.take(i + 1).drop_last() =~= rules@.take(i as int));
            assert(rules@.take(i + 1).last() == rules@[i as int]);
        }
        let rule = &rules[i];
        if check_regex(rule, request) {
            let values = resolve_variables(&rule.variables, request);
            matched = true;
            block = block || rule.block;
            status = rule.response.status;
            let th = templated_headers(&rule.response.headers, &values);
            headers = merge_override_headers(headers, &th);
            if let Some(b) = &rule.response.body {
                body = Some(template(b.0.as_str(), &values).as_str().as_bytes_vec());
            }
            proof {
                assert(spec_any_match(rules@.take(i + 1), *request)) by {
                    assert(rules@.take(i + 1)[i as int] == rules@[i as int]);
                }
            }
            i = i + 1;
        } else {
            proof {
                assert(spec_any_match(rules@.take(i + 1), *request) == spec_any_match(
                    rules@.take(i as int),
                    *request,
                )) by {
                    assert(forall|k: int|
                        0 <= k < i + 1 && spec_rule_matches(
                            #[trigger] rules@.take(i + 1)[k],
                            *request,
                        ) ==> 0 <= k < i && spec_rule_matches(rules@.take(i as int)[k], *request));
                }
            }
            i = i + 1;
        }
    }
    proof {
        assert(rules@.take(n as int) =~= rules@);
    }
    if matched {
        Some(TemplatedOverrideValues { block, headers, status, body })
    } else {
        None
    }
}

} // verus!
