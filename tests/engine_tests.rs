use std::str::FromStr;

use hickory_proto::op::{Message, ResponseCode};
use hickory_proto::rr::rdata::A;
use hickory_proto::rr::{Name, RData, Record};

use kixdns::config::{
    Action, GlobalSettings, MatchOperator, Matcher, MatcherWithOp, Pipeline, PipelineConfig, PipelineSelectRule,
    PipelineSelectorMatcher, PipelineSelectorMatcherWithOp, ResponseMatcher, ResponseMatcherWithOp, Rule,
};
use kixdns::engine::{
    after_outcome, after_upstream, resolve_in_budget, ForwardStep, NextMove, OutcomeKind, RequestState,
    apply_rules, apply_rules_logged, make_static_ip_answer, next_response_step, resolve_jumps, select_pipeline, Decision, ResponseStep,
    RCODE_NOERROR, RCODE_NXDOMAIN, RCODE_REFUSED, RCODE_SERVFAIL,
};
use kixdns::index::compile_pipelines;
use kixdns::matcher::{eval_response_chain, RuntimeResponseMatcher, RuntimeResponseMatcherWithOp, CLASS_IN, TYPE_A};
use kixdns::message::{decode_response_facts, ResponseFacts};
use kixdns::net::IpAddress;
use kixdns::runtime::RuntimePipelineConfig;

const TEST_UPSTREAM: &str = "1.1.1.1:53";

fn localhost() -> IpAddress {
    IpAddress::V4(u32::from_be_bytes([127, 0, 0, 1]))
}

fn rule(name: &str, matchers: Vec<Matcher>, actions: Vec<Action>) -> Rule {
    Rule {
        name: name.to_string(),
        matchers: matchers.into_iter().map(|m| MatcherWithOp { operator: MatchOperator::And, matcher: m }).collect(),
        matcher_operator: MatchOperator::And,
        actions,
        response_matchers: Vec::new(),
        response_matcher_operator: MatchOperator::And,
        response_actions_on_match: Vec::new(),
        response_actions_on_miss: Vec::new(),
    }
}

fn pipeline(id: &str, rules: Vec<Rule>) -> Pipeline {
    Pipeline { id: id.to_string(), rules }
}

fn config(settings: GlobalSettings, pipelines: Vec<Pipeline>, select: Vec<PipelineSelectRule>) -> PipelineConfig {
    PipelineConfig { version: None, settings, pipeline_select: select, pipelines }
}

fn settings_with_upstream(upstream: &str) -> GlobalSettings {
    let mut s = GlobalSettings::default();
    s.default_upstream = upstream.to_string();
    s
}

fn decide(runtime: &RuntimePipelineConfig, qname: &str) -> Decision {
    let compiled = compile_pipelines(runtime);
    apply_rules(runtime, &runtime.pipelines[0], &compiled[0], localhost(), qname, TYPE_A, CLASS_IN, false, &Vec::new())
}

#[test]
fn make_static_ip_answer_returns_ipv4_record() {
    let (rcode, answers) = make_static_ip_answer("example.com", "1.2.3.4");
    assert_eq!(rcode, RCODE_NOERROR);
    assert_eq!(answers.len(), 1);
    assert!(matches!(answers[0].ip, IpAddress::V4(_)));
}

#[test]
fn make_static_ip_answer_returns_ipv6_record() {
    let (rcode, answers) = make_static_ip_answer("example.com", "2001:db8::1");
    assert_eq!(rcode, RCODE_NOERROR);
    assert_eq!(answers.len(), 1);
    assert!(matches!(answers[0].ip, IpAddress::V6(_)));
}

#[test]
fn make_static_ip_answer_rejects_invalid_input() {
    let (rcode, answers) = make_static_ip_answer("example.com", "not-an-ip");
    assert_eq!(rcode, RCODE_SERVFAIL);
    assert!(answers.is_empty());
}

#[test]
fn pipeline_select_picks_matching_pipeline() {
    let cfg = config(
        GlobalSettings::default(),
        vec![pipeline("p1", vec![]), pipeline("p2", vec![])],
        vec![PipelineSelectRule {
            pipeline: "p2".to_string(),
            matchers: vec![PipelineSelectorMatcherWithOp {
                operator: MatchOperator::And,
                matcher: PipelineSelectorMatcher::ListenerLabel { value: "edge".to_string() },
            }],
            matcher_operator: MatchOperator::And,
        }],
    );
    let runtime = RuntimePipelineConfig::from_config(cfg).expect("runtime");
    let (opt, id) = select_pipeline(&runtime, "any.example.com", localhost(), CLASS_IN, false, "edge");
    assert!(opt.is_some());
    assert_eq!(id, "p2");
}

#[test]
fn pipeline_select_respects_match_operator_or() {
    let cfg = config(
        GlobalSettings::default(),
        vec![pipeline("p1", vec![]), pipeline("p2", vec![])],
        vec![PipelineSelectRule {
            pipeline: "p2".to_string(),
            matchers: vec![
                PipelineSelectorMatcherWithOp {
                    operator: MatchOperator::And,
                    matcher: PipelineSelectorMatcher::ListenerLabel { value: "edge".to_string() },
                },
                PipelineSelectorMatcherWithOp {
                    operator: MatchOperator::And,
                    matcher: PipelineSelectorMatcher::DomainSuffix { value: ".internal".to_string() },
                },
            ],
            matcher_operator: MatchOperator::Or,
        }],
    );
    let runtime = RuntimePipelineConfig::from_config(cfg).expect("runtime");
    let (opt, id) = select_pipeline(&runtime, "example.com", localhost(), CLASS_IN, false, "edge");
    assert!(opt.is_some());
    assert_eq!(id, "p2");
}

#[test]
fn apply_rules_static_and_forward_allow_jump() {
    let cfg = config(
        settings_with_upstream("1.1.1.1:53"),
        vec![pipeline(
            "p",
            vec![rule("static", vec![Matcher::Any], vec![Action::StaticResponse { rcode: "NXDOMAIN".to_string() }])],
        )],
        vec![],
    );
    let runtime = RuntimePipelineConfig::from_config(cfg).expect("runtime");
    match decide(&runtime, "a.example.com") {
        Decision::Static { rcode, .. } => assert_eq!(rcode, RCODE_NXDOMAIN),
        _ => panic!("expected static"),
    }

    let mut fwd = rule(
        "fwd",
        vec![Matcher::Any],
        vec![Action::Forward { upstream: Some("8.8.8.8:53".to_string()), transport: None }],
    );
    fwd.response_matchers = vec![ResponseMatcherWithOp {
        operator: MatchOperator::And,
        matcher: ResponseMatcher::UpstreamEquals { value: "8.8.8.8:53".to_string() },
    }];
    fwd.response_matcher_operator = MatchOperator::And;
    let cfg2 = config(settings_with_upstream("1.1.1.1:53"), vec![pipeline("p2", vec![fwd])], vec![]);
    let runtime2 = RuntimePipelineConfig::from_config(cfg2).expect("runtime");
    match decide(&runtime2, "x.example.com") {
        Decision::Forward { upstream, response_matchers, response_matcher_operator, .. } => {
            assert_eq!(upstream, "8.8.8.8:53");
            assert_eq!(response_matchers.len(), 1);
            assert_eq!(response_matcher_operator, MatchOperator::And);
        },
        _ => panic!("expected forward"),
    }

    let cfg3 = config(
        settings_with_upstream("1.2.3.4:53"),
        vec![pipeline("p3", vec![rule("a", vec![Matcher::Any], vec![Action::Allow])])],
        vec![],
    );
    let runtime3 = RuntimePipelineConfig::from_config(cfg3).expect("runtime");
    match decide(&runtime3, "y.example.com") {
        Decision::Forward { upstream, .. } => assert_eq!(upstream, "1.2.3.4:53"),
        _ => panic!("expected forward from allow"),
    }

    let cfg4 = config(
        GlobalSettings::default(),
        vec![pipeline(
            "p4",
            vec![rule("j", vec![Matcher::Any], vec![Action::JumpToPipeline { pipeline: "other".to_string() }])],
        )],
        vec![],
    );
    let runtime4 = RuntimePipelineConfig::from_config(cfg4).expect("runtime");
    match decide(&runtime4, "z.example.com") {
        Decision::Jump { pipeline } => assert_eq!(pipeline, "other"),
        _ => panic!("expected jump"),
    }
}

fn build_response_context() -> ResponseFacts {
    let mut msg = Message::new();
    msg.set_response_code(ResponseCode::NoError);
    let name = Name::from_str("example.com").expect("name");
    let record = Record::from_rdata(name, 300, RData::A(A::new(1, 2, 3, 4)));
    msg.add_answer(record);
    decode_response_facts(&msg.to_vec().expect("encode")).expect("decode")
}

#[test]
fn response_actions_allow_returns_upstream_on_match() {
    let ctx = build_response_context();
    let ctx_upstream = Some(TEST_UPSTREAM.to_string());
    let actions = vec![Action::Allow];
    let response_matchers = vec![RuntimeResponseMatcherWithOp {
        operator: MatchOperator::And,
        matcher: RuntimeResponseMatcher::ResponseType { value: "A".into() },
    }];
    let step = next_response_step(&actions, 0, &ctx_upstream, &TEST_UPSTREAM.to_string(), "example.com", 0, 10);
    match step {
        ResponseStep::Upstream => {
            let resp_match = eval_response_chain(&response_matchers, TEST_UPSTREAM, "example.com", TYPE_A, CLASS_IN, &ctx);
            assert!(resp_match);
            assert_eq!(ctx_upstream.as_deref(), Some(TEST_UPSTREAM));
        },
        _ => panic!("expected upstream result"),
    }
}

#[test]
fn response_actions_allow_reports_miss_when_matchers_fail() {
    let ctx = build_response_context();
    let ctx_upstream = Some(TEST_UPSTREAM.to_string());
    let actions = vec![Action::Allow];
    let response_matchers = vec![RuntimeResponseMatcherWithOp {
        operator: MatchOperator::And,
        matcher: RuntimeResponseMatcher::ResponseType { value: "AAAA".into() },
    }];
    let step = next_response_step(&actions, 0, &ctx_upstream, &TEST_UPSTREAM.to_string(), "example.com", 0, 10);
    match step {
        ResponseStep::Upstream => {
            let resp_match = eval_response_chain(&response_matchers, TEST_UPSTREAM, "example.com", TYPE_A, CLASS_IN, &ctx);
            assert!(!resp_match);
        },
        _ => panic!("expected upstream result"),
    }
}

#[test]
fn response_actions_deny_returns_refused() {
    let actions = vec![Action::Deny];
    let step = next_response_step(&actions, 0, &None, &TEST_UPSTREAM.to_string(), "example.com", 0, 10);
    match step {
        ResponseStep::Static { rcode, answers } => {
            assert_eq!(rcode, RCODE_REFUSED);
            assert!(answers.is_empty());
        },
        _ => panic!("expected static refused"),
    }
}

#[test]
fn response_forward_chain_stops_after_four() {
    let fwd = Action::Forward { upstream: None, transport: None };
    let actions = vec![fwd.clone(), fwd.clone(), fwd.clone(), fwd.clone(), fwd];
    let ctx = Some("9.9.9.9:53".to_string());
    let mut attempts = 0u32;
    for pos in 0..4usize {
        match next_response_step(&actions, pos, &ctx, &TEST_UPSTREAM.to_string(), "q.example", attempts, 10) {
            ResponseStep::Forward { upstream, next, attempts: a, .. } => {
                assert_eq!(upstream, "9.9.9.9:53");
                assert_eq!(next, pos + 1);
                attempts = a;
            },
            _ => panic!("expected forward"),
        }
    }
    assert_eq!(attempts, 4);
    match next_response_step(&actions, 4, &ctx, &TEST_UPSTREAM.to_string(), "q.example", attempts, 10) {
        ResponseStep::Static { rcode, .. } => assert_eq!(rcode, RCODE_SERVFAIL),
        _ => panic!("expected servfail"),
    }
}

#[test]
fn response_jump_needs_budget() {
    let actions = vec![Action::JumpToPipeline { pipeline: "p2".to_string() }];
    match next_response_step(&actions, 0, &None, &TEST_UPSTREAM.to_string(), "q", 0, 0) {
        ResponseStep::Static { rcode, .. } => assert_eq!(rcode, RCODE_SERVFAIL),
        _ => panic!("expected servfail"),
    }
    match next_response_step(&actions, 0, &None, &TEST_UPSTREAM.to_string(), "q", 0, 3) {
        ResponseStep::Jump { pipeline, remaining_jumps } => {
            assert_eq!(pipeline, "p2");
            assert_eq!(remaining_jumps, 2);
        },
        _ => panic!("expected jump"),
    }
}

#[test]
fn pipeline_jump_resolves_to_target_decision() {
    let cfg = config(
        GlobalSettings::default(),
        vec![
            pipeline("p1", vec![rule("j", vec![Matcher::Any], vec![Action::JumpToPipeline { pipeline: "p2".into() }])]),
            pipeline("p2", vec![rule("s", vec![Matcher::Any], vec![Action::StaticResponse { rcode: "nxdomain".into() }])]),
        ],
        vec![],
    );
    let runtime = RuntimePipelineConfig::from_config(cfg).expect("runtime");
    let compiled = compile_pipelines(&runtime);
    let first = apply_rules(&runtime, &runtime.pipelines[0], &compiled[0], localhost(), "a.test", TYPE_A, CLASS_IN, false, &Vec::new());
    let resolved = resolve_jumps(&runtime, &compiled, Some(0), first, localhost(), "a.test", TYPE_A, CLASS_IN, false, 10);
    assert_eq!(resolved.jumps, 1);
    assert_eq!(resolved.pipeline, Some(1));
    match resolved.decision {
        Decision::Static { rcode, .. } => assert_eq!(rcode, RCODE_NXDOMAIN),
        _ => panic!("expected static"),
    }
}

#[test]
fn pipeline_jump_budget_exceeded_is_servfail() {
    let mut settings = GlobalSettings::default();
    settings.response_jump_limit = 3;
    let cfg = config(
        settings,
        vec![
            pipeline("p1", vec![rule("a", vec![Matcher::Any], vec![Action::JumpToPipeline { pipeline: "p2".into() }])]),
            pipeline("p2", vec![rule("b", vec![Matcher::Any], vec![Action::JumpToPipeline { pipeline: "p1".into() }])]),
        ],
        vec![],
    );
    let runtime = RuntimePipelineConfig::from_config(cfg).expect("runtime");
    let compiled = compile_pipelines(&runtime);
    let first = apply_rules(&runtime, &runtime.pipelines[0], &compiled[0], localhost(), "a.test", TYPE_A, CLASS_IN, false, &Vec::new());
    let limit = runtime.settings.response_jump_limit;
    let resolved = resolve_jumps(&runtime, &compiled, Some(0), first, localhost(), "a.test", TYPE_A, CLASS_IN, false, limit);
    assert!(resolved.jumps <= 3);
    match resolved.decision {
        Decision::Static { rcode, .. } => assert_eq!(rcode, RCODE_SERVFAIL),
        _ => panic!("expected servfail"),
    }
}

#[test]
fn jump_to_unknown_pipeline_is_servfail() {
    let cfg = config(
        GlobalSettings::default(),
        vec![pipeline("p1", vec![rule("a", vec![Matcher::Any], vec![Action::JumpToPipeline { pipeline: "nope".into() }])])],
        vec![],
    );
    let runtime = RuntimePipelineConfig::from_config(cfg).expect("runtime");
    let compiled = compile_pipelines(&runtime);
    let first = apply_rules(&runtime, &runtime.pipelines[0], &compiled[0], localhost(), "a.test", TYPE_A, CLASS_IN, false, &Vec::new());
    let resolved = resolve_jumps(&runtime, &compiled, Some(0), first, localhost(), "a.test", TYPE_A, CLASS_IN, false, 10);
    match resolved.decision {
        Decision::Static { rcode, .. } => assert_eq!(rcode, RCODE_SERVFAIL),
        _ => panic!("expected servfail"),
    }
}

#[test]
fn rule_walk_orders_and_skips() {
    let cfg = config(
        settings_with_upstream("9.9.9.9:53"),
        vec![pipeline(
            "p",
            vec![
                rule("logonly", vec![Matcher::Any], vec![Action::Log { level: None }]),
                rule("cont", vec![Matcher::DomainSuffix { value: "Example.COM".into() }], vec![Action::Continue, Action::Deny]),
                rule("deny", vec![Matcher::DomainSuffix { value: "example.com".into() }], vec![Action::Deny]),
                rule("ok", vec![Matcher::Any], vec![Action::Allow]),
            ],
        )],
        vec![],
    );
    let runtime = RuntimePipelineConfig::from_config(cfg).expect("runtime");
    match decide(&runtime, "www.example.com") {
        Decision::Static { rcode, answers } => {
            assert_eq!(rcode, RCODE_REFUSED);
            assert!(answers.is_empty());
        },
        _ => panic!("expected deny"),
    }
    match decide(&runtime, "other.org") {
        Decision::Forward { upstream, allow_reuse, rule_name, .. } => {
            assert_eq!(upstream, "9.9.9.9:53");
            assert!(allow_reuse);
            assert_eq!(rule_name, "ok");
        },
        _ => panic!("expected allow"),
    }
    let compiled = compile_pipelines(&runtime);
    let skip = vec!["deny".to_string()];
    match apply_rules(&runtime, &runtime.pipelines[0], &compiled[0], localhost(), "www.example.com", TYPE_A, CLASS_IN, false, &skip) {
        Decision::Forward { rule_name, .. } => assert_eq!(rule_name, "ok"),
        _ => panic!("expected allow after skip"),
    }
}

#[test]
fn empty_actions_fall_through_to_default_forward() {
    let cfg = config(
        settings_with_upstream("9.9.9.9:53"),
        vec![pipeline("p", vec![rule("nothing", vec![Matcher::Any], vec![])])],
        vec![],
    );
    let runtime = RuntimePipelineConfig::from_config(cfg).expect("runtime");
    match decide(&runtime, "a.b") {
        Decision::Forward { upstream, rule_name, allow_reuse, continue_on_match, continue_on_miss, .. } => {
            assert_eq!(upstream, "9.9.9.9:53");
            assert_eq!(rule_name, "default");
            assert!(!allow_reuse && !continue_on_match && !continue_on_miss);
        },
        _ => panic!("expected default forward"),
    }
}

#[test]
fn forward_decision_records_continue_flags() {
    let mut r = rule("f", vec![Matcher::Any], vec![Action::Forward { upstream: None, transport: None }]);
    r.response_actions_on_miss = vec![Action::Log { level: Some("warn".into()) }, Action::Continue];
    let cfg = config(settings_with_upstream("9.9.9.9:53"), vec![pipeline("p", vec![r])], vec![]);
    let runtime = RuntimePipelineConfig::from_config(cfg).expect("runtime");
    match decide(&runtime, "a.b") {
        Decision::Forward { upstream, continue_on_match, continue_on_miss, allow_reuse, response_actions_on_miss, .. } => {
            assert_eq!(upstream, "9.9.9.9:53");
            assert!(!continue_on_match);
            assert!(continue_on_miss);
            assert!(!allow_reuse);
            assert_eq!(response_actions_on_miss.len(), 2);
        },
        _ => panic!("expected forward"),
    }
}

#[test]
fn config_errors_are_reported() {
    let bad_cidr = config(
        GlobalSettings::default(),
        vec![pipeline("p", vec![rule("r", vec![Matcher::ClientIp { cidr: "10.0.0.0/40".into() }], vec![])])],
        vec![],
    );
    assert!(RuntimePipelineConfig::from_config(bad_cidr).is_err());
    let bad_regex = config(
        GlobalSettings::default(),
        vec![pipeline("p", vec![rule("r", vec![Matcher::DomainRegex { value: "(".into() }], vec![])])],
        vec![],
    );
    assert!(RuntimePipelineConfig::from_config(bad_regex).is_err());
    let bad_class = config(
        GlobalSettings::default(),
        vec![pipeline("p", vec![rule("r", vec![Matcher::Qclass { value: "xx".into() }], vec![])])],
        vec![],
    );
    assert!(RuntimePipelineConfig::from_config(bad_class).is_err());
    let ok_class = config(
        GlobalSettings::default(),
        vec![pipeline("p", vec![rule("r", vec![Matcher::Qclass { value: "chaos".into() }], vec![])])],
        vec![],
    );
    assert!(RuntimePipelineConfig::from_config(ok_class).is_ok());
}

#[test]
fn rule_level_operator_applies_to_default_items() {
    let mut r = rule(
        "r",
        vec![Matcher::DomainSuffix { value: "a.com".into() }, Matcher::DomainSuffix { value: "b.com".into() }],
        vec![Action::Deny],
    );
    r.matcher_operator = MatchOperator::Or;
    let cfg = config(GlobalSettings::default(), vec![pipeline("p", vec![r])], vec![]);
    let runtime = RuntimePipelineConfig::from_config(cfg).expect("runtime");
    assert_eq!(runtime.pipelines[0].rules[0].matchers[1].operator, MatchOperator::Or);
    match decide(&runtime, "x.b.com") {
        Decision::Static { rcode, .. } => assert_eq!(rcode, RCODE_REFUSED),
        _ => panic!("expected deny"),
    }
}

#[test]
fn rule_walk_reports_leading_logs() {
    let cfg = config(
        settings_with_upstream("9.9.9.9:53"),
        vec![pipeline(
            "p",
            vec![
                rule("first", vec![Matcher::Any], vec![Action::Log { level: Some("debug".into()) }, Action::Continue]),
                rule("other", vec![Matcher::DomainSuffix { value: "nomatch.test".into() }], vec![Action::Log { level: None }]),
                rule("last", vec![Matcher::Any], vec![Action::Log { level: None }, Action::Deny, Action::Log { level: None }]),
            ],
        )],
        vec![],
    );
    let runtime = RuntimePipelineConfig::from_config(cfg).expect("runtime");
    let compiled = compile_pipelines(&runtime);
    let (d, logs) =
        apply_rules_logged(&runtime, &runtime.pipelines[0], &compiled[0], localhost(), "a.b", TYPE_A, CLASS_IN, false, &Vec::new());
    assert!(matches!(d, Decision::Static { rcode: RCODE_REFUSED, .. }));
    assert_eq!(logs.len(), 2);
    assert_eq!(logs[0].rule, "first");
    assert_eq!(logs[0].level.as_deref(), Some("debug"));
    assert_eq!(logs[1].rule, "last");
    assert_eq!(logs[1].level, None);
}

#[test]
fn after_upstream_steps() {
    let none: Vec<Action> = vec![];
    let some = vec![Action::Deny];
    assert_eq!(after_upstream(&none, &none, None, 60), ForwardStep::ServFail);
    assert_eq!(after_upstream(&none, &some, None, 60), ForwardStep::RunActions { on_match: false, with_reply: false });
    assert_eq!(after_upstream(&none, &none, Some((true, 30)), 60), ForwardStep::Return { ttl: 60 });
    assert_eq!(after_upstream(&none, &none, Some((false, 300)), 60), ForwardStep::Return { ttl: 0 });
    assert_eq!(after_upstream(&some, &none, Some((false, 300)), 60), ForwardStep::RunActions { on_match: false, with_reply: true });
    assert_eq!(after_upstream(&some, &none, Some((true, 300)), 60), ForwardStep::RunActions { on_match: true, with_reply: true });
}

#[test]
fn after_outcome_moves() {
    let s = RequestState::new(3);
    let (s, m) = after_outcome(s, OutcomeKind::Continue { rule_name: "r1".into(), has_reply: true }, 0);
    assert!(matches!(m, NextMove::Redecide));
    assert_eq!(s.skip, vec!["r1".to_string()]);
    assert!(s.reuse_reply);
    let (mut s, m) = after_outcome(s, OutcomeKind::Jump { pipeline: "p2".into() }, 0);
    match m {
        NextMove::Resolve { decision: Decision::Jump { pipeline } } => assert_eq!(pipeline, "p2"),
        _ => panic!("expected jump"),
    }
    assert!(s.skip.is_empty());
    assert!(s.take_reuse(true));
    assert!(!s.take_reuse(true));
    let (_, m) = after_outcome(s, OutcomeKind::Upstream { matched: true, answer_ttl: 20 }, 60);
    assert!(matches!(m, NextMove::Finish { ttl: 60 }));
}

#[test]
fn shared_budget_across_phases() {
    let cfg = config(
        GlobalSettings::default(),
        vec![
            pipeline("p1", vec![rule("a", vec![Matcher::Any], vec![Action::JumpToPipeline { pipeline: "p2".into() }])]),
            pipeline("p2", vec![rule("b", vec![Matcher::Any], vec![Action::StaticResponse { rcode: "REFUSED".into() }])]),
        ],
        vec![],
    );
    let runtime = RuntimePipelineConfig::from_config(cfg).expect("runtime");
    let compiled = compile_pipelines(&runtime);
    let mut state = RequestState::new(1);
    let first = apply_rules(&runtime, &runtime.pipelines[0], &compiled[0], localhost(), "a.test", TYPE_A, CLASS_IN, false, &Vec::new());
    let r = resolve_in_budget(&mut state, &runtime, &compiled, Some(0), first, localhost(), "a.test", TYPE_A, CLASS_IN, false);
    assert!(matches!(r.decision, Decision::Static { rcode: RCODE_REFUSED, .. }));
    assert_eq!(state.budget.left(), 0);
    let again = Decision::Jump { pipeline: "p2".into() };
    let r2 = resolve_in_budget(&mut state, &runtime, &compiled, Some(1), again, localhost(), "a.test", TYPE_A, CLASS_IN, false);
    assert!(matches!(r2.decision, Decision::Static { rcode: RCODE_SERVFAIL, .. }));
}
