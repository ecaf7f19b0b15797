//! Request-phase decisions: pipeline selection, the rule walk over index
//! candidates, jump resolution and static answers.
use vstd::prelude::*;

use crate::chain::chain_value;
use crate::config::{Action, MatchOperator, Transport, clone_actions, has_continue};
use crate::index::{
    CompiledMatcherWithOp, CompiledPipeline, PrecomputedAction, compiled_matcher_matches, fingerprint, is_candidate, member,
    parse_rcode, rcode_code, strictly_sorted, text_fingerprint,
};
use crate::chain::{chain_prefix, lemma_skip_keeps_value, needs_eval, step};
use crate::matcher::needs_evaluation;
use crate::text::{ascii_lower, to_ascii_lower};
use crate::quick::{be16, parse_quick, quick_query_spec};
use crate::message::build_response;
use std::collections::HashMap;
use std::hash::{Hash, Hasher};
use crate::matcher::{
    DomainRegex, RuntimeResponseMatcher, RuntimeResponseMatcherWithOp, eval_request_chain, eval_selector_chain,
    request_items, selector_items,
};
use crate::net::{IpAddress, IpNetwork, ip_text_value, parse_ip};
use crate::runtime::{RuntimePipeline, RuntimePipelineConfig, RuntimeRule};
use crate::text::{ascii_upper, str_eq};

verus! {

pub const RCODE_NOERROR: u16 = 0;

pub const RCODE_SERVFAIL: u16 = 2;

pub const RCODE_NXDOMAIN: u16 = 3;

pub const RCODE_REFUSED: u16 = 5;

/// TTL of synthesised address records, in seconds.
pub const STATIC_ANSWER_TTL: u32 = 300;

/// An address record synthesised for a static answer.
#[derive(Clone, Debug, PartialEq, Eq)]
pub struct StaticAnswer {
    pub name: String,
    pub ttl: u32,
    pub ip: IpAddress,
}

/// Outcome of the request phase.
#[derive(Clone, Debug)]
pub enum Decision {
    Static { rcode: u16, answers: Vec<StaticAnswer> },
    Forward {
        upstream: String,
        response_matchers: Vec<RuntimeResponseMatcherWithOp>,
        response_matcher_operator: MatchOperator,
        response_actions_on_match: Vec<Action>,
        response_actions_on_miss: Vec<Action>,
        rule_name: String,
        transport: Transport,
        continue_on_match: bool,
        continue_on_miss: bool,
        allow_reuse: bool,
    },
    Jump { pipeline: String },
}

/// Whether hickory accepts a text as a domain name.
pub uninterp spec fn dns_name_accepts(s: Seq<char>) -> bool;

/// Relies on `<hickory_proto::rr::Name as FromStr>::from_str`, whose success
/// depends on the text alone.
#[verifier::external_body]
fn dns_name_ok(s: &str) -> (r: bool)
    ensures
        r == dns_name_accepts(s@),
{
    <hickory_proto::rr::Name as std::str::FromStr>::from_str(s).is_ok()
}

/// RCODE and answers of a static IP response: one record of the address with
/// TTL 300 under the query name, or SERVFAIL and none when the address or the
/// name does not parse.
pub open spec fn static_ip_spec(qname: Seq<char>, ip: Seq<char>) -> (u16, Seq<(Seq<char>, u32, IpAddress)>) {
    match ip_text_value(ip) {
        Some(a) => if dns_name_accepts(qname) {
            (RCODE_NOERROR, seq![(qname, STATIC_ANSWER_TTL, a)])
        } else {
            (RCODE_SERVFAIL, Seq::empty())
        },
        None => (RCODE_SERVFAIL, Seq::empty()),
    }
}

pub open spec fn answers_view(v: Seq<StaticAnswer>) -> Seq<(Seq<char>, u32, IpAddress)> {
    Seq::new(v.len(), |i: int| (v[i].name@, v[i].ttl, v[i].ip))
}

/// Builds the answer of a static IP action.
pub fn make_static_ip_answer(qname: &str, ip: &str) -> (r: (u16, Vec<StaticAnswer>))
    ensures
        (r.0, answers_view(r.1@)) == static_ip_spec(qname@, ip@),
{
    match parse_ip(ip) {
        Some(a) => {
            if dns_name_ok(qname) {
                let mut answers: Vec<StaticAnswer> = Vec::new();
                answers.push(StaticAnswer { name: qname.to_owned(), ttl: STATIC_ANSWER_TTL, ip: a });
                assert(answers_view(answers@) =~= seq![(qname@, STATIC_ANSWER_TTL, a)]);
                (RCODE_NOERROR, answers)
            } else {
                let answers: Vec<StaticAnswer> = Vec::new();
                assert(answers_view(answers@) =~= Seq::empty());
                (RCODE_SERVFAIL, answers)
            }
        },
        None => {
            let answers: Vec<StaticAnswer> = Vec::new();
            assert(answers_view(answers@) =~= Seq::empty());
            (RCODE_SERVFAIL, answers)
        },
    }
}

/// Index of the first action at or after `k` that is not `Log`.
pub open spec fn first_non_log(actions: Seq<Action>, k: int) -> Option<int>
    decreases actions.len() - k,
{
    if k < 0 || k >= actions.len() {
        None
    } else if actions[k] is Log {
        first_non_log(actions, k + 1)
    } else {
        Some(k)
    }
}

/// The action a matching rule ends on: its first action that is not `Log`,
/// unless that is `Continue` (or there is none), in which case the walk moves
/// on to the next rule.
pub open spec fn terminal_action(actions: Seq<Action>) -> Option<int> {
    match first_non_log(actions, 0) {
        Some(k) => if actions[k] is Continue {
            None
        } else {
            Some(k)
        },
        None => None,
    }
}

/// The name is in the skip list.
pub open spec fn skipped(skip: Seq<String>, name: Seq<char>) -> bool {
    exists|i: int| 0 <= i < skip.len() && #[trigger] skip[i]@ == name
}

/// Rule `i` of the pipeline ends the request phase for this request.
pub open spec fn fires(
    p: RuntimePipeline,
    skip: Seq<String>,
    i: int,
    qname: Seq<char>,
    qclass: u16,
    client_ip: IpAddress,
    edns_present: bool,
) -> bool {
    &&& 0 <= i < p.rules@.len()
    &&& !skipped(skip, p.rules@[i].name@)
    &&& chain_value(request_items(p.rules@[i].matchers@, qname, qclass, client_ip, edns_present))
    &&& terminal_action(p.rules@[i].actions@) is Some
}

/// Two response matchers behave alike: same parameters, regexes compared by
/// pattern.
pub open spec fn same_response_matcher(a: RuntimeResponseMatcher, b: RuntimeResponseMatcher) -> bool {
    match (a, b) {
        (RuntimeResponseMatcher::RequestDomainRegex { regex: x }, RuntimeResponseMatcher::RequestDomainRegex { regex: y }) => x.pattern()
            == y.pattern(),
        (RuntimeResponseMatcher::RequestDomainRegex { .. }, _) => false,
        (_, RuntimeResponseMatcher::RequestDomainRegex { .. }) => false,
        (RuntimeResponseMatcher::ResponseUpstreamIp { nets: x }, RuntimeResponseMatcher::ResponseUpstreamIp { nets: y }) => x@
            == y@,
        (RuntimeResponseMatcher::ResponseAnswerIp { nets: x }, RuntimeResponseMatcher::ResponseAnswerIp { nets: y }) => x@
            == y@,
        (RuntimeResponseMatcher::ResponseUpstreamIp { .. }, _) => false,
        (RuntimeResponseMatcher::ResponseAnswerIp { .. }, _) => false,
        (_, RuntimeResponseMatcher::ResponseUpstreamIp { .. }) => false,
        (_, RuntimeResponseMatcher::ResponseAnswerIp { .. }) => false,
        _ => a == b,
    }
}

pub open spec fn same_response_matchers(a: Seq<RuntimeResponseMatcherWithOp>, b: Seq<RuntimeResponseMatcherWithOp>) -> bool {
    a.len() == b.len() && forall|i: int|
        0 <= i < a.len() ==> (#[trigger] a[i]).operator == b[i].operator && same_response_matcher(a[i].matcher, b[i].matcher)
}

fn copy_nets(v: &Vec<IpNetwork>) -> (r: Vec<IpNetwork>)
    ensures
        r@ == v@,
{
    let mut out: Vec<IpNetwork> = Vec::new();
    let mut i: usize = 0;
    while i < v.len()
        invariant
            i <= v@.len(),
            out@ == v@.take(i as int),
        decreases v@.len() - i,
    {
        out.push(v[i]);
        assert(v@.take(i as int + 1) == v@.take(i as int).push(v@[i as int]));
        i = i + 1;
    }
    assert(v@.take(v@.len() as int) == v@);
    out
}

pub fn copy_response_matcher(m: &RuntimeResponseMatcher) -> (r: RuntimeResponseMatcher)
    ensures
        same_response_matcher(r, *m),
{
    match m {
        RuntimeResponseMatcher::UpstreamEquals { value } => RuntimeResponseMatcher::UpstreamEquals { value: value.clone() },
        RuntimeResponseMatcher::RequestDomainSuffix { value } => RuntimeResponseMatcher::RequestDomainSuffix {
            value: value.clone(),
        },
        RuntimeResponseMatcher::RequestDomainRegex { regex } => RuntimeResponseMatcher::RequestDomainRegex {
            regex: regex.clone(),
        },
        RuntimeResponseMatcher::ResponseUpstreamIp { nets } => RuntimeResponseMatcher::ResponseUpstreamIp {
            nets: copy_nets(nets),
        },
        RuntimeResponseMatcher::ResponseAnswerIp { nets } => RuntimeResponseMatcher::ResponseAnswerIp { nets: copy_nets(nets) },
        RuntimeResponseMatcher::ResponseType { value } => RuntimeResponseMatcher::ResponseType { value: value.clone() },
        RuntimeResponseMatcher::ResponseRcode { value } => RuntimeResponseMatcher::ResponseRcode { value: value.clone() },
        RuntimeResponseMatcher::ResponseQclass { value } => RuntimeResponseMatcher::ResponseQclass { value: *value },
        RuntimeResponseMatcher::ResponseEdnsPresent { expect } => RuntimeResponseMatcher::ResponseEdnsPresent {
            expect: *expect,
        },
    }
}

pub fn copy_response_matchers(v: &Vec<RuntimeResponseMatcherWithOp>) -> (r: Vec<RuntimeResponseMatcherWithOp>)
    ensures
        same_response_matchers(r@, v@),
{
    let mut out: Vec<RuntimeResponseMatcherWithOp> = Vec::new();
    let mut i: usize = 0;
    while i < v.len()
        invariant
            i <= v@.len(),
            out@.len() == i,
            forall|k: int|
                0 <= k < i ==> (#[trigger] out@[k]).operator == v@[k].operator && same_response_matcher(
                    out@[k].matcher,
                    v@[k].matcher,
                ),
        decreases v@.len() - i,
    {
        out.push(RuntimeResponseMatcherWithOp { operator: v[i].operator, matcher: copy_response_matcher(&v[i].matcher) });
        i = i + 1;
    }
    out
}

/// The forward to the default upstream taken when no rule ends the walk.
pub open spec fn is_default_forward(d: Decision, default_upstream: Seq<char>) -> bool {
    match d {
        Decision::Forward {
            upstream,
            response_matchers,
            response_matcher_operator,
            response_actions_on_match,
            response_actions_on_miss,
            rule_name,
            transport,
            continue_on_match,
            continue_on_miss,
            allow_reuse,
        } => {
            &&& upstream@ == default_upstream
            &&& response_matchers@.len() == 0
            &&& response_matcher_operator == MatchOperator::And
            &&& response_actions_on_match@.len() == 0
            &&& response_actions_on_miss@.len() == 0
            &&& rule_name@ == "default"@
            &&& transport == Transport::Udp
            &&& !continue_on_match && !continue_on_miss && !allow_reuse
        },
        _ => false,
    }
}

/// The decision that action `a` of `rule` produces.
pub open spec fn action_decision(d: Decision, rule: RuntimeRule, a: Action, default_upstream: Seq<char>, qname: Seq<char>) -> bool {
    match a {
        Action::StaticResponse { rcode } => d matches Decision::Static { rcode: c, answers } && c == (match rcode_code(
            ascii_upper(rcode@),
        ) {
            Some(x) => x,
            None => RCODE_NXDOMAIN,
        }) && answers@.len() == 0,
        Action::StaticIpResponse { ip } => d matches Decision::Static { rcode: c, answers } && (c, answers_view(answers@))
            == static_ip_spec(qname, ip@),
        Action::JumpToPipeline { pipeline } => d matches Decision::Jump { pipeline: p } && p@ == pipeline@,
        Action::Deny => d matches Decision::Static { rcode: c, answers } && c == RCODE_REFUSED && answers@.len() == 0,
        Action::Allow => match d {
            Decision::Forward {
                upstream,
                response_matchers,
                response_matcher_operator,
                response_actions_on_match,
                response_actions_on_miss,
                rule_name,
                transport,
                continue_on_match,
                continue_on_miss,
                allow_reuse,
            } => {
                &&& upstream@ == default_upstream
                &&& response_matchers@.len() == 0
                &&& response_matcher_operator == MatchOperator::And
                &&& response_actions_on_match@.len() == 0
                &&& response_actions_on_miss@.len() == 0
                &&& rule_name@ == rule.name@
                &&& transport == Transport::Udp
                &&& !continue_on_match && !continue_on_miss && allow_reuse
            },
            _ => false,
        },
        Action::Forward { upstream: up, transport: tr } => match d {
            Decision::Forward {
                upstream,
                response_matchers,
                response_matcher_operator,
                response_actions_on_match,
                response_actions_on_miss,
                rule_name,
                transport,
                continue_on_match,
                continue_on_miss,
                allow_reuse,
            } => {
                &&& upstream@ == (match up {
                    Some(u) => u@,
                    None => default_upstream,
                })
                &&& same_response_matchers(response_matchers@, rule.response_matchers@)
                &&& response_matcher_operator == rule.response_matcher_operator
                &&& response_actions_on_match@ == rule.response_actions_on_match@
                &&& response_actions_on_miss@ == rule.response_actions_on_miss@
                &&& rule_name@ == rule.name@
                &&& transport == (match tr {
                    Some(t) => t,
                    None => Transport::Udp,
                })
                &&& continue_on_match == has_continue(rule.response_actions_on_match@)
                &&& continue_on_miss == has_continue(rule.response_actions_on_miss@)
                &&& !allow_reuse
            },
            _ => false,
        },
        _ => false,
    }
}

/// Whether a name is in the skip list.
pub fn is_skipped(skip: &Vec<String>, name: &str) -> (r: bool)
    ensures
        r == skipped(skip@, name@),
{
    let mut i: usize = 0;
    while i < skip.len()
        invariant
            i <= skip@.len(),
            forall|k: int| 0 <= k < i ==> #[trigger] skip@[k]@ != name@,
        decreases skip@.len() - i,
    {
        if str_eq(skip[i].as_str(), name) {
            return true;
        }
        i = i + 1;
    }
    false
}

/// Walks a rule's actions; `Some(k)` for the action it ends on.
fn find_terminal(actions: &Vec<Action>) -> (r: Option<usize>)
    ensures
        match terminal_action(actions@) {
            Some(k) => r == Some(k as usize),
            None => r is None,
        },
        r matches Some(t) ==> t < actions@.len() && !(actions@[t as int] is Log) && !(actions@[t as int] is Continue)
            && terminal_action(actions@) == Some(t as int),
{
    let mut k: usize = 0;
    while k < actions.len()
        invariant
            k <= actions@.len(),
            first_non_log(actions@, 0) == first_non_log(actions@, k as int),
        decreases actions@.len() - k,
    {
        match &actions[k] {
            Action::Log { .. } => {},
            Action::Continue => return None,
            _ => return Some(k),
        }
        k = k + 1;
    }
    None
}

/// The decision of the action a rule ends on.
fn decide_action(rule: &RuntimeRule, k: usize, default_upstream: &String, qname: &str) -> (d: Decision)
    requires
        k < rule.actions@.len(),
        !(rule.actions@[k as int] is Log),
        !(rule.actions@[k as int] is Continue),
    ensures
        action_decision(d, *rule, rule.actions@[k as int], default_upstream@, qname@),
{
    match &rule.actions[k] {
        Action::StaticResponse { rcode } => {
            let code = match parse_rcode(rcode.as_str()) {
                Some(c) => c,
                None => RCODE_NXDOMAIN,
            };
            Decision::Static { rcode: code, answers: Vec::new() }
        },
        Action::StaticIpResponse { ip } => {
            let (rcode, answers) = make_static_ip_answer(qname, ip.as_str());
            Decision::Static { rcode, answers }
        },
        Action::JumpToPipeline { pipeline } => Decision::Jump { pipeline: pipeline.clone() },
        Action::Allow => Decision::Forward {
            upstream: default_upstream.clone(),
            response_matchers: Vec::new(),
            response_matcher_operator: MatchOperator::And,
            response_actions_on_match: Vec::new(),
            response_actions_on_miss: Vec::new(),
            rule_name: rule.name.clone(),
            transport: Transport::Udp,
            continue_on_match: false,
            continue_on_miss: false,
            allow_reuse: true,
        },
        Action::Deny => Decision::Static { rcode: RCODE_REFUSED, answers: Vec::new() },
        Action::Forward { upstream, transport } => Decision::Forward {
            upstream: match upstream {
                Some(u) => u.clone(),
                None => default_upstream.clone(),
            },
            response_matchers: copy_response_matchers(&rule.response_matchers),
            response_matcher_operator: rule.response_matcher_operator,
            response_actions_on_match: clone_actions(&rule.response_actions_on_match),
            response_actions_on_miss: clone_actions(&rule.response_actions_on_miss),
            rule_name: rule.name.clone(),
            transport: match transport {
                Some(t) => *t,
                None => Transport::Udp,
            },
            continue_on_match: crate::config::contains_continue(&rule.response_actions_on_match),
            continue_on_miss: crate::config::contains_continue(&rule.response_actions_on_miss),
            allow_reuse: false,
        },
        _ => vstd::pervasive::unreached(),
    }
}

/// The default forward, when no rule ends the walk.
pub fn default_forward(default_upstream: &String) -> (d: Decision)
    ensures
        is_default_forward(d, default_upstream@),
{
    Decision::Forward {
        upstream: default_upstream.clone(),
        response_matchers: Vec::new(),
        response_matcher_operator: MatchOperator::And,
        response_actions_on_match: Vec::new(),
        response_actions_on_miss: Vec::new(),
        rule_name: String::from_str("default"),
        transport: Transport::Udp,
        continue_on_match: false,
        continue_on_miss: false,
        allow_reuse: false,
    }
}

/// Rule `i` is the first candidate, in declaration order, that ends the walk.
pub open spec fn first_firing(
    p: RuntimePipeline,
    c: CompiledPipeline,
    skip: Seq<String>,
    i: int,
    qname: Seq<char>,
    qtype: u16,
    qclass: u16,
    client_ip: IpAddress,
    edns_present: bool,
) -> bool {
    &&& 0 <= i <= usize::MAX
    &&& is_candidate(c.index, qname, qtype, i as usize)
    &&& fires(p, skip, i, qname, qclass, client_ip, edns_present)
    &&& forall|j: int|
        0 <= j < i && #[trigger] is_candidate(c.index, qname, qtype, j as usize) ==> !fires(
            p,
            skip,
            j,
            qname,
            qclass,
            client_ip,
            edns_present,
        )
}

/// A `Log` action met during the rule walk.
#[derive(Clone, Debug)]
pub struct LogEvent {
    pub rule: String,
    pub level: Option<String>,
}

pub open spec fn events_view(v: Seq<LogEvent>) -> Seq<(Seq<char>, Option<String>)> {
    Seq::new(v.len(), |i: int| (v[i].rule@, v[i].level))
}

/// Levels of the `Log` actions from `k` up to the first other action.
pub open spec fn leading_logs(actions: Seq<Action>, k: int) -> Seq<Option<String>>
    decreases actions.len() - k,
{
    if k < 0 || k >= actions.len() {
        Seq::empty()
    } else {
        match actions[k] {
            Action::Log { level } => seq![level] + leading_logs(actions, k + 1),
            _ => Seq::empty(),
        }
    }
}

/// The log events of rule `j` when the walk reaches it: its leading `Log`
/// actions if it matches and is not skipped.
pub open spec fn rule_events(
    p: RuntimePipeline,
    skip: Seq<String>,
    j: int,
    qname: Seq<char>,
    qclass: u16,
    client_ip: IpAddress,
    edns_present: bool,
) -> Seq<(Seq<char>, Option<String>)> {
    if 0 <= j < p.rules@.len() && !skipped(skip, p.rules@[j].name@) && chain_value(
        request_items(p.rules@[j].matchers@, qname, qclass, client_ip, edns_present),
    ) {
        let ls = leading_logs(p.rules@[j].actions@, 0);
        Seq::new(ls.len(), |i: int| (p.rules@[j].name@, ls[i]))
    } else {
        Seq::empty()
    }
}

/// Log events of the candidates below `n`, in declaration order.
pub open spec fn logs_upto(
    p: RuntimePipeline,
    c: CompiledPipeline,
    skip: Seq<String>,
    n: int,
    qname: Seq<char>,
    qtype: u16,
    qclass: u16,
    client_ip: IpAddress,
    edns_present: bool,
) -> Seq<(Seq<char>, Option<String>)>
    decreases n,
{
    if n <= 0 {
        Seq::empty()
    } else {
        logs_upto(p, c, skip, n - 1, qname, qtype, qclass, client_ip, edns_present) + if n - 1 <= usize::MAX
            && is_candidate(c.index, qname, qtype, (n - 1) as usize) {
            rule_events(p, skip, n - 1, qname, qclass, client_ip, edns_present)
        } else {
            Seq::empty()
        }
    }
}

/// Rules in `[a, b)` without events leave the log unchanged.
proof fn lemma_logs_gap(
    p: RuntimePipeline,
    c: CompiledPipeline,
    skip: Seq<String>,
    a: int,
    b: int,
    qname: Seq<char>,
    qtype: u16,
    qclass: u16,
    client_ip: IpAddress,
    edns_present: bool,
)
    requires
        0 <= a <= b,
        forall|j: int|
            a <= j < b && j <= usize::MAX && is_candidate(c.index, qname, qtype, j as usize) ==> rule_events(
                p,
                skip,
                j,
                qname,
                qclass,
                client_ip,
                edns_present,
            ) == Seq::<(Seq<char>, Option<String>)>::empty(),
    ensures
        logs_upto(p, c, skip, b, qname, qtype, qclass, client_ip, edns_present) == logs_upto(
            p,
            c,
            skip,
            a,
            qname,
            qtype,
            qclass,
            client_ip,
            edns_present,
        ),
    decreases b - a,
{
    if a < b {
        lemma_logs_gap(p, c, skip, a, b - 1, qname, qtype, qclass, client_ip, edns_present);
        let prev = logs_upto(p, c, skip, b - 1, qname, qtype, qclass, client_ip, edns_present);
        if b - 1 <= usize::MAX && is_candidate(c.index, qname, qtype, (b - 1) as usize) {
            assert(prev + Seq::<(Seq<char>, Option<String>)>::empty() == prev);
        } else {
            assert(prev + Seq::<(Seq<char>, Option<String>)>::empty() == prev);
        }
    }
}

/// Appends the leading `Log` actions of a rule.
fn push_leading_logs(logs: Vec<LogEvent>, rule: &RuntimeRule) -> (r: Vec<LogEvent>)
    ensures
        events_view(r@) == events_view(logs@) + {
            let ls = leading_logs(rule.actions@, 0);
            Seq::new(ls.len(), |i: int| (rule.name@, ls[i]))
        },
{
    let ghost start = events_view(logs@);
    let ghost ls = leading_logs(rule.actions@, 0);
    let mut out = logs;
    let mut k: usize = 0;
    loop
        invariant
            k <= rule.actions@.len(),
            k <= ls.len(),
            ls == leading_logs(rule.actions@, 0),
            ls.subrange(k as int, ls.len() as int) == leading_logs(rule.actions@, k as int),
            events_view(out@) == start + Seq::new(k as nat, |i: int| (rule.name@, ls[i])),
        ensures
            k == ls.len(),
            events_view(out@) == start + Seq::new(k as nat, |i: int| (rule.name@, ls[i])),
        decreases rule.actions@.len() - k,
    {
        if k >= rule.actions.len() {
            assert(ls.subrange(k as int, ls.len() as int).len() == 0);
            break;
        }
        match &rule.actions[k] {
            Action::Log { level } => {
                let lv = match level {
                    Some(l) => Some(l.clone()),
                    None => None,
                };
                assert(leading_logs(rule.actions@, k as int) == seq![*level] + leading_logs(rule.actions@, k + 1));
                assert(ls[k as int] == ls.subrange(k as int, ls.len() as int)[0]);
                assert(ls.subrange(k + 1, ls.len() as int) == ls.subrange(k as int, ls.len() as int).subrange(1, ls.len() - k));
                let ghost before = events_view(out@);
                out.push(LogEvent { rule: rule.name.clone(), level: lv });
                assert(events_view(out@) == before.push((rule.name@, ls[k as int])));
                assert(start + Seq::new((k + 1) as nat, |i: int| (rule.name@, ls[i])) == (start + Seq::new(k as nat, |i: int| (rule.name@, ls[i]))).push((rule.name@, ls[k as int])));
                k = k + 1;
            },
            _ => {
                assert(ls.subrange(k as int, ls.len() as int).len() == 0);
                break;
            },
        }
    }
    out
}

/// The rule walk of `apply_rules`, also reporting the `Log` actions met on
/// the way: those that lead the actions of each matching, unskipped
/// candidate up to and including the deciding rule, in declaration order.
pub fn apply_rules_logged(
    cfg: &RuntimePipelineConfig,
    pipeline: &RuntimePipeline,
    compiled: &CompiledPipeline,
    client_ip: IpAddress,
    qname: &str,
    qtype: u16,
    qclass: u16,
    edns_present: bool,
    skip_rules: &Vec<String>,
) -> (r: (Decision, Vec<LogEvent>))
    ensures
        ({
            let d = r.0;
            (exists|i: int|
            first_firing(*pipeline, *compiled, skip_rules@, i, qname@, qtype, qclass, client_ip, edns_present)
                && events_view(r.1@) == logs_upto(*pipeline, *compiled, skip_rules@, i + 1, qname@, qtype, qclass, client_ip, edns_present)
                && action_decision(
                d,
                pipeline.rules@[i],
                pipeline.rules@[i].actions@[terminal_action(pipeline.rules@[i].actions@).unwrap()],
                cfg.settings.default_upstream@,
                qname@,
            )) || ((forall|i: int|
            0 <= i <= usize::MAX && #[trigger] is_candidate(compiled.index, qname@, qtype, i as usize) ==> !fires(
                *pipeline,
                skip_rules@,
                i,
                qname@,
                qclass,
                client_ip,
                edns_present,
            )) && events_view(r.1@) == logs_upto(*pipeline, *compiled, skip_rules@, pipeline.rules@.len() as int, qname@, qtype, qclass, client_ip, edns_present)
                && is_default_forward(d, cfg.settings.default_upstream@))
        }),
{
    let cands = compiled.index.get_candidates(qname, qtype);
    let ghost p = *pipeline;
    let ghost c = *compiled;
    let mut logs: Vec<LogEvent> = Vec::new();
    let ghost mut done: int = 0;
    let mut k: usize = 0;
    while k < cands.len()
        invariant
            k <= cands@.len(),
            k == 0 ==> done == 0,
            k > 0 ==> done == cands@[k - 1] + 1,
            0 <= done,
            events_view(logs@) == logs_upto(p, c, skip_rules@, done, qname@, qtype, qclass, client_ip, edns_present),
            p == *pipeline,
            c == *compiled,
            strictly_sorted(cands@),
            forall|x: usize| #[trigger] member(cands@, x) <==> is_candidate(compiled.index, qname@, qtype, x),
            forall|m: int| 0 <= m < k ==> !fires(p, skip_rules@, #[trigger] cands@[m] as int, qname@, qclass, client_ip, edns_present),
        decreases cands@.len() - k,
    {
        let idx = cands[k];
        proof {
            if k > 0 {
                assert(cands@[k - 1] < cands@[k as int]);
            }
            assert forall|j: int| done <= j < idx && j <= usize::MAX && is_candidate(c.index, qname@, qtype, j as usize) implies rule_events(
                p,
                skip_rules@,
                j,
                qname@,
                qclass,
                client_ip,
                edns_present,
            ) == Seq::<(Seq<char>, Option<String>)>::empty() by {
                assert(member(cands@, j as usize));
                reveal(member);
                let m = choose|m: int| 0 <= m < cands@.len() && cands@[m] == j as usize;
                if m < k {
                    if m < k - 1 {
                        assert(cands@[m] < cands@[k - 1]);
                    }
                } else if m > k {
                    assert(cands@[k as int] < cands@[m]);
                }
            }
            lemma_logs_gap(p, c, skip_rules@, done, idx as int, qname@, qtype, qclass, client_ip, edns_present);
        }
        let ghost before = logs@;
        let matched = idx < pipeline.rules.len() && !is_skipped(skip_rules, pipeline.rules[idx].name.as_str())
            && eval_request_chain(&pipeline.rules[idx].matchers, qname, qclass, client_ip, edns_present);
        if matched {
            logs = push_leading_logs(logs, &pipeline.rules[idx]);
        }
        proof {
            assert(member(cands@, idx)) by {
                reveal(member);
                assert(cands@[k as int] == idx);
            }
            assert(events_view(logs@) == logs_upto(p, c, skip_rules@, idx + 1, qname@, qtype, qclass, client_ip, edns_present));
            done = idx + 1;
        }
        if idx < pipeline.rules.len() {
            let rule = &pipeline.rules[idx];
            if !is_skipped(skip_rules, rule.name.as_str()) && eval_request_chain(
                &rule.matchers,
                qname,
                qclass,
                client_ip,
                edns_present,
            ) {
                match find_terminal(&rule.actions) {
                    Some(t) => {
                        let d = decide_action(rule, t, &cfg.settings.default_upstream, qname);
                        proof {
                            assert(member(cands@, idx)) by {
                                reveal(member);
                                assert(cands@[k as int] == idx);
                            }
                            assert forall|j: int|
                                0 <= j < idx && #[trigger] is_candidate(compiled.index, qname@, qtype, j as usize) implies !fires(
                                p,
                                skip_rules@,
                                j,
                                qname@,
                                qclass,
                                client_ip,
                                edns_present,
                            ) by {
                                assert(member(cands@, j as usize));
                                reveal(member);
                                let m = choose|m: int| 0 <= m < cands@.len() && cands@[m] == j as usize;
                                if m >= k {
                                    if m > k {
                                        assert(cands@[k as int] < cands@[m]);
                                    }
                                }
                                assert(m < k);
                                assert(!fires(p, skip_rules@, cands@[m] as int, qname@, qclass, client_ip, edns_present));
                            }
                            assert(first_firing(p, c, skip_rules@, idx as int, qname@, qtype, qclass, client_ip, edns_present));
                            assert(terminal_action(pipeline.rules@[idx as int].actions@).unwrap() == t as int);
                            assert(action_decision(
                                d,
                                pipeline.rules@[idx as int],
                                pipeline.rules@[idx as int].actions@[terminal_action(pipeline.rules@[idx as int].actions@).unwrap()],
                                cfg.settings.default_upstream@,
                                qname@,
                            ));
                        }
                        return (d, logs);
                    },
                    None => {},
                }
            }
        }
        k = k + 1;
    }
    proof {
        let len = pipeline.rules@.len() as int;
        if done <= len {
            assert forall|j: int| done <= j < len && j <= usize::MAX && is_candidate(c.index, qname@, qtype, j as usize) implies rule_events(
                p,
                skip_rules@,
                j,
                qname@,
                qclass,
                client_ip,
                edns_present,
            ) == Seq::<(Seq<char>, Option<String>)>::empty() by {
                assert(member(cands@, j as usize));
                reveal(member);
                let m = choose|m: int| 0 <= m < cands@.len() && cands@[m] == j as usize;
                if m < cands@.len() - 1 {
                    assert(cands@[m] < cands@[cands@.len() - 1]);
                }
            }
            lemma_logs_gap(p, c, skip_rules@, done, len, qname@, qtype, qclass, client_ip, edns_present);
        } else {
            lemma_logs_gap(p, c, skip_rules@, len, done, qname@, qtype, qclass, client_ip, edns_present);
        }
        assert forall|i: int|
            0 <= i <= usize::MAX && #[trigger] is_candidate(compiled.index, qname@, qtype, i as usize) implies !fires(
            p,
            skip_rules@,
            i,
            qname@,
            qclass,
            client_ip,
            edns_present,
        ) by {
            assert(member(cands@, i as usize));
            reveal(member);
            let m = choose|m: int| 0 <= m < cands@.len() && cands@[m] == i as usize;
            assert(!fires(p, skip_rules@, cands@[m] as int, qname@, qclass, client_ip, edns_present));
        }
    }
    (default_forward(&cfg.settings.default_upstream), logs)
}

/// `d` is what the rule walk decides on one pipeline: the decision of the
/// first firing candidate, or the default forward when none fires.
pub open spec fn walk_decides(
    default_upstream: Seq<char>,
    p: RuntimePipeline,
    c: CompiledPipeline,
    skip: Seq<String>,
    qname: Seq<char>,
    qtype: u16,
    qclass: u16,
    client_ip: IpAddress,
    edns_present: bool,
    d: Decision,
) -> bool {
    (exists|i: int|
        first_firing(p, c, skip, i, qname, qtype, qclass, client_ip, edns_present) && action_decision(
            d,
            p.rules@[i],
            p.rules@[i].actions@[terminal_action(p.rules@[i].actions@).unwrap()],
            default_upstream,
            qname,
        )) || ((forall|i: int|
        0 <= i <= usize::MAX && #[trigger] is_candidate(c.index, qname, qtype, i as usize) ==> !fires(
            p,
            skip,
            i,
            qname,
            qclass,
            client_ip,
            edns_present,
        )) && is_default_forward(d, default_upstream))
}

/// Runs the request phase on one pipeline: the first candidate rule, in
/// declaration order, that matches and is not skipped decides through the
/// action it ends on; without one the request goes to the default upstream.
pub fn apply_rules(
    cfg: &RuntimePipelineConfig,
    pipeline: &RuntimePipeline,
    compiled: &CompiledPipeline,
    client_ip: IpAddress,
    qname: &str,
    qtype: u16,
    qclass: u16,
    edns_present: bool,
    skip_rules: &Vec<String>,
) -> (d: Decision)
    ensures
        walk_decides(
            cfg.settings.default_upstream@,
            *pipeline,
            *compiled,
            skip_rules@,
            qname@,
            qtype,
            qclass,
            client_ip,
            edns_present,
            d,
        ),
{
    let (d, _logs) = apply_rules_logged(
        cfg,
        pipeline,
        compiled,
        client_ip,
        qname,
        qtype,
        qclass,
        edns_present,
        skip_rules,
    );
    d
}

/// Position of the first pipeline with the id.
pub open spec fn pipeline_pos(ps: Seq<RuntimePipeline>, id: Seq<char>) -> Option<int> {
    if exists|i: int| 0 <= i < ps.len() && #[trigger] ps[i].id@ == id {
        Some(choose|i: int| 0 <= i < ps.len() && #[trigger] ps[i].id@ == id && forall|j: int| 0 <= j < i ==> ps[j].id@ != id)
    } else {
        None
    }
}

/// Finds the first pipeline with the id.
pub fn find_pipeline(cfg: &RuntimePipelineConfig, id: &str) -> (r: Option<usize>)
    ensures
        match r {
            Some(i) => i < cfg.pipelines@.len() && cfg.pipelines@[i as int].id@ == id@ && forall|j: int|
                0 <= j < i ==> cfg.pipelines@[j].id@ != id@,
            None => forall|j: int| 0 <= j < cfg.pipelines@.len() ==> #[trigger] cfg.pipelines@[j].id@ != id@,
        },
{
    let mut i: usize = 0;
    while i < cfg.pipelines.len()
        invariant
            i <= cfg.pipelines@.len(),
            forall|j: int| 0 <= j < i ==> #[trigger] cfg.pipelines@[j].id@ != id@,
        decreases cfg.pipelines@.len() - i,
    {
        if str_eq(cfg.pipelines[i].id.as_str(), id) {
            return Some(i);
        }
        i = i + 1;
    }
    None
}

/// Selector rule `k` matches the request and names an existing pipeline.
pub open spec fn selector_fires(
    cfg: RuntimePipelineConfig,
    k: int,
    label: Seq<char>,
    client_ip: IpAddress,
    qname: Seq<char>,
    qclass: u16,
    edns_present: bool,
) -> bool {
    &&& chain_value(selector_items(cfg.pipeline_select@[k].matchers@, label, client_ip, qname, qclass, edns_present))
    &&& exists|j: int| 0 <= j < cfg.pipelines@.len() && #[trigger] cfg.pipelines@[j].id@ == cfg.pipeline_select@[k].pipeline@
}

/// Chooses the pipeline of a request: the first selector rule that matches
/// and names an existing pipeline wins; otherwise the first pipeline, or the
/// id `default` when there is none.
pub fn select_pipeline(
    cfg: &RuntimePipelineConfig,
    qname: &str,
    client_ip: IpAddress,
    qclass: u16,
    edns_present: bool,
    listener_label: &str,
) -> (r: (Option<usize>, String))
    ensures
        match r.0 {
            Some(i) => i < cfg.pipelines@.len() && r.1@ == cfg.pipelines@[i as int].id@,
            None => cfg.pipelines@.len() == 0 && r.1@ == "default"@,
        },
        (exists|k: int|
            0 <= k < cfg.pipeline_select@.len() && selector_fires(*cfg, k, listener_label@, client_ip, qname@, qclass, edns_present)
                && (forall|m: int|
                0 <= m < k ==> !selector_fires(*cfg, m, listener_label@, client_ip, qname@, qclass, edns_present))
                && r.1@ == cfg.pipeline_select@[k].pipeline@) || ((forall|m: int|
            0 <= m < cfg.pipeline_select@.len() ==> !selector_fires(
                *cfg,
                m,
                listener_label@,
                client_ip,
                qname@,
                qclass,
                edns_present,
            )) && (cfg.pipelines@.len() > 0 ==> r.0 == Some(0usize))),
{
    let mut k: usize = 0;
    while k < cfg.pipeline_select.len()
        invariant
            k <= cfg.pipeline_select@.len(),
            forall|m: int|
                0 <= m < k ==> !selector_fires(*cfg, m, listener_label@, client_ip, qname@, qclass, edns_present),
        decreases cfg.pipeline_select@.len() - k,
    {
        let rule = &cfg.pipeline_select[k];
        if eval_selector_chain(&rule.matchers, listener_label, client_ip, qname, qclass, edns_present) {
            match find_pipeline(cfg, rule.pipeline.as_str()) {
                Some(i) => {
                    let id = cfg.pipelines[i].id.clone();
                    proof {
                        assert(cfg.pipelines@[i as int].id@ == cfg.pipeline_select@[k as int].pipeline@);
                        assert(selector_fires(*cfg, k as int, listener_label@, client_ip, qname@, qclass, edns_present));
                    }
                    return (Some(i), id);
                },
                None => {},
            }
        }
        k = k + 1;
    }
    if cfg.pipelines.len() > 0 {
        (Some(0), cfg.pipelines[0].id.clone())
    } else {
        (None, String::from_str("default"))
    }
}

/// End of request-phase jump resolution.
pub struct Resolved {
    pub decision: Decision,
    /// Pipeline the decision was made in, when one was found.
    pub pipeline: Option<usize>,
    /// Number of pipeline transitions taken.
    pub jumps: u32,
}

/// SERVFAIL without answers.
pub open spec fn is_servfail(d: Decision) -> bool {
    d matches Decision::Static { rcode, answers } && rcode == RCODE_SERVFAIL && answers@.len() == 0
}

/// Pipeline `i` is the first one with the id.
pub open spec fn first_pos(cfg: RuntimePipelineConfig, i: int, id: Seq<char>) -> bool {
    0 <= i < cfg.pipelines@.len() && cfg.pipelines@[i].id@ == id && forall|j: int|
        0 <= j < i ==> cfg.pipelines@[j].id@ != id
}

/// `out` is where `decision` leads with `limit` transitions left: a jump
/// with no transition left, or to an id no pipeline has, is SERVFAIL; any
/// other jump re-runs the rule walk in the target with an empty skip list
/// and follows on; a decision that is not a jump is final.
pub open spec fn resolves_to(
    cfg: RuntimePipelineConfig,
    compiled: Seq<CompiledPipeline>,
    decision: Decision,
    qname: Seq<char>,
    qtype: u16,
    qclass: u16,
    client_ip: IpAddress,
    edns_present: bool,
    limit: nat,
    out: Decision,
) -> bool
    decreases limit,
{
    match decision {
        Decision::Jump { pipeline } => if limit == 0 {
            is_servfail(out)
        } else if exists|i: int| first_pos(cfg, i, pipeline@) {
            exists|i: int, d2: Decision|
                first_pos(cfg, i, pipeline@) && walk_decides(
                    cfg.settings.default_upstream@,
                    cfg.pipelines@[i],
                    compiled[i],
                    Seq::empty(),
                    qname,
                    qtype,
                    qclass,
                    client_ip,
                    edns_present,
                    d2,
                ) && resolves_to(cfg, compiled, d2, qname, qtype, qclass, client_ip, edns_present, (limit - 1) as nat, out)
        } else {
            is_servfail(out)
        },
        _ => out == decision,
    }
}

/// Follows `Jump` decisions: each jump re-runs the rule walk in the target
/// pipeline with an empty skip list. More than `limit` jumps, or a target
/// that does not exist, end in SERVFAIL.
pub fn resolve_jumps(
    cfg: &RuntimePipelineConfig,
    compiled: &Vec<CompiledPipeline>,
    start: Option<usize>,
    decision: Decision,
    client_ip: IpAddress,
    qname: &str,
    qtype: u16,
    qclass: u16,
    edns_present: bool,
    limit: u32,
) -> (r: Resolved)
    requires
        compiled@.len() == cfg.pipelines@.len(),
        start matches Some(s) ==> s < cfg.pipelines@.len(),
    ensures
        resolves_to(*cfg, compiled@, decision, qname@, qtype, qclass, client_ip, edns_present, limit as nat, r.decision),
        r.jumps <= limit,
        !(r.decision is Jump),
        r.pipeline matches Some(p) ==> p < cfg.pipelines@.len(),
        !(decision is Jump) ==> r.jumps == 0 && r.pipeline == start,
{
    let ghost d0 = decision;
    let mut current = start;
    let mut d = decision;
    let mut jumps: u32 = 0;
    let empty: Vec<String> = Vec::new();
    loop
        invariant
            compiled@.len() == cfg.pipelines@.len(),
            current matches Some(s) ==> s < cfg.pipelines@.len(),
            jumps <= limit,
            d0 == decision,
            empty@.len() == 0,
            !(decision is Jump) ==> jumps == 0 && current == start && d == decision,
            forall|out: Decision|
                resolves_to(*cfg, compiled@, d, qname@, qtype, qclass, client_ip, edns_present, (limit - jumps) as nat, out)
                    ==> #[trigger] resolves_to(*cfg, compiled@, d0, qname@, qtype, qclass, client_ip, edns_present, limit as nat, out),
        decreases limit - jumps,
    {
        let target = match &d {
            Decision::Jump { pipeline } => pipeline.clone(),
            _ => {
                return Resolved { decision: d, pipeline: current, jumps };
            },
        };
        if jumps >= limit {
            let out = Decision::Static { rcode: RCODE_SERVFAIL, answers: Vec::new() };
            assert(resolves_to(*cfg, compiled@, d, qname@, qtype, qclass, client_ip, edns_present, (limit - jumps) as nat, out));
            return Resolved { decision: out, pipeline: current, jumps };
        }
        let ghost left = (limit - jumps) as nat;
        let ghost old_d = d;
        jumps = jumps + 1;
        match find_pipeline(cfg, target.as_str()) {
            Some(i) => {
                current = Some(i);
                d = apply_rules(
                    cfg,
                    &cfg.pipelines[i],
                    &compiled[i],
                    client_ip,
                    qname,
                    qtype,
                    qclass,
                    edns_present,
                    &empty,
                );
                proof {
                    assert(empty@ == Seq::<String>::empty());
                    assert(first_pos(*cfg, i as int, target@));
                    assert forall|out: Decision|
                        resolves_to(*cfg, compiled@, d, qname@, qtype, qclass, client_ip, edns_present, (limit - jumps) as nat, out)
                            implies #[trigger] resolves_to(*cfg, compiled@, d0, qname@, qtype, qclass, client_ip, edns_present, limit as nat, out) by {
                        assert((left - 1) as nat == (limit - jumps) as nat);
                        assert(resolves_to(*cfg, compiled@, old_d, qname@, qtype, qclass, client_ip, edns_present, left, out));
                    }
                }
            },
            None => {
                let out = Decision::Static { rcode: RCODE_SERVFAIL, answers: Vec::new() };
                assert(resolves_to(*cfg, compiled@, old_d, qname@, qtype, qclass, client_ip, edns_present, left, out));
                return Resolved { decision: out, pipeline: current, jumps };
            },
        }
    }
}

/// Longest chain of `Forward` actions one response-action list may run.
pub const MAX_RESPONSE_FORWARDS: u32 = 4;

/// What the response phase does next.
#[derive(Debug)]
pub enum ResponseStep {
    /// Emit a log line, then go on at `next`.
    Log { level: Option<String>, next: usize },
    /// Answer with a synthesised response.
    Static { rcode: u16, answers: Vec<StaticAnswer> },
    /// Re-run the request phase in another pipeline.
    Jump { pipeline: String, remaining_jumps: u32 },
    /// Return the current upstream response, re-evaluating the matchers.
    Upstream,
    /// Leave the rule; the next rule may reuse the current response.
    Continue,
    /// Ask `upstream`, replace the current response, then go on at `next`.
    Forward { upstream: String, transport: Transport, next: usize, attempts: u32 },
}

/// The step the response phase takes at position `pos` of an action list.
pub open spec fn step_matches(
    r: ResponseStep,
    actions: Seq<Action>,
    pos: int,
    ctx_upstream: Option<Seq<char>>,
    default_upstream: Seq<char>,
    qname: Seq<char>,
    forward_attempts: u32,
    remaining_jumps: u32,
) -> bool {
    let servfail = r matches ResponseStep::Static { rcode, answers } && rcode == RCODE_SERVFAIL && answers@.len() == 0;
    if pos >= actions.len() {
        if ctx_upstream is Some {
            r is Upstream
        } else {
            servfail
        }
    } else {
        match actions[pos] {
            Action::Log { level } => r matches ResponseStep::Log { level: l, next } && l == level && next == pos + 1,
            Action::StaticResponse { rcode } => r matches ResponseStep::Static { rcode: c, answers } && c == (match rcode_code(
                ascii_upper(rcode@),
            ) {
                Some(x) => x,
                None => RCODE_NXDOMAIN,
            }) && answers@.len() == 0,
            Action::StaticIpResponse { ip } => r matches ResponseStep::Static { rcode: c, answers } && (c, answers_view(
                answers@,
            )) == static_ip_spec(qname, ip@),
            Action::JumpToPipeline { pipeline } => if remaining_jumps == 0 {
                servfail
            } else {
                r matches ResponseStep::Jump { pipeline: p, remaining_jumps: left } && p@ == pipeline@ && left
                    == remaining_jumps - 1
            },
            Action::Allow => if ctx_upstream is Some {
                r is Upstream
            } else {
                servfail
            },
            Action::Deny => r matches ResponseStep::Static { rcode, answers } && rcode == RCODE_REFUSED && answers@.len() == 0,
            Action::Continue => r is Continue,
            Action::Forward { upstream, transport } => if forward_attempts >= MAX_RESPONSE_FORWARDS {
                servfail
            } else {
                r matches ResponseStep::Forward { upstream: u, transport: t, next, attempts } && u@ == (match upstream {
                    Some(x) => x@,
                    None => match ctx_upstream {
                        Some(c) => c,
                        None => default_upstream,
                    },
                }) && t == (match transport {
                    Some(x) => x,
                    None => Transport::Udp,
                }) && next == pos + 1 && attempts == forward_attempts + 1
            },
        }
    }
}

/// One step of the response-action executor. `ctx_upstream` is the upstream
/// of the current response, when there is one.
pub fn next_response_step(
    actions: &Vec<Action>,
    pos: usize,
    ctx_upstream: &Option<String>,
    default_upstream: &String,
    qname: &str,
    forward_attempts: u32,
    remaining_jumps: u32,
) -> (r: ResponseStep)
    ensures
        step_matches(
            r,
            actions@,
            pos as int,
            match ctx_upstream {
                Some(c) => Some(c@),
                None => None,
            },
            default_upstream@,
            qname@,
            forward_attempts,
            remaining_jumps,
        ),
        r matches ResponseStep::Forward { attempts, .. } ==> attempts <= MAX_RESPONSE_FORWARDS,
{
    if pos >= actions.len() {
        return match ctx_upstream {
            Some(_) => ResponseStep::Upstream,
            None => ResponseStep::Static { rcode: RCODE_SERVFAIL, answers: Vec::new() },
        };
    }
    match &actions[pos] {
        Action::Log { level } => ResponseStep::Log {
            level: match level {
                Some(l) => Some(l.clone()),
                None => None,
            },
            next: pos + 1,
        },
        Action::StaticResponse { rcode } => {
            let code = match parse_rcode(rcode.as_str()) {
                Some(c) => c,
                None => RCODE_NXDOMAIN,
            };
            ResponseStep::Static { rcode: code, answers: Vec::new() }
        },
        Action::StaticIpResponse { ip } => {
            let (rcode, answers) = make_static_ip_answer(qname, ip.as_str());
            ResponseStep::Static { rcode, answers }
        },
        Action::JumpToPipeline { pipeline } => {
            if remaining_jumps == 0 {
                ResponseStep::Static { rcode: RCODE_SERVFAIL, answers: Vec::new() }
            } else {
                ResponseStep::Jump { pipeline: pipeline.clone(), remaining_jumps: remaining_jumps - 1 }
            }
        },
        Action::Allow => match ctx_upstream {
            Some(_) => ResponseStep::Upstream,
            None => ResponseStep::Static { rcode: RCODE_SERVFAIL, answers: Vec::new() },
        },
        Action::Deny => ResponseStep::Static { rcode: RCODE_REFUSED, answers: Vec::new() },
        Action::Continue => ResponseStep::Continue,
        Action::Forward { upstream, transport } => {
            if forward_attempts >= MAX_RESPONSE_FORWARDS {
                ResponseStep::Static { rcode: RCODE_SERVFAIL, answers: Vec::new() }
            } else {
                let target = match upstream {
                    Some(u) => u.clone(),
                    None => match ctx_upstream {
                        Some(c) => c.clone(),
                        None => default_upstream.clone(),
                    },
                };
                ResponseStep::Forward {
                    upstream: target,
                    transport: match transport {
                        Some(t) => *t,
                        None => Transport::Udp,
                    },
                    next: pos + 1,
                    attempts: forward_attempts + 1,
                }
            }
        },
    }
}

/// Number of `Forward` actions in the first `n` actions of a list.
pub open spec fn forwards_before(actions: Seq<Action>, n: int) -> nat
    decreases n,
{
    if n <= 0 || actions.len() == 0 {
        0
    } else if n > actions.len() {
        forwards_before(actions, actions.len() as int)
    } else {
        forwards_before(actions, n - 1) + if actions[n - 1] is Forward { 1nat } else { 0nat }
    }
}

/// Within one action list, walking from the start and counting each
/// `Forward` step, a `Forward` is taken only while fewer than four have been
/// taken; the fifth yields SERVFAIL.
pub proof fn lemma_forward_chain_bounded(
    actions: Seq<Action>,
    pos: int,
    ctx_upstream: Option<Seq<char>>,
    default_upstream: Seq<char>,
    qname: Seq<char>,
    remaining_jumps: u32,
    r: ResponseStep,
)
    requires
        0 <= pos < actions.len(),
        forwards_before(actions, pos) <= u32::MAX,
        step_matches(r, actions, pos, ctx_upstream, default_upstream, qname, forwards_before(actions, pos) as u32, remaining_jumps),
    ensures
        r is Forward ==> forwards_before(actions, pos + 1) <= MAX_RESPONSE_FORWARDS,
        actions[pos] is Forward && forwards_before(actions, pos) >= MAX_RESPONSE_FORWARDS ==> (r matches ResponseStep::Static { rcode, .. } && rcode == RCODE_SERVFAIL),
{
}

/// Response whose first two bytes are replaced by the transaction id.
pub open spec fn with_tx_id(b: Seq<u8>, tx_id: u16) -> Seq<u8> {
    if b.len() >= 2 {
        b.update(0, (tx_id / 256) as u8).update(1, (tx_id % 256) as u8)
    } else {
        b
    }
}

/// Copies a response and writes the requester's transaction id into its
/// first two bytes.
pub fn rewrite_tx_id(bytes: &Vec<u8>, tx_id: u16) -> (r: Vec<u8>)
    ensures
        r@ == with_tx_id(bytes@, tx_id),
{
    let mut out: Vec<u8> = Vec::new();
    let mut i: usize = 0;
    while i < bytes.len()
        invariant
            i <= bytes@.len(),
            out@ == bytes@.take(i as int),
        decreases bytes@.len() - i,
    {
        out.push(bytes[i]);
        assert(bytes@.take(i as int + 1) == bytes@.take(i as int).push(bytes@[i as int]));
        i = i + 1;
    }
    assert(bytes@.take(bytes@.len() as int) == bytes@);
    if out.len() >= 2 {
        out.set(0, (tx_id / 256) as u8);
        out.set(1, (tx_id % 256) as u8);
    }
    out
}

/// Two replies served from the same bytes differ at most in their first two
/// bytes, and each begins with its own transaction id.
pub proof fn lemma_replies_agree(b: Seq<u8>, t1: u16, t2: u16)
    requires
        b.len() >= 2,
    ensures
        with_tx_id(b, t1).len() == with_tx_id(b, t2).len(),
        forall|i: int| 2 <= i < b.len() ==> #[trigger] with_tx_id(b, t1)[i] == with_tx_id(b, t2)[i],
        with_tx_id(b, t1)[0] as int * 256 + with_tx_id(b, t1)[1] as int == t1 as int,
        with_tx_id(b, t2)[0] as int * 256 + with_tx_id(b, t2)[1] as int == t2 as int,
{
}

/// A cached response with the fields that guard against fingerprint
/// collisions.
#[derive(Clone, Debug)]
pub struct CacheEntry {
    pub bytes: Vec<u8>,
    pub rcode: u16,
    pub source: String,
    pub qname: String,
    pub pipeline_id: String,
    pub qtype: u16,
}

impl CacheEntry {
    /// The entry was stored for this pipeline, name and type.
    pub open spec fn valid_for(&self, pipeline_id: Seq<char>, qname: Seq<char>, qtype: u16) -> bool {
        self.pipeline_id@ == pipeline_id && self.qname@ == qname && self.qtype == qtype
    }

    /// Checks the secondary fields before an entry found under a fingerprint
    /// is used.
    pub fn usable_for(&self, pipeline_id: &str, qname: &str, qtype: u16) -> (r: bool)
        ensures
            r == self.valid_for(pipeline_id@, qname@, qtype),
    {
        self.qtype == qtype && str_eq(self.qname.as_str(), qname) && str_eq(self.pipeline_id.as_str(), pipeline_id)
    }

    /// The cached response for a new requester, when the entry is valid for
    /// the request.
    pub fn reply_for(&self, pipeline_id: &str, qname: &str, qtype: u16, tx_id: u16) -> (r: Option<Vec<u8>>)
        ensures
            r is Some <==> self.valid_for(pipeline_id@, qname@, qtype),
            r matches Some(b) ==> b@ == with_tx_id(self.bytes@, tx_id),
    {
        if self.usable_for(pipeline_id, qname, qtype) {
            Some(rewrite_tx_id(&self.bytes, tx_id))
        } else {
            None
        }
    }
}

/// A cache entry is used only when it was stored for the same pipeline, name
/// and type as the request.
pub proof fn lemma_cache_use_validated(e: CacheEntry, pipeline_id: Seq<char>, qname: Seq<char>, qtype: u16, tx_id: u16, r: Option<Vec<u8>>)
    requires
        r is Some <==> e.valid_for(pipeline_id, qname, qtype),
    ensures
        r is Some ==> e.pipeline_id@ == pipeline_id && e.qname@ == qname && e.qtype == qtype,
{
}

/// TTL under which a response is cached: the larger of its smallest answer
/// TTL and the configured floor; 0 means the response is not cached.
pub fn effective_ttl(answer_ttl: u64, min_ttl: u64) -> (r: u64)
    ensures
        r == if answer_ttl >= min_ttl { answer_ttl } else { min_ttl },
{
    if answer_ttl >= min_ttl {
        answer_ttl
    } else {
        min_ttl
    }
}

/// Which response actions run after an upstream reply: none when both lists
/// are empty, else the list for the matchers' verdict.
pub fn select_response_actions<'a>(matched: bool, on_match: &'a Vec<Action>, on_miss: &'a Vec<Action>) -> (r: &'a Vec<Action>)
    ensures
        r@ == if on_match@.len() == 0 && on_miss@.len() == 0 {
            Seq::<Action>::empty()
        } else if matched {
            on_match@
        } else {
            on_miss@
        },
{
    if matched {
        on_match
    } else {
        on_miss
    }
}

/// The fingerprint of `(pipeline id, lowercased name, type)` that keys the
/// response cache and request coalescing.
pub uninterp spec fn dedupe_fingerprint(pipeline_id: Seq<char>, qname: Seq<char>, qtype: u16) -> u64;

/// Relies on `rustc_hash::FxHasher` fed with the `Hash` of a `str`, a `str`
/// and a `u16`: a fixed, unseeded function of the three.
#[verifier::external_body]
fn fx_hash_key(pipeline_id: &str, qname: &str, qtype: u16) -> (r: u64)
    ensures
        r == dedupe_fingerprint(pipeline_id@, qname@, qtype),
{
    let mut h = rustc_hash::FxHasher::default();
    pipeline_id.hash(&mut h);
    qname.hash(&mut h);
    qtype.hash(&mut h);
    h.finish()
}

/// Fingerprint of a request for the response cache and coalescing.
pub fn calculate_cache_hash_for_dedupe(pipeline_id: &str, qname: &str, qtype: u16) -> (r: u64)
    ensures
        r == dedupe_fingerprint(pipeline_id@, ascii_lower(qname@), qtype),
{
    let lower = to_ascii_lower(qname);
    fx_hash_key(pipeline_id, lower.as_str(), qtype)
}

/// Fingerprint of a text, for re-checking rule-cache entries.
pub fn fast_hash_str(s: &str) -> (r: u64)
    ensures
        r == text_fingerprint(s@),
{
    fingerprint(s)
}

/// The fingerprint of `(pipeline id, name, client address)` that keys the
/// rule-decision cache.
pub uninterp spec fn rule_fingerprint(pipeline_id: Seq<char>, qname: Seq<char>, family: u8, addr: u128) -> u64;

/// Relies on `rustc_hash::FxHasher` fed with the `Hash` of two `str`s, a
/// `u8` and a `u128`.
#[verifier::external_body]
fn fx_hash_rule_key(pipeline_id: &str, qname: &str, family: u8, addr: u128) -> (r: u64)
    ensures
        r == rule_fingerprint(pipeline_id@, qname@, family, addr),
{
    let mut h = rustc_hash::FxHasher::default();
    pipeline_id.hash(&mut h);
    qname.hash(&mut h);
    family.hash(&mut h);
    addr.hash(&mut h);
    h.finish()
}

pub open spec fn ip_family(ip: IpAddress) -> u8 {
    match ip {
        IpAddress::V4(_) => 4,
        IpAddress::V6(_) => 6,
    }
}

pub open spec fn ip_bits(ip: IpAddress) -> u128 {
    match ip {
        IpAddress::V4(v) => v as u128,
        IpAddress::V6(v) => v,
    }
}

/// Fingerprint of a request for the rule-decision cache.
pub fn calculate_rule_hash(pipeline_id: &str, qname: &str, client_ip: IpAddress) -> (r: u64)
    ensures
        r == rule_fingerprint(pipeline_id@, qname@, ip_family(client_ip), ip_bits(client_ip)),
{
    let (family, addr): (u8, u128) = match client_ip {
        IpAddress::V4(v) => (4, v as u128),
        IpAddress::V6(v) => (6, v),
    };
    fx_hash_rule_key(pipeline_id, qname, family, addr)
}

/// A cached request-phase decision with the fields that guard against
/// fingerprint collisions.
#[derive(Debug)]
pub struct RuleCacheEntry {
    pub pipeline_id: String,
    pub qname_hash: u64,
    pub client_ip: IpAddress,
    pub decision: Decision,
}

impl RuleCacheEntry {
    pub fn matches(&self, pipeline_id: &str, qname: &str, client_ip: IpAddress) -> (r: bool)
        ensures
            r == (self.client_ip == client_ip && self.pipeline_id@ == pipeline_id@ && self.qname_hash == text_fingerprint(
                qname@,
            )),
    {
        self.client_ip == client_ip && str_eq(self.pipeline_id.as_str(), pipeline_id) && self.qname_hash
            == fast_hash_str(qname)
    }
}

/// Whether a decision may be kept in the rule-decision cache: a forward
/// whose response actions can continue depends on later state.
pub fn decision_cacheable(d: &Decision) -> (r: bool)
    ensures
        r == !(*d matches Decision::Forward { continue_on_match, continue_on_miss, .. } && (continue_on_match
            || continue_on_miss)),
{
    match d {
        Decision::Forward { continue_on_match, continue_on_miss, .. } => !(*continue_on_match || *continue_on_miss),
        _ => true,
    }
}

/// Requests waiting on the same fingerprint: the first becomes the leader
/// and asks the upstream; the others wait for its bytes.
pub struct Inflight<W> {
    slots: HashMap<u64, Vec<W>>,
}

impl<W> Inflight<W> {
    pub closed spec fn view_keys(&self) -> Set<u64> {
        self.slots@.dom()
    }

    pub closed spec fn waiters(&self, h: u64) -> Seq<W> {
        self.slots@[h]@
    }

    pub fn new() -> (r: Inflight<W>)
        ensures
            r.view_keys() == Set::<u64>::empty(),
    {
        Inflight { slots: HashMap::new() }
    }

    /// Claims the slot of `h`: `true` (leader) when no request holds it.
    pub fn join(&mut self, h: u64) -> (leader: bool)
        ensures
            leader == !old(self).view_keys().contains(h),
            final(self).view_keys() == old(self).view_keys().insert(h),
            leader ==> final(self).waiters(h).len() == 0,
            !leader ==> final(self).waiters(h) == old(self).waiters(h),
            forall|k: u64| k != h && old(self).view_keys().contains(k) ==> final(self).waiters(k) == old(self).waiters(k),
    {
        if self.slots.contains_key(&h) {
            false
        } else {
            self.slots.insert(h, Vec::new());
            true
        }
    }

    /// Registers a follower's waiter on a held slot.
    pub fn add_waiter(&mut self, h: u64, w: W)
        requires
            old(self).view_keys().contains(h),
        ensures
            final(self).view_keys() == old(self).view_keys(),
            final(self).waiters(h) == old(self).waiters(h).push(w),
            forall|k: u64| k != h && old(self).view_keys().contains(k) ==> final(self).waiters(k) == old(self).waiters(k),
    {
        let mut v = match self.slots.remove(&h) {
            Some(v) => v,
            None => Vec::new(),
        };
        v.push(w);
        self.slots.insert(h, v);
    }

    /// Releases the slot of `h` and hands back its waiters.
    pub fn finish(&mut self, h: u64) -> (r: Vec<W>)
        ensures
            final(self).view_keys() == old(self).view_keys().remove(h),
            old(self).view_keys().contains(h) ==> r@ == old(self).waiters(h),
            !old(self).view_keys().contains(h) ==> r@.len() == 0,
            forall|k: u64| k != h && old(self).view_keys().contains(k) ==> final(self).waiters(k) == old(self).waiters(k),
    {
        match self.slots.remove(&h) {
            Some(v) => v,
            None => Vec::new(),
        }
    }
}

/// Coalescing: while a slot is held, every further request for the same
/// fingerprint is a follower, so only the leader reaches the upstream.
pub proof fn lemma_single_leader(held: Set<u64>, h: u64, first_leader: bool, second_leader: bool)
    requires
        first_leader == !held.contains(h),
        second_leader == !held.insert(h).contains(h),
    ensures
        !second_leader,
        !(first_leader && second_leader),
{
}

/// The `(operator, result)` items of a compiled chain.
pub open spec fn compiled_items(
    ms: Seq<CompiledMatcherWithOp>,
    qname: Seq<char>,
    qtype: u16,
    qclass: u16,
    client_ip: IpAddress,
    edns_present: bool,
) -> Seq<(MatchOperator, bool)> {
    Seq::new(ms.len(), |i: int| (ms[i].operator, ms[i].matcher.matches_spec(qname, qtype, qclass, client_ip, edns_present)))
}

/// Evaluates a compiled chain left to right with short-circuit.
pub fn eval_compiled_chain(
    ms: &Vec<CompiledMatcherWithOp>,
    qname: &str,
    qtype: u16,
    qclass: u16,
    client_ip: IpAddress,
    edns_present: bool,
) -> (r: bool)
    ensures
        r == chain_value(compiled_items(ms@, qname@, qtype, qclass, client_ip, edns_present)),
{
    let ghost items = compiled_items(ms@, qname@, qtype, qclass, client_ip, edns_present);
    if ms.len() == 0 {
        return true;
    }
    let mut acc = compiled_matcher_matches(&ms[0].matcher, qname, qtype, qclass, client_ip, edns_present);
    let mut i: usize = 1;
    while i < ms.len()
        invariant
            1 <= i <= ms.len(),
            items == compiled_items(ms@, qname@, qtype, qclass, client_ip, edns_present),
            acc == chain_prefix(items, i as int),
        decreases ms.len() - i,
    {
        let op = ms[i].operator;
        proof {
            if !needs_eval(acc, op) {
                lemma_skip_keeps_value(acc, op, items[i as int].1);
            }
        }
        if needs_evaluation(acc, op) {
            let p = compiled_matcher_matches(&ms[i].matcher, qname, qtype, qclass, client_ip, edns_present);
            acc = step(acc, op, p);
        }
        i = i + 1;
    }
    acc
}

/// Compiled rule `i` exists and its chain holds for the request.
pub open spec fn compiled_rule_matches(
    c: CompiledPipeline,
    i: int,
    qname: Seq<char>,
    qtype: u16,
    qclass: u16,
    client_ip: IpAddress,
    edns_present: bool,
) -> bool {
    0 <= i < c.rules@.len() && chain_value(compiled_items(c.rules@[i].matchers@, qname, qtype, qclass, client_ip, edns_present))
}

/// Rule `i` is the first matching candidate.
pub open spec fn first_compiled_match(
    c: CompiledPipeline,
    i: int,
    qname: Seq<char>,
    qtype: u16,
    qclass: u16,
    client_ip: IpAddress,
    edns_present: bool,
) -> bool {
    &&& 0 <= i <= usize::MAX
    &&& is_candidate(c.index, qname, qtype, i as usize)
    &&& compiled_rule_matches(c, i, qname, qtype, qclass, client_ip, edns_present)
    &&& forall|j: int|
        0 <= j < i && #[trigger] is_candidate(c.index, qname, qtype, j as usize) ==> !compiled_rule_matches(
            c,
            j,
            qname,
            qtype,
            qclass,
            client_ip,
            edns_present,
        )
}

/// The static decision a precomputed action gives.
pub open spec fn precomputed_decision(pre: PrecomputedAction, qname: Seq<char>, d: Decision) -> bool {
    match pre {
        PrecomputedAction::Static { rcode } => d matches Decision::Static { rcode: c, answers } && c == rcode
            && answers@.len() == 0,
        PrecomputedAction::StaticIp { ip } => d matches Decision::Static { rcode: c, answers } && (c, answers_view(
            answers@,
        )) == static_ip_spec(qname, ip@),
    }
}

/// Static fast path: the first candidate rule that matches answers here when
/// its first action is a static one; otherwise the full path decides.
pub fn fast_static_match(
    pipeline: &CompiledPipeline,
    qname: &str,
    qtype: u16,
    qclass: u16,
    client_ip: IpAddress,
    edns_present: bool,
) -> (r: Option<Decision>)
    ensures
        match r {
            Some(d) => exists|i: int|
                first_compiled_match(*pipeline, i, qname@, qtype, qclass, client_ip, edns_present)
                    && (pipeline.rules@[i].precomputed matches Some(pre) && precomputed_decision(pre, qname@, d)),
            None => forall|i: int|
                first_compiled_match(*pipeline, i, qname@, qtype, qclass, client_ip, edns_present)
                    ==> pipeline.rules@[i].precomputed is None,
        },
{
    let cands = pipeline.index.get_candidates(qname, qtype);
    let ghost c = *pipeline;
    let mut k: usize = 0;
    while k < cands.len()
        invariant
            k <= cands@.len(),
            c == *pipeline,
            strictly_sorted(cands@),
            forall|x: usize| #[trigger] member(cands@, x) <==> is_candidate(pipeline.index, qname@, qtype, x),
            forall|m: int|
                0 <= m < k ==> !compiled_rule_matches(c, #[trigger] cands@[m] as int, qname@, qtype, qclass, client_ip, edns_present),
        decreases cands@.len() - k,
    {
        let idx = cands[k];
        if idx < pipeline.rules.len() && eval_compiled_chain(
            &pipeline.rules[idx].matchers,
            qname,
            qtype,
            qclass,
            client_ip,
            edns_present,
        ) {
            proof {
                assert(member(cands@, idx)) by {
                    reveal(member);
                    assert(cands@[k as int] == idx);
                }
                assert forall|j: int|
                    0 <= j < idx && #[trigger] is_candidate(pipeline.index, qname@, qtype, j as usize) implies !compiled_rule_matches(
                    c,
                    j,
                    qname@,
                    qtype,
                    qclass,
                    client_ip,
                    edns_present,
                ) by {
                    assert(member(cands@, j as usize));
                    reveal(member);
                    let m = choose|m: int| 0 <= m < cands@.len() && cands@[m] == j as usize;
                    if m > k {
                        assert(cands@[k as int] < cands@[m]);
                    }
                    assert(!compiled_rule_matches(c, cands@[m] as int, qname@, qtype, qclass, client_ip, edns_present));
                }
                assert(first_compiled_match(c, idx as int, qname@, qtype, qclass, client_ip, edns_present));
                assert forall|i: int| first_compiled_match(c, i, qname@, qtype, qclass, client_ip, edns_present) implies i
                    == idx by {
                    if i < idx {
                    } else if i > idx {
                    }
                }
            }
            return match &pipeline.rules[idx].precomputed {
                Some(PrecomputedAction::Static { rcode }) => Some(Decision::Static { rcode: *rcode, answers: Vec::new() }),
                Some(PrecomputedAction::StaticIp { ip }) => {
                    let (rcode, answers) = make_static_ip_answer(qname, ip.as_str());
                    Some(Decision::Static { rcode, answers })
                },
                None => None,
            };
        }
        k = k + 1;
    }
    proof {
        assert forall|i: int| first_compiled_match(c, i, qname@, qtype, qclass, client_ip, edns_present) implies false by {
            assert(member(cands@, i as usize));
            reveal(member);
            let m = choose|m: int| 0 <= m < cands@.len() && cands@[m] == i as usize;
            assert(!compiled_rule_matches(c, cands@[m] as int, qname@, qtype, qclass, client_ip, edns_present));
        }
    }
    None
}

/// A rule without actions never ends the walk, so when no other candidate
/// does, the request goes to the default upstream.
pub proof fn lemma_empty_actions_fall_through(
    p: RuntimePipeline,
    skip: Seq<String>,
    i: int,
    qname: Seq<char>,
    qclass: u16,
    client_ip: IpAddress,
    edns_present: bool,
)
    requires
        0 <= i < p.rules@.len(),
        p.rules@[i].actions@.len() == 0,
    ensures
        !fires(p, skip, i, qname, qclass, client_ip, edns_present),
{
}

/// Pipeline transitions left to one request, shared by the request and the
/// response phase.
pub struct JumpBudget {
    limit: u32,
    spent: u32,
}

impl JumpBudget {
    pub closed spec fn limit_spec(&self) -> u32 {
        self.limit
    }

    pub closed spec fn spent_spec(&self) -> u32 {
        self.spent
    }

    /// No more transitions have been spent than the limit allows.
    pub closed spec fn wf(&self) -> bool {
        self.spent <= self.limit
    }

    pub fn new(limit: u32) -> (r: JumpBudget)
        ensures
            r.wf(),
            r.limit_spec() == limit,
            r.spent_spec() == 0,
    {
        JumpBudget { limit, spent: 0 }
    }

    /// Transitions still allowed.
    pub fn left(&self) -> (r: u32)
        requires
            self.wf(),
        ensures
            r == self.limit_spec() - self.spent_spec(),
    {
        self.limit - self.spent
    }

    /// Records the transitions a jump resolution took.
    pub fn spend(&mut self, jumps: u32)
        requires
            old(self).wf(),
            jumps <= old(self).limit_spec() - old(self).spent_spec(),
        ensures
            final(self).wf(),
            final(self).limit_spec() == old(self).limit_spec(),
            final(self).spent_spec() == old(self).spent_spec() + jumps,
    {
        self.spent = self.spent + jumps;
    }
}

/// However the transitions of a request are spent, their total stays within
/// the configured limit.
pub proof fn lemma_jump_budget_bounded(b: JumpBudget)
    requires
        b.wf(),
    ensures
        b.spent_spec() <= b.limit_spec(),
{
}

/// Seconds an upstream reply is cached: the effective TTL when the response
/// matchers accepted it, otherwise 0 (not cached).
pub fn reply_cache_ttl(matched: bool, answer_ttl: u32, min_ttl: u64) -> (r: u64)
    ensures
        r == if !matched {
            0
        } else if answer_ttl as u64 >= min_ttl {
            answer_ttl as u64
        } else {
            min_ttl
        },
{
    if matched {
        effective_ttl(answer_ttl as u64, min_ttl)
    } else {
        0
    }
}

/// What follows an upstream exchange in a forward.
#[derive(Debug, PartialEq, Eq, Structural)]
pub enum ForwardStep {
    /// Answer SERVFAIL.
    ServFail,
    /// Return the reply as it is; keep it cached for `ttl` seconds (0: not at all).
    Return { ttl: u64 },
    /// Run the `on_match` list (`true`) or the `on_miss` list (`false`), with the
    /// reply as context when `with_reply`.
    RunActions { on_match: bool, with_reply: bool },
}

/// Whether a reply has to be decoded in full: only a forward without
/// response matchers and without response actions makes do with the quick
/// parse.
pub fn needs_full_decode(matchers: &Vec<RuntimeResponseMatcherWithOp>, on_match: &Vec<Action>, on_miss: &Vec<Action>) -> (r: bool)
    ensures
        r == !(matchers@.len() == 0 && on_match@.len() == 0 && on_miss@.len() == 0),
{
    !(matchers.len() == 0 && on_match.len() == 0 && on_miss.len() == 0)
}

/// The step after the upstream answered (`reply` holds the matchers'
/// verdict and the smallest answer TTL) or failed (`None`): a failure
/// without `on_miss` actions is SERVFAIL, otherwise the `on_miss` list runs
/// without context; a reply with no actions to run is returned and cached
/// when the matchers accepted it; otherwise the list for the verdict runs.
pub fn after_upstream(on_match: &Vec<Action>, on_miss: &Vec<Action>, reply: Option<(bool, u32)>, min_ttl: u64) -> (r: ForwardStep)
    ensures
        r == match reply {
            None => if on_miss@.len() == 0 {
                ForwardStep::ServFail
            } else {
                ForwardStep::RunActions { on_match: false, with_reply: false }
            },
            Some((matched, ttl)) => if on_match@.len() == 0 && on_miss@.len() == 0 {
                ForwardStep::Return {
                    ttl: if !matched {
                        0
                    } else if ttl as u64 >= min_ttl {
                        ttl as u64
                    } else {
                        min_ttl
                    },
                }
            } else {
                ForwardStep::RunActions { on_match: matched, with_reply: true }
            },
        },
{
    match reply {
        None => {
            if on_miss.len() == 0 {
                ForwardStep::ServFail
            } else {
                ForwardStep::RunActions { on_match: false, with_reply: false }
            }
        },
        Some((matched, ttl)) => {
            if on_match.len() == 0 && on_miss.len() == 0 {
                ForwardStep::Return { ttl: reply_cache_ttl(matched, ttl, min_ttl) }
            } else {
                ForwardStep::RunActions { on_match: matched, with_reply: true }
            }
        },
    }
}

/// How a run of response actions ended.
#[derive(Debug)]
pub enum OutcomeKind {
    /// The current reply is returned; `matched` is the matchers' verdict on it.
    Upstream { matched: bool, answer_ttl: u32 },
    /// A synthesised answer is returned.
    Static,
    /// The request moves to another pipeline.
    Jump { pipeline: String },
    /// The rule is left; `has_reply` when a reply can be reused.
    Continue { rule_name: String, has_reply: bool },
}

/// What the request does next.
#[derive(Debug)]
pub enum NextMove {
    /// Answer; cache the answer for `ttl` seconds (0: not at all).
    Finish { ttl: u64 },
    /// Resolve this decision (a jump) with the budget that is left.
    Resolve { decision: Decision },
    /// Walk the current pipeline's rules again with the skip list.
    Redecide,
}

/// State a request carries between its decisions.
pub struct RequestState {
    /// Rules left by `Continue`, skipped in the current pipeline.
    pub skip: Vec<String>,
    /// A reply from before a `Continue` may serve the next `Allow`.
    pub reuse_reply: bool,
    /// Pipeline transitions, shared by both phases.
    pub budget: JumpBudget,
}

impl RequestState {
    pub fn new(jump_limit: u32) -> (r: RequestState)
        ensures
            r.skip@.len() == 0,
            !r.reuse_reply,
            r.budget.wf(),
            r.budget.limit_spec() == jump_limit,
            r.budget.spent_spec() == 0,
    {
        RequestState { skip: Vec::new(), reuse_reply: false, budget: JumpBudget::new(jump_limit) }
    }

    /// Whether a forward answers with the reply kept from before a
    /// `Continue`: only an `Allow` forward may, and it uses the reply up.
    pub fn take_reuse(&mut self, allow_reuse: bool) -> (r: bool)
        ensures
            r == (allow_reuse && old(self).reuse_reply),
            final(self).reuse_reply == (old(self).reuse_reply && !allow_reuse),
            final(self).skip@ == old(self).skip@,
            final(self).budget == old(self).budget,
    {
        let r = allow_reuse && self.reuse_reply;
        if allow_reuse {
            self.reuse_reply = false;
        }
        r
    }
}

/// The move after a run of response actions: a returned reply finishes and
/// is cached when the matchers accepted it; a synthesised answer finishes
/// and is cached for the TTL floor; a jump clears the skip list and goes to
/// the target on the shared budget; a continue skips the rule, keeps the
/// reply for reuse and walks the rules again.
pub fn after_outcome(s: RequestState, o: OutcomeKind, min_ttl: u64) -> (r: (RequestState, NextMove))
    ensures
        r.0.budget == s.budget,
        match o {
            OutcomeKind::Upstream { matched, answer_ttl } => r.1 matches NextMove::Finish { ttl } && ttl == (if !matched {
                0
            } else if answer_ttl as u64 >= min_ttl {
                answer_ttl as u64
            } else {
                min_ttl
            }) && r.0.skip@ == s.skip@ && r.0.reuse_reply == s.reuse_reply,
            OutcomeKind::Static => r.1 matches NextMove::Finish { ttl } && ttl == min_ttl && r.0.skip@ == s.skip@
                && r.0.reuse_reply == s.reuse_reply,
            OutcomeKind::Jump { pipeline } => r.1 matches NextMove::Resolve { decision } && decision matches Decision::Jump {
                pipeline: p,
            } && p@ == pipeline@ && r.0.skip@.len() == 0 && r.0.reuse_reply == s.reuse_reply,
            OutcomeKind::Continue { rule_name, has_reply } => r.1 is Redecide && r.0.skip@ == s.skip@.push(rule_name)
                && r.0.reuse_reply == has_reply,
        },
{
    let mut st = s;
    match o {
        OutcomeKind::Upstream { matched, answer_ttl } => {
            (st, NextMove::Finish { ttl: reply_cache_ttl(matched, answer_ttl, min_ttl) })
        },
        OutcomeKind::Static => (st, NextMove::Finish { ttl: min_ttl }),
        OutcomeKind::Jump { pipeline } => {
            st.skip = Vec::new();
            (st, NextMove::Resolve { decision: Decision::Jump { pipeline } })
        },
        OutcomeKind::Continue { rule_name, has_reply } => {
            st.skip.push(rule_name);
            st.reuse_reply = has_reply;
            (st, NextMove::Redecide)
        },
    }
}

/// Resolves a decision on the budget the request has left and spends the
/// transitions taken, so the total over the request stays within the limit.
pub fn resolve_in_budget(
    state: &mut RequestState,
    cfg: &RuntimePipelineConfig,
    compiled: &Vec<CompiledPipeline>,
    start: Option<usize>,
    decision: Decision,
    client_ip: IpAddress,
    qname: &str,
    qtype: u16,
    qclass: u16,
    edns_present: bool,
) -> (r: Resolved)
    requires
        old(state).budget.wf(),
        compiled@.len() == cfg.pipelines@.len(),
        start matches Some(s) ==> s < cfg.pipelines@.len(),
    ensures
        resolves_to(
            *cfg,
            compiled@,
            decision,
            qname@,
            qtype,
            qclass,
            client_ip,
            edns_present,
            (old(state).budget.limit_spec() - old(state).budget.spent_spec()) as nat,
            r.decision,
        ),
        !(r.decision is Jump),
        r.pipeline matches Some(p) ==> p < cfg.pipelines@.len(),
        final(state).budget.wf(),
        final(state).budget.limit_spec() == old(state).budget.limit_spec(),
        final(state).budget.spent_spec() == old(state).budget.spent_spec() + r.jumps,
        final(state).skip@ == old(state).skip@,
        final(state).reuse_reply == old(state).reuse_reply,
{
    let left = state.budget.left();
    let r = resolve_jumps(cfg, compiled, start, decision, client_ip, qname, qtype, qclass, edns_present, left);
    state.budget.spend(r.jumps);
    r
}

/// The fast path's answer to a query packet without awaiting anything: a
/// valid cached entry for the request, else the static answer of the first
/// matching candidate rule, else nothing. Any answer carries the query's
/// transaction id.
pub fn fast_path_reply(
    cached: Option<&CacheEntry>,
    pipeline_id: &str,
    compiled: Option<&CompiledPipeline>,
    packet: &[u8],
    client_ip: IpAddress,
) -> (r: Option<Vec<u8>>)
    ensures
        r matches Some(b) ==> b@.len() >= 2 && b@[0] == packet@[0] && b@[1] == packet@[1],
        quick_query_spec(packet@) is None ==> r is None,
{
    let q = match parse_quick(packet) {
        Some(q) => q,
        None => return None,
    };
    proof {
        let tx = be16(packet@, 0);
        assert(q.tx_id == tx);
        assert((tx / 256) as u8 == packet@[0] && (tx % 256) as u8 == packet@[1]) by (nonlinear_arith)
            requires tx == (packet@[0] as int * 256 + packet@[1] as int) as u16;
    }
    if let Some(e) = cached {
        match e.reply_for(pipeline_id, q.qname.as_str(), q.qtype, q.tx_id) {
            Some(b) => {
                assert(b@.len() >= 2 ==> b@[0] == packet@[0] && b@[1] == packet@[1]);
                if b.len() >= 2 {
                    return Some(b);
                }
            },
            None => {},
        }
    }
    let c = match compiled {
        Some(c) => c,
        None => return None,
    };
    let rd = packet[2] % 2 == 1;
    match fast_static_match(c, q.qname.as_str(), q.qtype, q.qclass, client_ip, false) {
        Some(Decision::Static { rcode, answers }) => {
            build_response(q.tx_id, rd, q.qname.as_str(), q.qtype, q.qclass, rcode, &answers)
        },
        _ => None,
    }
}

} // verus!
