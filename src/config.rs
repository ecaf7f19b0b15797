//! Declarative configuration: the tree of pipelines, rules, matchers and
//! actions that the rule compiler turns into runtime structures.
use vstd::prelude::*;

verus! {

/// How a matcher combines with the accumulated result of the items before it.
#[derive(Clone, Copy, Debug, PartialEq, Eq, Structural)]
pub enum MatchOperator {
    And,
    Or,
    AndNot,
    OrNot,
    /// Legacy spelling of `AndNot`; never produced by the parser.
    Not,
}

/// Transport used to reach an upstream resolver.
#[derive(Clone, Copy, Debug, PartialEq, Eq, Structural)]
pub enum Transport {
    Udp,
    Tcp,
}

/// Process-wide settings.
#[derive(Clone, Debug)]
pub struct GlobalSettings {
    /// Lower bound, in seconds, of the TTL under which a response is cached.
    pub min_ttl: u32,
    pub bind_udp: String,
    pub bind_tcp: String,
    pub default_upstream: String,
    pub upstream_timeout_ms: u64,
    /// Bound on the number of pipeline transitions for one request.
    pub response_jump_limit: u32,
    pub udp_pool_size: usize,
    pub tcp_pool_size: usize,
}

/// The whole configuration document.
#[derive(Clone, Debug)]
pub struct PipelineConfig {
    pub version: Option<String>,
    pub settings: GlobalSettings,
    /// Selector rules, evaluated in order.
    pub pipeline_select: Vec<PipelineSelectRule>,
    pub pipelines: Vec<Pipeline>,
}

#[derive(Clone, Debug)]
pub struct Pipeline {
    pub id: String,
    pub rules: Vec<Rule>,
}

#[derive(Clone, Debug)]
pub struct Rule {
    pub name: String,
    pub matchers: Vec<MatcherWithOp>,
    pub matcher_operator: MatchOperator,
    pub actions: Vec<Action>,
    pub response_matchers: Vec<ResponseMatcherWithOp>,
    pub response_matcher_operator: MatchOperator,
    pub response_actions_on_match: Vec<Action>,
    pub response_actions_on_miss: Vec<Action>,
}

/// Request-phase predicates.
#[derive(Debug)]
pub enum Matcher {
    Any,
    /// Case-insensitive suffix of the query name.
    DomainSuffix { value: String },
    DomainRegex { value: String },
    ClientIp { cidr: String },
    Qclass { value: String },
    EdnsPresent { expect: bool },
}

/// Predicates that choose a pipeline for a request.
#[derive(Debug)]
pub enum PipelineSelectorMatcher {
    ListenerLabel { value: String },
    ClientIp { cidr: String },
    DomainSuffix { value: String },
    DomainRegex { value: String },
    Any,
    Qclass { value: String },
    EdnsPresent { expect: bool },
}

#[derive(Clone, Debug)]
pub struct PipelineSelectRule {
    pub pipeline: String,
    pub matchers: Vec<PipelineSelectorMatcherWithOp>,
    pub matcher_operator: MatchOperator,
}

#[derive(Clone, Debug)]
pub struct MatcherWithOp {
    pub operator: MatchOperator,
    pub matcher: Matcher,
}

#[derive(Clone, Debug)]
pub struct PipelineSelectorMatcherWithOp {
    pub operator: MatchOperator,
    pub matcher: PipelineSelectorMatcher,
}

#[derive(Clone, Debug)]
pub struct ResponseMatcherWithOp {
    pub operator: MatchOperator,
    pub matcher: ResponseMatcher,
}

/// Response-phase predicates.
#[derive(Debug)]
pub enum ResponseMatcher {
    UpstreamEquals { value: String },
    RequestDomainSuffix { value: String },
    RequestDomainRegex { value: String },
    ResponseUpstreamIp { cidr: String },
    /// Comma-separated CIDR list matched against A/AAAA data of the answer,
    /// then of the additional section.
    ResponseAnswerIp { cidr: String },
    ResponseType { value: String },
    ResponseRcode { value: String },
    ResponseQclass { value: String },
    ResponseEdnsPresent { expect: bool },
}

/// Actions of the request and response phases.
#[derive(Debug)]
pub enum Action {
    Log { level: Option<String> },
    StaticResponse { rcode: String },
    StaticIpResponse { ip: String },
    JumpToPipeline { pipeline: String },
    Allow,
    Deny,
    Forward { upstream: Option<String>, transport: Option<Transport> },
    Continue,
}

impl Clone for Matcher {
    fn clone(&self) -> (r: Self)
        ensures
            r == *self,
    {
        match self {
            Matcher::Any => Matcher::Any,
            Matcher::DomainSuffix { value } => Matcher::DomainSuffix { value: value.clone() },
            Matcher::DomainRegex { value } => Matcher::DomainRegex { value: value.clone() },
            Matcher::ClientIp { cidr } => Matcher::ClientIp { cidr: cidr.clone() },
            Matcher::Qclass { value } => Matcher::Qclass { value: value.clone() },
            Matcher::EdnsPresent { expect } => Matcher::EdnsPresent { expect: *expect },
        }
    }
}

impl Clone for PipelineSelectorMatcher {
    fn clone(&self) -> (r: Self)
        ensures
            r == *self,
    {
        match self {
            PipelineSelectorMatcher::ListenerLabel { value } => PipelineSelectorMatcher::ListenerLabel {
                value: value.clone(),
            },
            PipelineSelectorMatcher::ClientIp { cidr } => PipelineSelectorMatcher::ClientIp { cidr: cidr.clone() },
            PipelineSelectorMatcher::DomainSuffix { value } => PipelineSelectorMatcher::DomainSuffix {
                value: value.clone(),
            },
            PipelineSelectorMatcher::DomainRegex { value } => PipelineSelectorMatcher::DomainRegex {
                value: value.clone(),
            },
            PipelineSelectorMatcher::Any => PipelineSelectorMatcher::Any,
            PipelineSelectorMatcher::Qclass { value } => PipelineSelectorMatcher::Qclass { value: value.clone() },
            PipelineSelectorMatcher::EdnsPresent { expect } => PipelineSelectorMatcher::EdnsPresent {
                expect: *expect,
            },
        }
    }
}

impl Clone for ResponseMatcher {
    fn clone(&self) -> (r: Self)
        ensures
            r == *self,
    {
        match self {
            ResponseMatcher::UpstreamEquals { value } => ResponseMatcher::UpstreamEquals { value: value.clone() },
            ResponseMatcher::RequestDomainSuffix { value } => ResponseMatcher::RequestDomainSuffix {
                value: value.clone(),
            },
            ResponseMatcher::RequestDomainRegex { value } => ResponseMatcher::RequestDomainRegex {
                value: value.clone(),
            },
            ResponseMatcher::ResponseUpstreamIp { cidr } => ResponseMatcher::ResponseUpstreamIp { cidr: cidr.clone() },
            ResponseMatcher::ResponseAnswerIp { cidr } => ResponseMatcher::ResponseAnswerIp { cidr: cidr.clone() },
            ResponseMatcher::ResponseType { value } => ResponseMatcher::ResponseType { value: value.clone() },
            ResponseMatcher::ResponseRcode { value } => ResponseMatcher::ResponseRcode { value: value.clone() },
            ResponseMatcher::ResponseQclass { value } => ResponseMatcher::ResponseQclass { value: value.clone() },
            ResponseMatcher::ResponseEdnsPresent { expect } => ResponseMatcher::ResponseEdnsPresent {
                expect: *expect,
            },
        }
    }
}

impl Clone for Action {
    fn clone(&self) -> (r: Self)
        ensures
            r == *self,
    {
        match self {
            Action::Log { level } => Action::Log {
                level: match level {
                    Some(l) => Some(l.clone()),
                    None => None,
                },
            },
            Action::StaticResponse { rcode } => Action::StaticResponse { rcode: rcode.clone() },
            Action::StaticIpResponse { ip } => Action::StaticIpResponse { ip: ip.clone() },
            Action::JumpToPipeline { pipeline } => Action::JumpToPipeline { pipeline: pipeline.clone() },
            Action::Allow => Action::Allow,
            Action::Deny => Action::Deny,
            Action::Forward { upstream, transport } => Action::Forward {
                upstream: match upstream {
                    Some(u) => Some(u.clone()),
                    None => None,
                },
                transport: *transport,
            },
            Action::Continue => Action::Continue,
        }
    }
}

/// Copies a list of actions.
pub fn clone_actions(v: &Vec<Action>) -> (r: Vec<Action>)
    ensures
        r@ == v@,
{
    let mut out: Vec<Action> = Vec::new();
    let mut i: usize = 0;
    while i < v.len()
        invariant
            i <= v.len(),
            out@ == v@.take(i as int),
        decreases v.len() - i,
    {
        out.push(v[i].clone());
        assert(v@.take(i as int + 1) == v@.take(i as int).push(v@[i as int]));
        i = i + 1;
    }
    assert(v@.take(v.len() as int) == v@);
    out
}

pub fn default_match_operator() -> (r: MatchOperator)
    ensures
        r == MatchOperator::And,
{
    MatchOperator::And
}

pub fn default_min_ttl() -> (r: u32)
    ensures
        r == 0,
{
    0
}

pub fn default_bind_udp() -> (r: String)
    ensures
        r@ == "0.0.0.0:5353"@,
{
    String::from_str("0.0.0.0:5353")
}

pub fn default_bind_tcp() -> (r: String)
    ensures
        r@ == "0.0.0.0:5353"@,
{
    String::from_str("0.0.0.0:5353")
}

pub fn default_upstream() -> (r: String)
    ensures
        r@ == "1.1.1.1:53"@,
{
    String::from_str("1.1.1.1:53")
}

pub fn default_upstream_timeout_ms() -> (r: u64)
    ensures
        r == 2000,
{
    2000
}

pub fn default_response_jump_limit() -> (r: u32)
    ensures
        r == 10,
{
    10
}

pub fn default_udp_pool_size() -> (r: usize)
    ensures
        r == 64,
{
    64
}

pub fn default_tcp_pool_size() -> (r: usize)
    ensures
        r == 64,
{
    64
}

impl Default for GlobalSettings {
    fn default() -> (r: GlobalSettings)
        ensures
            r.min_ttl == 0,
            r.bind_udp@ == "0.0.0.0:5353"@,
            r.bind_tcp@ == "0.0.0.0:5353"@,
            r.default_upstream@ == "1.1.1.1:53"@,
            r.upstream_timeout_ms == 2000,
            r.response_jump_limit == 10,
            r.udp_pool_size == 64,
            r.tcp_pool_size == 64,
    {
        GlobalSettings {
            min_ttl: default_min_ttl(),
            bind_udp: default_bind_udp(),
            bind_tcp: default_bind_tcp(),
            default_upstream: default_upstream(),
            upstream_timeout_ms: default_upstream_timeout_ms(),
            response_jump_limit: default_response_jump_limit(),
            udp_pool_size: default_udp_pool_size(),
            tcp_pool_size: default_tcp_pool_size(),
        }
    }
}

/// True iff the list holds a `Continue` action.
pub open spec fn has_continue(actions: Seq<Action>) -> bool {
    exists|i: int| 0 <= i < actions.len() && actions[i] is Continue
}

/// Scans an action list for `Continue`.
pub fn contains_continue(actions: &Vec<Action>) -> (r: bool)
    ensures
        r == has_continue(actions@),
{
    let mut i: usize = 0;
    while i < actions.len()
        invariant
            i <= actions.len(),
            forall|j: int| 0 <= j < i ==> !(actions@[j] is Continue),
        decreases actions.len() - i,
    {
        if let Action::Continue = &actions[i] {
            return true;
        }
        i = i + 1;
    }
    false
}

} // verus!
