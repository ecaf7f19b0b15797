//! Runtime matchers: the configured predicates with their CIDRs, regexes and
//! classes parsed, and their evaluation against a request or a response.
use vstd::prelude::*;

use crate::chain::{chain_prefix, chain_step, chain_value, lemma_skip_keeps_value, needs_eval, step};
use crate::config::MatchOperator;
use crate::message::ResponseFacts;
use crate::net::{IpAddress, IpNetwork, try_parse_upstream_ip, upstream_ip_spec};
use crate::text::{ascii_lower, eq_ignore_ascii_case, ends_with, has_suffix, str_eq};

verus! {

/// QCLASS IN.
pub const CLASS_IN: u16 = 1;

/// QCLASS CH (CHAOS).
pub const CLASS_CH: u16 = 3;

/// QCLASS HS (Hesiod).
pub const CLASS_HS: u16 = 4;

/// Record type A.
pub const TYPE_A: u16 = 1;

/// Record type AAAA.
pub const TYPE_AAAA: u16 = 28;

#[verifier::external_type_specification]
#[verifier::external_body]
pub struct ExRegex(regex::Regex);

/// Relies on `Clone` of `regex::Regex`: a clone runs the same compiled
/// program; nothing is claimed of it here.
pub assume_specification[ <regex::Regex as Clone>::clone ](re: &regex::Regex) -> regex::Regex;

/// Whether the `regex` crate accepts a pattern.
pub uninterp spec fn regex_compiles(pattern: Seq<char>) -> bool;

/// Whether a pattern matches somewhere in a text, as the `regex` crate decides.
pub uninterp spec fn regex_finds(pattern: Seq<char>, text: Seq<char>) -> bool;

/// The mnemonic that hickory displays for a record type code.
pub uninterp spec fn record_type_text(code: u16) -> Seq<char>;

/// A compiled regular expression together with its source pattern.
#[derive(Debug)]
pub struct DomainRegex {
    source: String,
    compiled: regex::Regex,
}

/// Relies on `regex::Regex::new`: whether it accepts the pattern depends on
/// the pattern alone; the compiled value is kept with the pattern it came from.
#[verifier::external_body]
fn compile_regex(pattern: &str) -> (r: Option<DomainRegex>)
    ensures
        r is Some <==> regex_compiles(pattern@),
        r matches Some(re) ==> re.pattern() == pattern@,
{
    match regex::Regex::new(pattern) {
        Ok(compiled) => Some(DomainRegex { source: pattern.to_string(), compiled }),
        Err(_) => None,
    }
}

/// Relies on `regex::Regex::is_match`, an unanchored search of the text.
#[verifier::external_body]
fn regex_is_match(re: &DomainRegex, text: &str) -> (r: bool)
    ensures
        r == regex_finds(re.pattern(), text@),
{
    re.compiled.is_match(text)
}

/// Relies on hickory's `Display` of `RecordType::from(code)`.
#[verifier::external_body]
fn record_type_name(code: u16) -> (r: String)
    ensures
        r@ == record_type_text(code),
{
    hickory_proto::rr::RecordType::from(code).to_string()
}

impl Clone for DomainRegex {
    fn clone(&self) -> (r: Self)
        ensures
            r.pattern() == self.pattern(),
    {
        DomainRegex { source: self.source.clone(), compiled: self.compiled.clone() }
    }
}

impl DomainRegex {
    /// The pattern the expression was compiled from.
    pub closed spec fn pattern(&self) -> Seq<char> {
        self.source@
    }

    /// Compiles a pattern; `None` when the `regex` crate rejects it.
    pub fn new(pattern: &str) -> (r: Option<DomainRegex>)
        ensures
            r is Some <==> regex_compiles(pattern@),
            r matches Some(re) ==> re.pattern() == pattern@,
    {
        compile_regex(pattern)
    }

    pub fn is_match(&self, text: &str) -> (r: bool)
        ensures
            r == regex_finds(self.pattern(), text@),
    {
        regex_is_match(self, text)
    }
}

/// Request-phase predicate with its parameters parsed.
#[derive(Clone, Debug)]
pub enum RuntimeMatcher {
    Any,
    DomainSuffix { value: String },
    ClientIp { net: IpNetwork },
    DomainRegex { regex: DomainRegex },
    Qclass { value: u16 },
    EdnsPresent { expect: bool },
}

#[derive(Clone, Debug)]
pub struct RuntimeMatcherWithOp {
    pub operator: MatchOperator,
    pub matcher: RuntimeMatcher,
}

impl RuntimeMatcher {
    pub open spec fn matches_spec(&self, qname: Seq<char>, qclass: u16, client_ip: IpAddress, edns_present: bool) -> bool {
        match self {
            RuntimeMatcher::Any => true,
            RuntimeMatcher::DomainSuffix { value } => has_suffix(qname, value@),
            RuntimeMatcher::ClientIp { net } => net.contains_spec(client_ip),
            RuntimeMatcher::DomainRegex { regex } => regex_finds(regex.pattern(), qname),
            RuntimeMatcher::Qclass { value } => *value == qclass,
            RuntimeMatcher::EdnsPresent { expect } => *expect == edns_present,
        }
    }

    pub fn matches(&self, qname: &str, qclass: u16, client_ip: IpAddress, edns_present: bool) -> (r: bool)
        ensures
            r == self.matches_spec(qname@, qclass, client_ip, edns_present),
    {
        match self {
            RuntimeMatcher::Any => true,
            RuntimeMatcher::DomainSuffix { value } => ends_with(qname, value.as_str()),
            RuntimeMatcher::ClientIp { net } => net.contains(&client_ip),
            RuntimeMatcher::DomainRegex { regex } => regex.is_match(qname),
            RuntimeMatcher::Qclass { value } => *value == qclass,
            RuntimeMatcher::EdnsPresent { expect } => *expect == edns_present,
        }
    }
}

/// The `(operator, result)` items of a request chain.
pub open spec fn request_items(
    ms: Seq<RuntimeMatcherWithOp>,
    qname: Seq<char>,
    qclass: u16,
    client_ip: IpAddress,
    edns_present: bool,
) -> Seq<(MatchOperator, bool)> {
    Seq::new(ms.len(), |i: int| (ms[i].operator, ms[i].matcher.matches_spec(qname, qclass, client_ip, edns_present)))
}

/// Evaluates a request chain left to right, skipping predicates whose result
/// cannot change the value.
pub fn eval_request_chain(
    ms: &Vec<RuntimeMatcherWithOp>,
    qname: &str,
    qclass: u16,
    client_ip: IpAddress,
    edns_present: bool,
) -> (r: bool)
    ensures
        r == chain_value(request_items(ms@, qname@, qclass, client_ip, edns_present)),
{
    let ghost items = request_items(ms@, qname@, qclass, client_ip, edns_present);
    if ms.len() == 0 {
        return true;
    }
    let mut acc = ms[0].matcher.matches(qname, qclass, client_ip, edns_present);
    let mut i: usize = 1;
    while i < ms.len()
        invariant
            1 <= i <= ms.len(),
            items == request_items(ms@, qname@, qclass, client_ip, edns_present),
            acc == chain_prefix(items, i as int),
        decreases ms.len() - i,
    {
        let op = ms[i].operator;
        proof {
            if !needs_eval(acc, op) {
                lemma_skip_keeps_value(acc, op, items[i as int].1);
            }
        }
        if needs_evaluation(acc, op) {
            let p = ms[i].matcher.matches(qname, qclass, client_ip, edns_present);
            acc = step(acc, op, p);
        }
        i = i + 1;
    }
    acc
}

/// Whether the next predicate of a chain has to run.
pub fn needs_evaluation(acc: bool, op: MatchOperator) -> (r: bool)
    ensures
        r == needs_eval(acc, op),
{
    match op {
        MatchOperator::And | MatchOperator::AndNot | MatchOperator::Not => acc,
        MatchOperator::Or | MatchOperator::OrNot => !acc,
    }
}

/// Predicate that selects a pipeline for a request.
#[derive(Clone, Debug)]
pub enum RuntimePipelineSelectorMatcher {
    ListenerLabel { value: String },
    ClientIp { net: IpNetwork },
    DomainSuffix { value: String },
    DomainRegex { regex: DomainRegex },
    Any,
    Qclass { value: u16 },
    EdnsPresent { expect: bool },
}

#[derive(Clone, Debug)]
pub struct RuntimePipelineSelectorMatcherWithOp {
    pub operator: MatchOperator,
    pub matcher: RuntimePipelineSelectorMatcher,
}

impl RuntimePipelineSelectorMatcher {
    pub open spec fn matches_spec(
        &self,
        listener_label: Seq<char>,
        client_ip: IpAddress,
        qname: Seq<char>,
        qclass: u16,
        edns_present: bool,
    ) -> bool {
        match self {
            RuntimePipelineSelectorMatcher::ListenerLabel { value } => ascii_lower(value@) == ascii_lower(listener_label),
            RuntimePipelineSelectorMatcher::ClientIp { net } => net.contains_spec(client_ip),
            RuntimePipelineSelectorMatcher::DomainSuffix { value } => has_suffix(qname, value@),
            RuntimePipelineSelectorMatcher::DomainRegex { regex } => regex_finds(regex.pattern(), qname),
            RuntimePipelineSelectorMatcher::Any => true,
            RuntimePipelineSelectorMatcher::Qclass { value } => *value == qclass,
            RuntimePipelineSelectorMatcher::EdnsPresent { expect } => *expect == edns_present,
        }
    }

    pub fn matches(
        &self,
        listener_label: &str,
        client_ip: IpAddress,
        qname: &str,
        qclass: u16,
        edns_present: bool,
    ) -> (r: bool)
        ensures
            r == self.matches_spec(listener_label@, client_ip, qname@, qclass, edns_present),
    {
        match self {
            RuntimePipelineSelectorMatcher::ListenerLabel { value } => eq_ignore_ascii_case(value.as_str(), listener_label),
            RuntimePipelineSelectorMatcher::ClientIp { net } => net.contains(&client_ip),
            RuntimePipelineSelectorMatcher::DomainSuffix { value } => ends_with(qname, value.as_str()),
            RuntimePipelineSelectorMatcher::DomainRegex { regex } => regex.is_match(qname),
            RuntimePipelineSelectorMatcher::Any => true,
            RuntimePipelineSelectorMatcher::Qclass { value } => *value == qclass,
            RuntimePipelineSelectorMatcher::EdnsPresent { expect } => *expect == edns_present,
        }
    }
}

/// The `(operator, result)` items of a selector chain.
pub open spec fn selector_items(
    ms: Seq<RuntimePipelineSelectorMatcherWithOp>,
    listener_label: Seq<char>,
    client_ip: IpAddress,
    qname: Seq<char>,
    qclass: u16,
    edns_present: bool,
) -> Seq<(MatchOperator, bool)> {
    Seq::new(
        ms.len(),
        |i: int| (ms[i].operator, ms[i].matcher.matches_spec(listener_label, client_ip, qname, qclass, edns_present)),
    )
}

/// Evaluates a selector chain left to right with short-circuit.
pub fn eval_selector_chain(
    ms: &Vec<RuntimePipelineSelectorMatcherWithOp>,
    listener_label: &str,
    client_ip: IpAddress,
    qname: &str,
    qclass: u16,
    edns_present: bool,
) -> (r: bool)
    ensures
        r == chain_value(selector_items(ms@, listener_label@, client_ip, qname@, qclass, edns_present)),
{
    let ghost items = selector_items(ms@, listener_label@, client_ip, qname@, qclass, edns_present);
    if ms.len() == 0 {
        return true;
    }
    let mut acc = ms[0].matcher.matches(listener_label, client_ip, qname, qclass, edns_present);
    let mut i: usize = 1;
    while i < ms.len()
        invariant
            1 <= i <= ms.len(),
            items == selector_items(ms@, listener_label@, client_ip, qname@, qclass, edns_present),
            acc == chain_prefix(items, i as int),
        decreases ms.len() - i,
    {
        let op = ms[i].operator;
        proof {
            if !needs_eval(acc, op) {
                lemma_skip_keeps_value(acc, op, items[i as int].1);
            }
        }
        if needs_evaluation(acc, op) {
            let p = ms[i].matcher.matches(listener_label, client_ip, qname, qclass, edns_present);
            acc = step(acc, op, p);
        }
        i = i + 1;
    }
    acc
}

/// Response-phase predicate with its parameters parsed.
#[derive(Clone, Debug)]
pub enum RuntimeResponseMatcher {
    UpstreamEquals { value: String },
    RequestDomainSuffix { value: String },
    RequestDomainRegex { regex: DomainRegex },
    ResponseUpstreamIp { nets: Vec<IpNetwork> },
    ResponseAnswerIp { nets: Vec<IpNetwork> },
    /// Upper-case record type mnemonic.
    ResponseType { value: String },
    /// Upper-case RCODE name.
    ResponseRcode { value: String },
    ResponseQclass { value: u16 },
    ResponseEdnsPresent { expect: bool },
}

#[derive(Clone, Debug)]
pub struct RuntimeResponseMatcherWithOp {
    pub operator: MatchOperator,
    pub matcher: RuntimeResponseMatcher,
}

/// Some block of the list holds the address.
pub open spec fn any_net_contains(nets: Seq<IpNetwork>, ip: IpAddress) -> bool {
    exists|i: int| 0 <= i < nets.len() && nets[i].contains_spec(ip)
}

/// Some record address of the list lies in some block.
pub open spec fn any_ip_in_nets(ips: Seq<Option<IpAddress>>, nets: Seq<IpNetwork>) -> bool {
    exists|i: int| 0 <= i < ips.len() && (#[trigger] ips[i] matches Some(a) && any_net_contains(nets, a))
}

/// Name of an RCODE as written in configurations; `OTHER` for the rest.
pub open spec fn rcode_text(code: u16) -> Seq<char> {
    if code == 0 {
        "NOERROR"@
    } else if code == 1 {
        "FORMERR"@
    } else if code == 2 {
        "SERVFAIL"@
    } else if code == 3 {
        "NXDOMAIN"@
    } else if code == 4 {
        "NOTIMP"@
    } else if code == 5 {
        "REFUSED"@
    } else {
        "OTHER"@
    }
}

pub fn rcode_name(code: u16) -> (r: &'static str)
    ensures
        r@ == rcode_text(code),
{
    if code == 0 {
        "NOERROR"
    } else if code == 1 {
        "FORMERR"
    } else if code == 2 {
        "SERVFAIL"
    } else if code == 3 {
        "NXDOMAIN"
    } else if code == 4 {
        "NOTIMP"
    } else if code == 5 {
        "REFUSED"
    } else {
        "OTHER"
    }
}

/// The record type a response is judged by: its first answer's, else the
/// query's.
pub open spec fn response_type_of(msg: ResponseFacts, qtype: u16) -> u16 {
    if msg.answer_types@.len() > 0 {
        msg.answer_types@[0]
    } else {
        qtype
    }
}

impl RuntimeResponseMatcher {
    pub open spec fn matches_spec(
        &self,
        upstream: Seq<char>,
        qname: Seq<char>,
        qtype: u16,
        qclass: u16,
        msg: ResponseFacts,
    ) -> bool {
        match self {
            RuntimeResponseMatcher::UpstreamEquals { value } => upstream == value@,
            RuntimeResponseMatcher::RequestDomainSuffix { value } => has_suffix(qname, value@),
            RuntimeResponseMatcher::RequestDomainRegex { regex } => regex_finds(regex.pattern(), qname),
            RuntimeResponseMatcher::ResponseUpstreamIp { nets } => match upstream_ip_spec(upstream) {
                Some(ip) => any_net_contains(nets@, ip),
                None => false,
            },
            RuntimeResponseMatcher::ResponseAnswerIp { nets } => any_ip_in_nets(msg.answer_ips@, nets@)
                || any_ip_in_nets(msg.additional_ips@, nets@),
            RuntimeResponseMatcher::ResponseType { value } => record_type_text(response_type_of(msg, qtype)) == value@,
            RuntimeResponseMatcher::ResponseRcode { value } => rcode_text(msg.rcode) == value@,
            RuntimeResponseMatcher::ResponseQclass { value } => *value == qclass,
            RuntimeResponseMatcher::ResponseEdnsPresent { expect } => msg.edns_present == *expect,
        }
    }

    pub fn matches(&self, upstream: &str, qname: &str, qtype: u16, qclass: u16, msg: &ResponseFacts) -> (r: bool)
        ensures
            r == self.matches_spec(upstream@, qname@, qtype, qclass, *msg),
    {
        match self {
            RuntimeResponseMatcher::UpstreamEquals { value } => str_eq(upstream, value.as_str()),
            RuntimeResponseMatcher::RequestDomainSuffix { value } => ends_with(qname, value.as_str()),
            RuntimeResponseMatcher::RequestDomainRegex { regex } => regex.is_match(qname),
            RuntimeResponseMatcher::ResponseUpstreamIp { nets } => match try_parse_upstream_ip(upstream) {
                Some(ip) => nets_contain(nets, &ip),
                None => false,
            },
            RuntimeResponseMatcher::ResponseAnswerIp { nets } => {
                ips_in_nets(&msg.answer_ips, nets) || ips_in_nets(&msg.additional_ips, nets)
            },
            RuntimeResponseMatcher::ResponseType { value } => {
                let rrty = if msg.answer_types.len() > 0 {
                    msg.answer_types[0]
                } else {
                    qtype
                };
                let name = record_type_name(rrty);
                str_eq(name.as_str(), value.as_str())
            },
            RuntimeResponseMatcher::ResponseRcode { value } => str_eq(rcode_name(msg.rcode), value.as_str()),
            RuntimeResponseMatcher::ResponseQclass { value } => *value == qclass,
            RuntimeResponseMatcher::ResponseEdnsPresent { expect } => msg.edns_present == *expect,
        }
    }
}

/// Whether some block of the list holds the address.
pub fn nets_contain(nets: &Vec<IpNetwork>, ip: &IpAddress) -> (r: bool)
    ensures
        r == any_net_contains(nets@, *ip),
{
    let mut i: usize = 0;
    while i < nets.len()
        invariant
            i <= nets.len(),
            forall|j: int| 0 <= j < i ==> !nets@[j].contains_spec(*ip),
        decreases nets.len() - i,
    {
        if nets[i].contains(ip) {
            return true;
        }
        i = i + 1;
    }
    false
}

/// Whether some record address lies in some block.
pub fn ips_in_nets(ips: &Vec<Option<IpAddress>>, nets: &Vec<IpNetwork>) -> (r: bool)
    ensures
        r == any_ip_in_nets(ips@, nets@),
{
    let mut i: usize = 0;
    while i < ips.len()
        invariant
            i <= ips.len(),
            forall|j: int| 0 <= j < i ==> !(#[trigger] ips@[j] matches Some(a) && any_net_contains(nets@, a)),
        decreases ips.len() - i,
    {
        if let Some(a) = &ips[i] {
            if nets_contain(nets, a) {
                return true;
            }
        }
        i = i + 1;
    }
    false
}

/// The `(operator, result)` items of a response chain.
pub open spec fn response_items(
    ms: Seq<RuntimeResponseMatcherWithOp>,
    upstream: Seq<char>,
    qname: Seq<char>,
    qtype: u16,
    qclass: u16,
    msg: ResponseFacts,
) -> Seq<(MatchOperator, bool)> {
    Seq::new(ms.len(), |i: int| (ms[i].operator, ms[i].matcher.matches_spec(upstream, qname, qtype, qclass, msg)))
}

/// Evaluates a response chain left to right with short-circuit.
pub fn eval_response_chain(
    ms: &Vec<RuntimeResponseMatcherWithOp>,
    upstream: &str,
    qname: &str,
    qtype: u16,
    qclass: u16,
    msg: &ResponseFacts,
) -> (r: bool)
    ensures
        r == chain_value(response_items(ms@, upstream@, qname@, qtype, qclass, *msg)),
{
    let ghost items = response_items(ms@, upstream@, qname@, qtype, qclass, *msg);
    if ms.len() == 0 {
        return true;
    }
    let mut acc = ms[0].matcher.matches(upstream, qname, qtype, qclass, msg);
    let mut i: usize = 1;
    while i < ms.len()
        invariant
            1 <= i <= ms.len(),
            items == response_items(ms@, upstream@, qname@, qtype, qclass, *msg),
            acc == chain_prefix(items, i as int),
        decreases ms.len() - i,
    {
        let op = ms[i].operator;
        proof {
            if !needs_eval(acc, op) {
                lemma_skip_keeps_value(acc, op, items[i as int].1);
            }
        }
        if needs_evaluation(acc, op) {
            let p = ms[i].matcher.matches(upstream, qname, qtype, qclass, msg);
            acc = step(acc, op, p);
        }
        i = i + 1;
    }
    acc
}

/// An empty domain suffix matches every query name.
pub proof fn lemma_empty_suffix_matches_any(m: RuntimeMatcher, qname: Seq<char>, qclass: u16, client_ip: IpAddress, edns_present: bool)
    requires
        m matches RuntimeMatcher::DomainSuffix { value } && value@.len() == 0,
    ensures
        m.matches_spec(qname, qclass, client_ip, edns_present),
{
    if let RuntimeMatcher::DomainSuffix { value } = m {
        assert(qname.subrange(qname.len() as int, qname.len() as int) =~= value@);
    }
}

} // verus!
