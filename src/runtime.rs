//! Compilation of the declarative configuration into runtime matchers.
use vstd::prelude::*;

use crate::config::{
    Action, GlobalSettings, MatchOperator, Matcher, MatcherWithOp, Pipeline, PipelineConfig, PipelineSelectRule,
    PipelineSelectorMatcher, PipelineSelectorMatcherWithOp, ResponseMatcher, ResponseMatcherWithOp, Rule,
    clone_actions,
};
use crate::matcher::{
    CLASS_CH, CLASS_HS, CLASS_IN, DomainRegex, RuntimeMatcher, RuntimeMatcherWithOp,
    RuntimePipelineSelectorMatcher, RuntimePipelineSelectorMatcherWithOp, RuntimeResponseMatcher,
    RuntimeResponseMatcherWithOp, regex_compiles,
};
use crate::net::{IpNetwork, cidr_text_value, parse_cidr};
use crate::text::{ascii_lower, ascii_upper, str_eq, to_ascii_lower, to_ascii_upper};

verus! {

/// Why a configuration cannot be compiled.
#[derive(Clone, Debug, PartialEq, Eq)]
pub enum ConfigError {
    InvalidCidr { text: String },
    InvalidRegex { pattern: String },
    UnsupportedQclass { value: String },
    EmptyRequestDomainSuffix,
}

/// A rule with its matchers compiled.
#[derive(Clone, Debug)]
pub struct RuntimeRule {
    pub name: String,
    pub matcher_operator: MatchOperator,
    pub matchers: Vec<RuntimeMatcherWithOp>,
    pub actions: Vec<Action>,
    pub response_matchers: Vec<RuntimeResponseMatcherWithOp>,
    pub response_matcher_operator: MatchOperator,
    pub response_actions_on_match: Vec<Action>,
    pub response_actions_on_miss: Vec<Action>,
}

#[derive(Clone, Debug)]
pub struct RuntimePipeline {
    pub id: String,
    pub rules: Vec<RuntimeRule>,
}

#[derive(Clone, Debug)]
pub struct RuntimePipelineSelectRule {
    pub pipeline: String,
    pub matchers: Vec<RuntimePipelineSelectorMatcherWithOp>,
    pub matcher_operator: MatchOperator,
}

/// The compiled configuration the engine runs on.
#[derive(Clone, Debug)]
pub struct RuntimePipelineConfig {
    pub settings: GlobalSettings,
    pub pipeline_select: Vec<RuntimePipelineSelectRule>,
    pub pipelines: Vec<RuntimePipeline>,
}

/// QCLASS code of an upper-case class name.
pub open spec fn class_code(upper: Seq<char>) -> Option<u16> {
    if upper == "IN"@ {
        Some(CLASS_IN)
    } else if upper == "CH"@ || upper == "CHAOS"@ {
        Some(CLASS_CH)
    } else if upper == "HS"@ {
        Some(CLASS_HS)
    } else {
        None
    }
}

/// Reads a class name (`IN`, `CH`/`CHAOS`, `HS`), case-insensitively.
pub fn parse_dns_class(v: &str) -> (r: Result<u16, ConfigError>)
    ensures
        match class_code(ascii_upper(v@)) {
            Some(c) => r == Ok::<u16, ConfigError>(c),
            None => r is Err,
        },
{
    let upper = to_ascii_upper(v);
    if str_eq(upper.as_str(), "IN") {
        Ok(CLASS_IN)
    } else if str_eq(upper.as_str(), "CH") || str_eq(upper.as_str(), "CHAOS") {
        Ok(CLASS_CH)
    } else if str_eq(upper.as_str(), "HS") {
        Ok(CLASS_HS)
    } else {
        Err(ConfigError::UnsupportedQclass { value: upper })
    }
}

/// The request matcher compiles.
pub open spec fn matcher_ok(m: Matcher) -> bool {
    match m {
        Matcher::DomainRegex { value } => regex_compiles(value@),
        Matcher::ClientIp { cidr } => cidr_text_value(cidr@) is Some,
        Matcher::Qclass { value } => class_code(ascii_upper(value@)) is Some,
        _ => true,
    }
}

/// `rm` is what `m` compiles to.
pub open spec fn matcher_compiled(m: Matcher, rm: RuntimeMatcher) -> bool {
    match (m, rm) {
        (Matcher::Any, RuntimeMatcher::Any) => true,
        (Matcher::DomainSuffix { value: a }, RuntimeMatcher::DomainSuffix { value: b }) => b@ == ascii_lower(a@),
        (Matcher::DomainRegex { value }, RuntimeMatcher::DomainRegex { regex }) => regex.pattern() == value@,
        (Matcher::ClientIp { cidr }, RuntimeMatcher::ClientIp { net }) => cidr_text_value(cidr@) == Some(net),
        (Matcher::Qclass { value: a }, RuntimeMatcher::Qclass { value: b }) => class_code(ascii_upper(a@)) == Some(b),
        (Matcher::EdnsPresent { expect: a }, RuntimeMatcher::EdnsPresent { expect: b }) => a == b,
        _ => false,
    }
}

impl RuntimeMatcher {
    pub fn from_config(m: Matcher) -> (r: Result<RuntimeMatcher, ConfigError>)
        ensures
            r is Ok <==> matcher_ok(m),
            r matches Ok(rm) ==> matcher_compiled(m, rm),
    {
        match m {
            Matcher::Any => Ok(RuntimeMatcher::Any),
            Matcher::DomainSuffix { value } => Ok(RuntimeMatcher::DomainSuffix { value: to_ascii_lower(value.as_str()) }),
            Matcher::ClientIp { cidr } => match parse_cidr(cidr.as_str()) {
                Some(net) => Ok(RuntimeMatcher::ClientIp { net }),
                None => Err(ConfigError::InvalidCidr { text: cidr }),
            },
            Matcher::DomainRegex { value } => match DomainRegex::new(value.as_str()) {
                Some(regex) => Ok(RuntimeMatcher::DomainRegex { regex }),
                None => Err(ConfigError::InvalidRegex { pattern: value }),
            },
            Matcher::Qclass { value } => match parse_dns_class(value.as_str()) {
                Ok(c) => Ok(RuntimeMatcher::Qclass { value: c }),
                Err(e) => Err(e),
            },
            Matcher::EdnsPresent { expect } => Ok(RuntimeMatcher::EdnsPresent { expect }),
        }
    }
}

/// The selector matcher compiles.
pub open spec fn selector_ok(m: PipelineSelectorMatcher) -> bool {
    match m {
        PipelineSelectorMatcher::DomainRegex { value } => regex_compiles(value@),
        PipelineSelectorMatcher::ClientIp { cidr } => cidr_text_value(cidr@) is Some,
        PipelineSelectorMatcher::Qclass { value } => class_code(ascii_upper(value@)) is Some,
        _ => true,
    }
}

pub open spec fn selector_compiled(m: PipelineSelectorMatcher, rm: RuntimePipelineSelectorMatcher) -> bool {
    match (m, rm) {
        (
            PipelineSelectorMatcher::ListenerLabel { value: a },
            RuntimePipelineSelectorMatcher::ListenerLabel { value: b },
        ) => a == b,
        (PipelineSelectorMatcher::ClientIp { cidr }, RuntimePipelineSelectorMatcher::ClientIp { net }) => cidr_text_value(
            cidr@,
        ) == Some(net),
        (
            PipelineSelectorMatcher::DomainSuffix { value: a },
            RuntimePipelineSelectorMatcher::DomainSuffix { value: b },
        ) => b@ == ascii_lower(a@),
        (PipelineSelectorMatcher::DomainRegex { value }, RuntimePipelineSelectorMatcher::DomainRegex { regex }) => regex.pattern()
            == value@,
        (PipelineSelectorMatcher::Any, RuntimePipelineSelectorMatcher::Any) => true,
        (PipelineSelectorMatcher::Qclass { value: a }, RuntimePipelineSelectorMatcher::Qclass { value: b }) => class_code(
            ascii_upper(a@),
        ) == Some(b),
        (
            PipelineSelectorMatcher::EdnsPresent { expect: a },
            RuntimePipelineSelectorMatcher::EdnsPresent { expect: b },
        ) => a == b,
        _ => false,
    }
}

impl RuntimePipelineSelectorMatcher {
    pub fn from_config(m: PipelineSelectorMatcher) -> (r: Result<RuntimePipelineSelectorMatcher, ConfigError>)
        ensures
            r is Ok <==> selector_ok(m),
            r matches Ok(rm) ==> selector_compiled(m, rm),
    {
        match m {
            PipelineSelectorMatcher::ListenerLabel { value } => Ok(RuntimePipelineSelectorMatcher::ListenerLabel { value }),
            PipelineSelectorMatcher::ClientIp { cidr } => match parse_cidr(cidr.as_str()) {
                Some(net) => Ok(RuntimePipelineSelectorMatcher::ClientIp { net }),
                None => Err(ConfigError::InvalidCidr { text: cidr }),
            },
            PipelineSelectorMatcher::DomainSuffix { value } => Ok(
                RuntimePipelineSelectorMatcher::DomainSuffix { value: to_ascii_lower(value.as_str()) },
            ),
            PipelineSelectorMatcher::DomainRegex { value } => match DomainRegex::new(value.as_str()) {
                Some(regex) => Ok(RuntimePipelineSelectorMatcher::DomainRegex { regex }),
                None => Err(ConfigError::InvalidRegex { pattern: value }),
            },
            PipelineSelectorMatcher::Any => Ok(RuntimePipelineSelectorMatcher::Any),
            PipelineSelectorMatcher::Qclass { value } => match parse_dns_class(value.as_str()) {
                Ok(c) => Ok(RuntimePipelineSelectorMatcher::Qclass { value: c }),
                Err(e) => Err(e),
            },
            PipelineSelectorMatcher::EdnsPresent { expect } => Ok(RuntimePipelineSelectorMatcher::EdnsPresent { expect }),
        }
    }
}

/// Index of the first `,` at or after `i`, or -1.
pub open spec fn comma_from(s: Seq<char>, i: int) -> int
    decreases s.len() - i,
{
    if i < 0 || i >= s.len() {
        -1
    } else if s[i] == ',' {
        i
    } else {
        comma_from(s, i + 1)
    }
}

/// The pieces of a text between commas; one piece when it has none.
pub open spec fn comma_pieces(s: Seq<char>) -> Seq<Seq<char>>
    decreases s.len(),
{
    let c = comma_from(s, 0);
    if c < 0 || c >= s.len() {
        seq![s]
    } else {
        seq![s.subrange(0, c)] + comma_pieces(s.subrange(c + 1, s.len() as int))
    }
}

/// What std's `str::trim` leaves of a text.
pub uninterp spec fn trim_text(s: Seq<char>) -> Seq<char>;

/// Relies on std's `str::split` with a `','` pattern: the pieces between
/// commas, in order.
#[verifier::external_body]
fn split_commas(s: &str) -> (r: Vec<String>)
    ensures
        r@.len() == comma_pieces(s@).len(),
        forall|i: int| 0 <= i < r@.len() ==> #[trigger] r@[i]@ == comma_pieces(s@)[i],
{
    s.split(',').map(String::from).collect()
}

/// Relies on std's `str::trim`: leading and trailing white space removed.
#[verifier::external_body]
fn trim(s: &str) -> (r: &str)
    ensures
        r@ == trim_text(s@),
{
    s.trim()
}

/// The blocks of a comma-separated CIDR list; empty pieces are skipped and
/// any other piece must parse.
pub open spec fn cidr_list_value(pieces: Seq<Seq<char>>) -> Option<Seq<IpNetwork>>
    decreases pieces.len(),
{
    if pieces.len() == 0 {
        Some(Seq::empty())
    } else {
        match cidr_list_value(pieces.drop_last()) {
            None => None,
            Some(prev) => {
                let t = trim_text(pieces.last());
                if t.len() == 0 {
                    Some(prev)
                } else {
                    match cidr_text_value(t) {
                        None => None,
                        Some(n) => Some(prev.push(n)),
                    }
                }
            },
        }
    }
}

/// Parses a comma-separated list of CIDR blocks.
pub fn parse_cidr_list(s: &str) -> (r: Result<Vec<IpNetwork>, ConfigError>)
    ensures
        match cidr_list_value(comma_pieces(s@)) {
            Some(nets) => r matches Ok(v) && v@ == nets,
            None => r is Err,
        },
{
    let pieces = split_commas(s);
    let ghost ps = comma_pieces(s@);
    let mut nets: Vec<IpNetwork> = Vec::new();
    let mut i: usize = 0;
    while i < pieces.len()
        invariant
            i <= pieces.len(),
            ps == comma_pieces(s@),
            pieces@.len() == ps.len(),
            forall|k: int| 0 <= k < pieces@.len() ==> #[trigger] pieces@[k]@ == ps[k],
            cidr_list_value(ps.take(i as int)) == Some(nets@),
        decreases pieces.len() - i,
    {
        assert(ps.take(i as int + 1).drop_last() == ps.take(i as int));
        let t = trim(pieces[i].as_str());
        assert(ps.take(i as int + 1).last() == ps[i as int]);
        if t.unicode_len() != 0 {
            match parse_cidr(t) {
                Some(n) => nets.push(n),
                None => {
                    proof {
                        assert(ps.take(i as int + 1).last() == ps[i as int]);
                        assert(cidr_list_value(ps.take(i as int + 1)) is None);
                        lemma_cidr_list_none_extends(ps, i as int + 1);
                    }
                    return Err(ConfigError::InvalidCidr { text: pieces[i].clone() });
                },
            }
        }
        i = i + 1;
    }
    assert(ps.take(pieces.len() as int) == ps);
    Ok(nets)
}

/// Once a prefix of the pieces fails to parse, every longer prefix does.
proof fn lemma_cidr_list_none_extends(ps: Seq<Seq<char>>, j: int)
    requires
        0 <= j <= ps.len(),
        cidr_list_value(ps.take(j)) is None,
    ensures
        cidr_list_value(ps) is None,
    decreases ps.len() - j,
{
    if j < ps.len() {
        assert(ps.take(j + 1).drop_last() == ps.take(j));
        lemma_cidr_list_none_extends(ps, j + 1);
    } else {
        assert(ps.take(j) == ps);
    }
}

/// The response matcher compiles.
pub open spec fn response_matcher_ok(m: ResponseMatcher) -> bool {
    match m {
        ResponseMatcher::RequestDomainRegex { value } => regex_compiles(value@),
        ResponseMatcher::ResponseUpstreamIp { cidr } => cidr_list_value(comma_pieces(cidr@)) is Some,
        ResponseMatcher::ResponseAnswerIp { cidr } => cidr_list_value(comma_pieces(cidr@)) is Some,
        ResponseMatcher::ResponseQclass { value } => class_code(ascii_upper(value@)) is Some,
        _ => true,
    }
}

pub open spec fn response_matcher_compiled(m: ResponseMatcher, rm: RuntimeResponseMatcher) -> bool {
    match (m, rm) {
        (ResponseMatcher::UpstreamEquals { value: a }, RuntimeResponseMatcher::UpstreamEquals { value: b }) => a == b,
        (
            ResponseMatcher::RequestDomainSuffix { value: a },
            RuntimeResponseMatcher::RequestDomainSuffix { value: b },
        ) => b@ == ascii_lower(a@),
        (ResponseMatcher::RequestDomainRegex { value }, RuntimeResponseMatcher::RequestDomainRegex { regex }) => regex.pattern()
            == value@,
        (ResponseMatcher::ResponseUpstreamIp { cidr }, RuntimeResponseMatcher::ResponseUpstreamIp { nets }) => cidr_list_value(
            comma_pieces(cidr@),
        ) == Some(nets@),
        (ResponseMatcher::ResponseAnswerIp { cidr }, RuntimeResponseMatcher::ResponseAnswerIp { nets }) => cidr_list_value(
            comma_pieces(cidr@),
        ) == Some(nets@),
        (ResponseMatcher::ResponseType { value: a }, RuntimeResponseMatcher::ResponseType { value: b }) => b@
            == ascii_upper(a@),
        (ResponseMatcher::ResponseRcode { value: a }, RuntimeResponseMatcher::ResponseRcode { value: b }) => b@
            == ascii_upper(a@),
        (ResponseMatcher::ResponseQclass { value: a }, RuntimeResponseMatcher::ResponseQclass { value: b }) => class_code(
            ascii_upper(a@),
        ) == Some(b),
        (
            ResponseMatcher::ResponseEdnsPresent { expect: a },
            RuntimeResponseMatcher::ResponseEdnsPresent { expect: b },
        ) => a == b,
        _ => false,
    }
}

impl RuntimeResponseMatcher {
    pub fn from_config(m: ResponseMatcher) -> (r: Result<RuntimeResponseMatcher, ConfigError>)
        ensures
            r is Ok <==> response_matcher_ok(m),
            r matches Ok(rm) ==> response_matcher_compiled(m, rm),
    {
        match m {
            ResponseMatcher::UpstreamEquals { value } => Ok(RuntimeResponseMatcher::UpstreamEquals { value }),
            ResponseMatcher::RequestDomainSuffix { value } => Ok(
                RuntimeResponseMatcher::RequestDomainSuffix { value: to_ascii_lower(value.as_str()) },
            ),
            ResponseMatcher::RequestDomainRegex { value } => match DomainRegex::new(value.as_str()) {
                Some(regex) => Ok(RuntimeResponseMatcher::RequestDomainRegex { regex }),
                None => Err(ConfigError::InvalidRegex { pattern: value }),
            },
            ResponseMatcher::ResponseUpstreamIp { cidr } => match parse_cidr_list(cidr.as_str()) {
                Ok(nets) => Ok(RuntimeResponseMatcher::ResponseUpstreamIp { nets }),
                Err(e) => Err(e),
            },
            ResponseMatcher::ResponseAnswerIp { cidr } => match parse_cidr_list(cidr.as_str()) {
                Ok(nets) => Ok(RuntimeResponseMatcher::ResponseAnswerIp { nets }),
                Err(e) => Err(e),
            },
            ResponseMatcher::ResponseType { value } => Ok(
                RuntimeResponseMatcher::ResponseType { value: to_ascii_upper(value.as_str()) },
            ),
            ResponseMatcher::ResponseRcode { value } => Ok(
                RuntimeResponseMatcher::ResponseRcode { value: to_ascii_upper(value.as_str()) },
            ),
            ResponseMatcher::ResponseQclass { value } => match parse_dns_class(value.as_str()) {
                Ok(c) => Ok(RuntimeResponseMatcher::ResponseQclass { value: c }),
                Err(e) => Err(e),
            },
            ResponseMatcher::ResponseEdnsPresent { expect } => Ok(
                RuntimeResponseMatcher::ResponseEdnsPresent { expect },
            ),
        }
    }
}

/// The operator an item ends up with: a non-default rule-level operator
/// replaces the items' operators when every item has the default `And`.
pub open spec fn effective_op(ops: Seq<MatchOperator>, rule_op: MatchOperator, i: int) -> MatchOperator {
    if ops.len() > 0 && rule_op != MatchOperator::And && (forall|k: int|
        0 <= k < ops.len() ==> ops[k] == MatchOperator::And) {
        rule_op
    } else {
        ops[i]
    }
}

pub open spec fn ops_of_matchers(ms: Seq<MatcherWithOp>) -> Seq<MatchOperator> {
    Seq::new(ms.len(), |i: int| ms[i].operator)
}

pub open spec fn ops_of_selectors(ms: Seq<PipelineSelectorMatcherWithOp>) -> Seq<MatchOperator> {
    Seq::new(ms.len(), |i: int| ms[i].operator)
}

pub open spec fn ops_of_response_matchers(ms: Seq<ResponseMatcherWithOp>) -> Seq<MatchOperator> {
    Seq::new(ms.len(), |i: int| ms[i].operator)
}

/// Every request matcher of the list compiles.
pub open spec fn matchers_ok(ms: Seq<MatcherWithOp>) -> bool {
    forall|i: int| 0 <= i < ms.len() ==> matcher_ok(#[trigger] ms[i].matcher)
}

/// `out` is the compiled list `ms` under the rule-level operator.
pub open spec fn matchers_compiled(ms: Seq<MatcherWithOp>, rule_op: MatchOperator, out: Seq<RuntimeMatcherWithOp>) -> bool {
    out.len() == ms.len() && forall|i: int|
        0 <= i < ms.len() ==> matcher_compiled(ms[i].matcher, #[trigger] out[i].matcher) && out[i].operator
            == effective_op(ops_of_matchers(ms), rule_op, i)
}

/// Whether every operator of the list is the default `And`.
pub fn all_default_ops(ops: &Vec<MatchOperator>) -> (r: bool)
    ensures
        r == (forall|k: int| 0 <= k < ops@.len() ==> ops@[k] == MatchOperator::And),
{
    let mut i: usize = 0;
    while i < ops.len()
        invariant
            i <= ops.len(),
            forall|k: int| 0 <= k < i ==> ops@[k] == MatchOperator::And,
        decreases ops.len() - i,
    {
        if ops[i] != MatchOperator::And {
            return false;
        }
        i = i + 1;
    }
    true
}

/// The operator to give item `i`, from the items' own operators.
fn pick_op(ops: &Vec<MatchOperator>, uniform: bool, rule_op: MatchOperator, i: usize) -> (r: MatchOperator)
    requires
        i < ops@.len(),
        uniform == (ops@.len() > 0 && rule_op != MatchOperator::And && (forall|k: int|
            0 <= k < ops@.len() ==> ops@[k] == MatchOperator::And)),
    ensures
        r == effective_op(ops@, rule_op, i as int),
{
    if uniform {
        rule_op
    } else {
        ops[i]
    }
}

/// Compiles the request matchers of a rule.
pub fn compile_matchers(ms: &Vec<MatcherWithOp>, rule_op: MatchOperator) -> (r: Result<Vec<RuntimeMatcherWithOp>, ConfigError>)
    ensures
        r is Ok <==> matchers_ok(ms@),
        r matches Ok(out) ==> matchers_compiled(ms@, rule_op, out@),
{
    let mut ops: Vec<MatchOperator> = Vec::new();
    let mut i: usize = 0;
    while i < ms.len()
        invariant
            i <= ms.len(),
            ops@ == ops_of_matchers(ms@).take(i as int),
        decreases ms.len() - i,
    {
        ops.push(ms[i].operator);
        assert(ops_of_matchers(ms@).take(i as int + 1) == ops_of_matchers(ms@).take(i as int).push(ms@[i as int].operator));
        i = i + 1;
    }
    assert(ops@ == ops_of_matchers(ms@));
    let uniform = ms.len() > 0 && rule_op != MatchOperator::And && all_default_ops(&ops);
    let mut out: Vec<RuntimeMatcherWithOp> = Vec::new();
    let mut j: usize = 0;
    while j < ms.len()
        invariant
            j <= ms.len(),
            ops@ == ops_of_matchers(ms@),
            uniform == (ops@.len() > 0 && rule_op != MatchOperator::And && (forall|k: int|
                0 <= k < ops@.len() ==> ops@[k] == MatchOperator::And)),
            out@.len() == j,
            forall|k: int| 0 <= k < j ==> matcher_ok(#[trigger] ms@[k].matcher),
            forall|k: int|
                0 <= k < j ==> matcher_compiled(ms@[k].matcher, #[trigger] out@[k].matcher) && out@[k].operator
                    == effective_op(ops_of_matchers(ms@), rule_op, k),
        decreases ms.len() - j,
    {
        let op = pick_op(&ops, uniform, rule_op, j);
        match RuntimeMatcher::from_config(ms[j].matcher.clone()) {
            Ok(m) => out.push(RuntimeMatcherWithOp { operator: op, matcher: m }),
            Err(e) => return Err(e),
        }
        j = j + 1;
    }
    Ok(out)
}

/// Every selector matcher of the list compiles.
pub open spec fn selectors_ok(ms: Seq<PipelineSelectorMatcherWithOp>) -> bool {
    forall|i: int| 0 <= i < ms.len() ==> selector_ok(#[trigger] ms[i].matcher)
}

pub open spec fn selectors_compiled(
    ms: Seq<PipelineSelectorMatcherWithOp>,
    rule_op: MatchOperator,
    out: Seq<RuntimePipelineSelectorMatcherWithOp>,
) -> bool {
    out.len() == ms.len() && forall|i: int|
        0 <= i < ms.len() ==> selector_compiled(ms[i].matcher, #[trigger] out[i].matcher) && out[i].operator
            == effective_op(ops_of_selectors(ms), rule_op, i)
}

/// Compiles the matchers of a pipeline selector.
pub fn compile_selectors(ms: &Vec<PipelineSelectorMatcherWithOp>, rule_op: MatchOperator) -> (r: Result<
    Vec<RuntimePipelineSelectorMatcherWithOp>,
    ConfigError,
>)
    ensures
        r is Ok <==> selectors_ok(ms@),
        r matches Ok(out) ==> selectors_compiled(ms@, rule_op, out@),
{
    let mut ops: Vec<MatchOperator> = Vec::new();
    let mut i: usize = 0;
    while i < ms.len()
        invariant
            i <= ms.len(),
            ops@ == ops_of_selectors(ms@).take(i as int),
        decreases ms.len() - i,
    {
        ops.push(ms[i].operator);
        assert(ops_of_selectors(ms@).take(i as int + 1) == ops_of_selectors(ms@).take(i as int).push(ms@[i as int].operator));
        i = i + 1;
    }
    assert(ops@ == ops_of_selectors(ms@));
    let uniform = ms.len() > 0 && rule_op != MatchOperator::And && all_default_ops(&ops);
    let mut out: Vec<RuntimePipelineSelectorMatcherWithOp> = Vec::new();
    let mut j: usize = 0;
    while j < ms.len()
        invariant
            j <= ms.len(),
            ops@ == ops_of_selectors(ms@),
            uniform == (ops@.len() > 0 && rule_op != MatchOperator::And && (forall|k: int|
                0 <= k < ops@.len() ==> ops@[k] == MatchOperator::And)),
            out@.len() == j,
            forall|k: int| 0 <= k < j ==> selector_ok(#[trigger] ms@[k].matcher),
            forall|k: int|
                0 <= k < j ==> selector_compiled(ms@[k].matcher, #[trigger] out@[k].matcher) && out@[k].operator
                    == effective_op(ops_of_selectors(ms@), rule_op, k),
        decreases ms.len() - j,
    {
        let op = pick_op(&ops, uniform, rule_op, j);
        match RuntimePipelineSelectorMatcher::from_config(ms[j].matcher.clone()) {
            Ok(m) => out.push(RuntimePipelineSelectorMatcherWithOp { operator: op, matcher: m }),
            Err(e) => return Err(e),
        }
        j = j + 1;
    }
    Ok(out)
}

/// Every response matcher of the list compiles.
pub open spec fn response_matchers_ok(ms: Seq<ResponseMatcherWithOp>) -> bool {
    forall|i: int| 0 <= i < ms.len() ==> response_matcher_ok(#[trigger] ms[i].matcher)
}

pub open spec fn response_matchers_compiled(
    ms: Seq<ResponseMatcherWithOp>,
    rule_op: MatchOperator,
    out: Seq<RuntimeResponseMatcherWithOp>,
) -> bool {
    out.len() == ms.len() && forall|i: int|
        0 <= i < ms.len() ==> response_matcher_compiled(ms[i].matcher, #[trigger] out[i].matcher) && out[i].operator
            == effective_op(ops_of_response_matchers(ms), rule_op, i)
}

/// Compiles the response matchers of a rule.
pub fn compile_response_matchers(ms: &Vec<ResponseMatcherWithOp>, rule_op: MatchOperator) -> (r: Result<
    Vec<RuntimeResponseMatcherWithOp>,
    ConfigError,
>)
    ensures
        r is Ok <==> response_matchers_ok(ms@),
        r matches Ok(out) ==> response_matchers_compiled(ms@, rule_op, out@),
{
    let mut ops: Vec<MatchOperator> = Vec::new();
    let mut i: usize = 0;
    while i < ms.len()
        invariant
            i <= ms.len(),
            ops@ == ops_of_response_matchers(ms@).take(i as int),
        decreases ms.len() - i,
    {
        ops.push(ms[i].operator);
        assert(ops_of_response_matchers(ms@).take(i as int + 1) == ops_of_response_matchers(ms@).take(i as int).push(
            ms@[i as int].operator,
        ));
        i = i + 1;
    }
    assert(ops@ == ops_of_response_matchers(ms@));
    let uniform = ms.len() > 0 && rule_op != MatchOperator::And && all_default_ops(&ops);
    let mut out: Vec<RuntimeResponseMatcherWithOp> = Vec::new();
    let mut j: usize = 0;
    while j < ms.len()
        invariant
            j <= ms.len(),
            ops@ == ops_of_response_matchers(ms@),
            uniform == (ops@.len() > 0 && rule_op != MatchOperator::And && (forall|k: int|
                0 <= k < ops@.len() ==> ops@[k] == MatchOperator::And)),
            out@.len() == j,
            forall|k: int| 0 <= k < j ==> response_matcher_ok(#[trigger] ms@[k].matcher),
            forall|k: int|
                0 <= k < j ==> response_matcher_compiled(ms@[k].matcher, #[trigger] out@[k].matcher)
                    && out@[k].operator == effective_op(ops_of_response_matchers(ms@), rule_op, k),
        decreases ms.len() - j,
    {
        let op = pick_op(&ops, uniform, rule_op, j);
        match RuntimeResponseMatcher::from_config(ms[j].matcher.clone()) {
            Ok(m) => out.push(RuntimeResponseMatcherWithOp { operator: op, matcher: m }),
            Err(e) => return Err(e),
        }
        j = j + 1;
    }
    Ok(out)
}

/// Every matcher of the rule compiles.
pub open spec fn rule_ok(r: Rule) -> bool {
    matchers_ok(r.matchers@) && response_matchers_ok(r.response_matchers@)
}

/// `rr` is the compiled form of `r`.
pub open spec fn rule_compiled(r: Rule, rr: RuntimeRule) -> bool {
    &&& rr.name == r.name
    &&& rr.matcher_operator == r.matcher_operator
    &&& matchers_compiled(r.matchers@, r.matcher_operator, rr.matchers@)
    &&& rr.actions@ == r.actions@
    &&& response_matchers_compiled(r.response_matchers@, r.response_matcher_operator, rr.response_matchers@)
    &&& rr.response_matcher_operator == r.response_matcher_operator
    &&& rr.response_actions_on_match@ == r.response_actions_on_match@
    &&& rr.response_actions_on_miss@ == r.response_actions_on_miss@
}

pub fn compile_rule_config(r: &Rule) -> (out: Result<RuntimeRule, ConfigError>)
    ensures
        out is Ok <==> rule_ok(*r),
        out matches Ok(rr) ==> rule_compiled(*r, rr),
{
    let matchers = match compile_matchers(&r.matchers, r.matcher_operator) {
        Ok(m) => m,
        Err(e) => return Err(e),
    };
    let response_matchers = match compile_response_matchers(&r.response_matchers, r.response_matcher_operator) {
        Ok(m) => m,
        Err(e) => return Err(e),
    };
    Ok(
        RuntimeRule {
            name: r.name.clone(),
            matcher_operator: r.matcher_operator,
            matchers,
            actions: clone_actions(&r.actions),
            response_matchers,
            response_matcher_operator: r.response_matcher_operator,
            response_actions_on_match: clone_actions(&r.response_actions_on_match),
            response_actions_on_miss: clone_actions(&r.response_actions_on_miss),
        },
    )
}

pub open spec fn pipeline_ok(p: Pipeline) -> bool {
    forall|i: int| 0 <= i < p.rules@.len() ==> rule_ok(#[trigger] p.rules@[i])
}

pub open spec fn pipeline_compiled(p: Pipeline, rp: RuntimePipeline) -> bool {
    rp.id == p.id && rp.rules@.len() == p.rules@.len() && forall|i: int|
        0 <= i < p.rules@.len() ==> rule_compiled(p.rules@[i], #[trigger] rp.rules@[i])
}

pub fn compile_pipeline_config(p: &Pipeline) -> (out: Result<RuntimePipeline, ConfigError>)
    ensures
        out is Ok <==> pipeline_ok(*p),
        out matches Ok(rp) ==> pipeline_compiled(*p, rp),
{
    let mut rules: Vec<RuntimeRule> = Vec::new();
    let mut i: usize = 0;
    while i < p.rules.len()
        invariant
            i <= p.rules@.len(),
            rules@.len() == i,
            forall|k: int| 0 <= k < i ==> rule_ok(#[trigger] p.rules@[k]),
            forall|k: int| 0 <= k < i ==> rule_compiled(p.rules@[k], #[trigger] rules@[k]),
        decreases p.rules@.len() - i,
    {
        match compile_rule_config(&p.rules[i]) {
            Ok(rr) => rules.push(rr),
            Err(e) => return Err(e),
        }
        i = i + 1;
    }
    Ok(RuntimePipeline { id: p.id.clone(), rules })
}

pub open spec fn select_rule_compiled(s: PipelineSelectRule, rs: RuntimePipelineSelectRule) -> bool {
    rs.pipeline == s.pipeline && rs.matcher_operator == s.matcher_operator && selectors_compiled(
        s.matchers@,
        s.matcher_operator,
        rs.matchers@,
    )
}

pub fn compile_select_rule(s: &PipelineSelectRule) -> (out: Result<RuntimePipelineSelectRule, ConfigError>)
    ensures
        out is Ok <==> selectors_ok(s.matchers@),
        out matches Ok(rs) ==> select_rule_compiled(*s, rs),
{
    match compile_selectors(&s.matchers, s.matcher_operator) {
        Ok(matchers) => Ok(
            RuntimePipelineSelectRule { pipeline: s.pipeline.clone(), matchers, matcher_operator: s.matcher_operator },
        ),
        Err(e) => Err(e),
    }
}

/// Every pipeline and every selector of the configuration compiles.
pub open spec fn config_ok(cfg: PipelineConfig) -> bool {
    &&& forall|i: int| 0 <= i < cfg.pipelines@.len() ==> pipeline_ok(#[trigger] cfg.pipelines@[i])
    &&& forall|i: int| 0 <= i < cfg.pipeline_select@.len() ==> selectors_ok(#[trigger] cfg.pipeline_select@[i].matchers@)
}

/// `rc` is the compiled form of `cfg`, in the same order.
pub open spec fn config_compiled(cfg: PipelineConfig, rc: RuntimePipelineConfig) -> bool {
    &&& rc.settings == cfg.settings
    &&& rc.pipelines@.len() == cfg.pipelines@.len()
    &&& forall|i: int| 0 <= i < cfg.pipelines@.len() ==> pipeline_compiled(cfg.pipelines@[i], #[trigger] rc.pipelines@[i])
    &&& rc.pipeline_select@.len() == cfg.pipeline_select@.len()
    &&& forall|i: int|
        0 <= i < cfg.pipeline_select@.len() ==> select_rule_compiled(cfg.pipeline_select@[i], #[trigger] rc.pipeline_select@[i])
}

impl RuntimePipelineConfig {
    /// Compiles a configuration: lowercases suffixes, parses CIDRs, regexes
    /// and classes, and applies rule-level operators.
    pub fn from_config(cfg: PipelineConfig) -> (r: Result<RuntimePipelineConfig, ConfigError>)
        ensures
            r is Ok <==> config_ok(cfg),
            r matches Ok(rc) ==> config_compiled(cfg, rc),
    {
        let mut pipelines: Vec<RuntimePipeline> = Vec::new();
        let mut i: usize = 0;
        while i < cfg.pipelines.len()
            invariant
                i <= cfg.pipelines@.len(),
                pipelines@.len() == i,
                forall|k: int| 0 <= k < i ==> pipeline_ok(#[trigger] cfg.pipelines@[k]),
                forall|k: int| 0 <= k < i ==> pipeline_compiled(cfg.pipelines@[k], #[trigger] pipelines@[k]),
            decreases cfg.pipelines@.len() - i,
        {
            match compile_pipeline_config(&cfg.pipelines[i]) {
                Ok(p) => pipelines.push(p),
                Err(e) => return Err(e),
            }
            i = i + 1;
        }
        let mut pipeline_select: Vec<RuntimePipelineSelectRule> = Vec::new();
        let mut j: usize = 0;
        while j < cfg.pipeline_select.len()
            invariant
                j <= cfg.pipeline_select@.len(),
                pipeline_select@.len() == j,
                forall|k: int| 0 <= k < cfg.pipelines@.len() ==> pipeline_ok(#[trigger] cfg.pipelines@[k]),
                forall|k: int| 0 <= k < j ==> selectors_ok(#[trigger] cfg.pipeline_select@[k].matchers@),
                forall|k: int|
                    0 <= k < j ==> select_rule_compiled(cfg.pipeline_select@[k], #[trigger] pipeline_select@[k]),
            decreases cfg.pipeline_select@.len() - j,
        {
            match compile_select_rule(&cfg.pipeline_select[j]) {
                Ok(s) => pipeline_select.push(s),
                Err(e) => return Err(e),
            }
            j = j + 1;
        }
        Ok(RuntimePipelineConfig { settings: cfg.settings, pipeline_select, pipelines })
    }

    /// TTL floor, in seconds.
    pub fn min_ttl(&self) -> (r: u64)
        ensures
            r == self.settings.min_ttl as u64,
    {
        self.settings.min_ttl as u64
    }

    /// Upstream timeout, in milliseconds.
    pub fn upstream_timeout(&self) -> (r: u64)
        ensures
            r == self.settings.upstream_timeout_ms,
    {
        self.settings.upstream_timeout_ms
    }
}

/// A request matcher passes the load-time check: its CIDR parses.
pub open spec fn matcher_loadable(m: Matcher) -> bool {
    m matches Matcher::ClientIp { cidr } ==> cidr_text_value(cidr@) is Some
}

/// A response matcher passes the load-time check: a request-domain suffix
/// is not empty and CIDR lists parse.
pub open spec fn response_matcher_loadable(m: ResponseMatcher) -> bool {
    match m {
        ResponseMatcher::RequestDomainSuffix { value } => value@.len() > 0,
        ResponseMatcher::ResponseUpstreamIp { cidr } => cidr_list_value(comma_pieces(cidr@)) is Some,
        ResponseMatcher::ResponseAnswerIp { cidr } => cidr_list_value(comma_pieces(cidr@)) is Some,
        _ => true,
    }
}

pub open spec fn rule_loadable(r: Rule) -> bool {
    &&& forall|i: int| 0 <= i < r.matchers@.len() ==> matcher_loadable(#[trigger] r.matchers@[i].matcher)
    &&& forall|i: int| 0 <= i < r.response_matchers@.len() ==> response_matcher_loadable(#[trigger] r.response_matchers@[i].matcher)
}

pub open spec fn selector_matcher_loadable(m: PipelineSelectorMatcher) -> bool {
    m matches PipelineSelectorMatcher::ClientIp { cidr } ==> cidr_text_value(cidr@) is Some
}

pub open spec fn selector_loadable(s: PipelineSelectRule) -> bool {
    forall|i: int| 0 <= i < s.matchers@.len() ==> selector_matcher_loadable(#[trigger] s.matchers@[i].matcher)
}

/// The configuration passes the load-time checks.
pub open spec fn config_loadable(cfg: PipelineConfig) -> bool {
    &&& forall|p: int, r: int|
        0 <= p < cfg.pipelines@.len() && 0 <= r < cfg.pipelines@[p].rules@.len() ==> rule_loadable(
            #[trigger] cfg.pipelines@[p].rules@[r],
        )
    &&& forall|k: int| 0 <= k < cfg.pipeline_select@.len() ==> selector_loadable(#[trigger] cfg.pipeline_select@[k])
}

fn check_rule(r: &Rule) -> (res: Result<(), ConfigError>)
    ensures
        res is Ok <==> rule_loadable(*r),
{
    let mut i: usize = 0;
    while i < r.matchers.len()
        invariant
            i <= r.matchers@.len(),
            forall|k: int| 0 <= k < i ==> matcher_loadable(#[trigger] r.matchers@[k].matcher),
        decreases r.matchers@.len() - i,
    {
        if let Matcher::ClientIp { cidr } = &r.matchers[i].matcher {
            if parse_cidr(cidr.as_str()).is_none() {
                return Err(ConfigError::InvalidCidr { text: cidr.clone() });
            }
        }
        i = i + 1;
    }
    let mut j: usize = 0;
    while j < r.response_matchers.len()
        invariant
            j <= r.response_matchers@.len(),
            forall|k: int| 0 <= k < r.matchers@.len() ==> matcher_loadable(#[trigger] r.matchers@[k].matcher),
            forall|k: int| 0 <= k < j ==> response_matcher_loadable(#[trigger] r.response_matchers@[k].matcher),
        decreases r.response_matchers@.len() - j,
    {
        match &r.response_matchers[j].matcher {
            ResponseMatcher::RequestDomainSuffix { value } => {
                if value.unicode_len() == 0 {
                    return Err(ConfigError::EmptyRequestDomainSuffix);
                }
            },
            ResponseMatcher::ResponseUpstreamIp { cidr } => {
                if let Err(e) = parse_cidr_list(cidr.as_str()) {
                    return Err(e);
                }
            },
            ResponseMatcher::ResponseAnswerIp { cidr } => {
                if let Err(e) = parse_cidr_list(cidr.as_str()) {
                    return Err(e);
                }
            },
            _ => {},
        }
        j = j + 1;
    }
    Ok(())
}

/// The checks made when a configuration file is loaded: CIDRs parse ahead of
/// use, and a response-phase request-domain suffix is not empty.
pub fn check_config(cfg: &PipelineConfig) -> (res: Result<(), ConfigError>)
    ensures
        res is Ok <==> config_loadable(*cfg),
{
    let mut p: usize = 0;
    while p < cfg.pipelines.len()
        invariant
            p <= cfg.pipelines@.len(),
            forall|q: int, r: int|
                0 <= q < p && 0 <= r < cfg.pipelines@[q].rules@.len() ==> rule_loadable(#[trigger] cfg.pipelines@[q].rules@[r]),
        decreases cfg.pipelines@.len() - p,
    {
        let rules = &cfg.pipelines[p].rules;
        let mut r: usize = 0;
        while r < rules.len()
            invariant
                p < cfg.pipelines@.len(),
                *rules == cfg.pipelines@[p as int].rules,
                r <= rules@.len(),
                forall|q: int, r2: int|
                    0 <= q < p && 0 <= r2 < cfg.pipelines@[q].rules@.len() ==> rule_loadable(#[trigger] cfg.pipelines@[q].rules@[r2]),
                forall|r2: int| 0 <= r2 < r ==> rule_loadable(#[trigger] rules@[r2]),
            decreases rules@.len() - r,
        {
            if let Err(e) = check_rule(&rules[r]) {
                return Err(e);
            }
            r = r + 1;
        }
        p = p + 1;
    }
    let mut k: usize = 0;
    while k < cfg.pipeline_select.len()
        invariant
            k <= cfg.pipeline_select@.len(),
            forall|q: int, r: int|
                0 <= q < cfg.pipelines@.len() && 0 <= r < cfg.pipelines@[q].rules@.len() ==> rule_loadable(
                    #[trigger] cfg.pipelines@[q].rules@[r],
                ),
            forall|m: int| 0 <= m < k ==> selector_loadable(#[trigger] cfg.pipeline_select@[m]),
        decreases cfg.pipeline_select@.len() - k,
    {
        let sel = &cfg.pipeline_select[k];
        let mut i: usize = 0;
        while i < sel.matchers.len()
            invariant
                k < cfg.pipeline_select@.len(),
                *sel == cfg.pipeline_select@[k as int],
                i <= sel.matchers@.len(),
                forall|q: int, r: int|
                    0 <= q < cfg.pipelines@.len() && 0 <= r < cfg.pipelines@[q].rules@.len() ==> rule_loadable(
                        #[trigger] cfg.pipelines@[q].rules@[r],
                    ),
                forall|m: int| 0 <= m < k ==> selector_loadable(#[trigger] cfg.pipeline_select@[m]),
                forall|j: int| 0 <= j < i ==> selector_matcher_loadable(#[trigger] sel.matchers@[j].matcher),
            decreases sel.matchers@.len() - i,
        {
            if let PipelineSelectorMatcher::ClientIp { cidr } = &sel.matchers[i].matcher {
                if parse_cidr(cidr.as_str()).is_none() {
                    return Err(ConfigError::InvalidCidr { text: cidr.clone() });
                }
            }
            i = i + 1;
        }
        k = k + 1;
    }
    Ok(())
}

} // verus!
