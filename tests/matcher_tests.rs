use std::str::FromStr;

use hickory_proto::op::{Edns, Message, ResponseCode};
use hickory_proto::rr::rdata::{A, AAAA};
use hickory_proto::rr::{Name, RData, Record};

use kixdns::chain::{apply_match_operator, eval_match_chain};
use kixdns::config::{GlobalSettings, MatchOperator, Pipeline, PipelineConfig, ResponseMatcher, ResponseMatcherWithOp, Rule};
use kixdns::runtime::{check_config, parse_dns_class, ConfigError};
use kixdns::matcher::{
    DomainRegex, RuntimeMatcher, RuntimePipelineSelectorMatcher, RuntimeResponseMatcher, CLASS_CH, CLASS_IN, TYPE_A,
    TYPE_AAAA,
};
use kixdns::message::{decode_response_facts, ResponseFacts};
use kixdns::net::{parse_cidr, try_parse_upstream_ip, IpAddress};

fn v4(a: u8, b: u8, c: u8, d: u8) -> IpAddress {
    IpAddress::V4(u32::from_be_bytes([a, b, c, d]))
}

fn facts_of(msg: &Message) -> ResponseFacts {
    let bytes = msg.to_vec().expect("encode");
    decode_response_facts(&bytes).expect("decode")
}

fn build_message(rcode: ResponseCode, edns_present: bool) -> ResponseFacts {
    let mut msg = Message::new();
    msg.set_response_code(rcode);
    if edns_present {
        msg.set_edns(Edns::new());
    }
    let name = Name::from_str("example.com").unwrap();
    let record = Record::from_rdata(name, 300, RData::A(A::new(1, 2, 3, 4)));
    msg.add_answer(record);
    facts_of(&msg)
}

fn build_message_with_ipv6(rcode: ResponseCode, edns_present: bool) -> ResponseFacts {
    let mut msg = Message::new();
    msg.set_response_code(rcode);
    if edns_present {
        msg.set_edns(Edns::new());
    }
    let name = Name::from_str("example.com").unwrap();
    let record = Record::from_rdata(name, 300, RData::AAAA(AAAA::new(0x2001, 0xdb8, 0, 0, 0, 0, 0, 1)));
    msg.add_answer(record);
    facts_of(&msg)
}

#[test]
fn runtime_response_matchers_cover_readme_cases() {
    let qname = "sub.example.com";
    let upstream = "1.1.1.1:53".to_string();
    let qtype = TYPE_A;
    let qclass = CLASS_IN;
    let msg = build_message(ResponseCode::NoError, true);

    assert!(RuntimeResponseMatcher::UpstreamEquals { value: upstream.clone() }.matches(&upstream, qname, qtype, qclass, &msg));
    assert!(RuntimeResponseMatcher::RequestDomainSuffix { value: "example.com".into() }
        .matches(&upstream, qname, qtype, qclass, &msg));
    assert!(RuntimeResponseMatcher::RequestDomainRegex { regex: DomainRegex::new(".*example\\.com$").unwrap() }
        .matches(&upstream, qname, qtype, qclass, &msg));
    assert!(RuntimeResponseMatcher::ResponseType { value: "A".into() }.matches(&upstream, qname, qtype, qclass, &msg));
    assert!(RuntimeResponseMatcher::ResponseRcode { value: "NOERROR".into() }.matches(&upstream, qname, qtype, qclass, &msg));
    assert!(RuntimeResponseMatcher::ResponseQclass { value: CLASS_IN }.matches(&upstream, qname, qtype, qclass, &msg));
    assert!(RuntimeResponseMatcher::ResponseEdnsPresent { expect: true }.matches(&upstream, qname, qtype, qclass, &msg));
    assert!(RuntimeResponseMatcher::ResponseUpstreamIp { nets: vec![parse_cidr("1.1.1.0/24").unwrap()] }
        .matches(&upstream, qname, qtype, qclass, &msg));

    let msg_no_edns = build_message(ResponseCode::NXDomain, false);
    assert!(RuntimeResponseMatcher::ResponseEdnsPresent { expect: false }
        .matches(&upstream, qname, qtype, qclass, &msg_no_edns));

    let msg_ipv6 = build_message_with_ipv6(ResponseCode::NoError, true);
    assert!(RuntimeResponseMatcher::ResponseType { value: "AAAA".into() }
        .matches(&upstream, qname, TYPE_AAAA, qclass, &msg_ipv6));
}

#[test]
fn apply_match_operator_request_matchers() {
    let qname = "a.sub.example.com";
    let client_ip = v4(10, 0, 0, 1);
    let qclass = CLASS_IN;

    let m_and_true = vec![
        RuntimeMatcher::DomainSuffix { value: "example.com".into() },
        RuntimeMatcher::Qclass { value: CLASS_IN },
    ];
    let res_and: Vec<bool> = m_and_true.iter().map(|m| m.matches(qname, qclass, client_ip, true)).collect();
    assert!(apply_match_operator(&MatchOperator::And, &res_and));

    let m_and_false = vec![
        RuntimeMatcher::DomainSuffix { value: "example.com".into() },
        RuntimeMatcher::Qclass { value: CLASS_CH },
    ];
    let res_and_false: Vec<bool> = m_and_false.iter().map(|m| m.matches(qname, qclass, client_ip, true)).collect();
    assert!(!apply_match_operator(&MatchOperator::And, &res_and_false));

    let m_or = vec![
        RuntimeMatcher::DomainSuffix { value: "nomatch.local".into() },
        RuntimeMatcher::Qclass { value: CLASS_IN },
    ];
    let res_or: Vec<bool> = m_or.iter().map(|m| m.matches(qname, qclass, client_ip, true)).collect();
    assert!(apply_match_operator(&MatchOperator::Or, &res_or));

    let m_not_all_false = vec![
        RuntimeMatcher::DomainSuffix { value: "nomatch.local".into() },
        RuntimeMatcher::Qclass { value: CLASS_CH },
    ];
    let res_not: Vec<bool> = m_not_all_false.iter().map(|m| m.matches(qname, qclass, client_ip, true)).collect();
    assert!(apply_match_operator(&MatchOperator::Not, &res_not));

    let m_not_one_true = vec![
        RuntimeMatcher::DomainSuffix { value: "example.com".into() },
        RuntimeMatcher::Qclass { value: CLASS_CH },
    ];
    let res_not_false: Vec<bool> = m_not_one_true.iter().map(|m| m.matches(qname, qclass, client_ip, true)).collect();
    assert!(!apply_match_operator(&MatchOperator::Not, &res_not_false));
}

#[test]
fn apply_match_operator_response_matchers() {
    let qname = "sub.example.com";
    let upstream = "9.9.9.9:53".to_string();
    let qtype = TYPE_A;
    let qclass = CLASS_IN;
    let msg = build_message(ResponseCode::NoError, true);

    let rm_and_true = vec![
        RuntimeResponseMatcher::UpstreamEquals { value: upstream.clone() },
        RuntimeResponseMatcher::RequestDomainSuffix { value: "example.com".into() },
    ];
    let res_and: Vec<bool> = rm_and_true.iter().map(|m| m.matches(&upstream, qname, qtype, qclass, &msg)).collect();
    assert!(apply_match_operator(&MatchOperator::And, &res_and));

    let rm_or = vec![
        RuntimeResponseMatcher::UpstreamEquals { value: "nope:53".into() },
        RuntimeResponseMatcher::RequestDomainSuffix { value: "example.com".into() },
    ];
    let res_or: Vec<bool> = rm_or.iter().map(|m| m.matches(&upstream, qname, qtype, qclass, &msg)).collect();
    assert!(apply_match_operator(&MatchOperator::Or, &res_or));

    let rm_not_all_false = vec![
        RuntimeResponseMatcher::UpstreamEquals { value: "nope:53".into() },
        RuntimeResponseMatcher::RequestDomainSuffix { value: "nomatch.local".into() },
    ];
    let res_not: Vec<bool> = rm_not_all_false.iter().map(|m| m.matches(&upstream, qname, qtype, qclass, &msg)).collect();
    assert!(apply_match_operator(&MatchOperator::Not, &res_not));

    let rm_not_one_true = vec![
        RuntimeResponseMatcher::UpstreamEquals { value: upstream.clone() },
        RuntimeResponseMatcher::RequestDomainSuffix { value: "nomatch.local".into() },
    ];
    let res_not_false: Vec<bool> =
        rm_not_one_true.iter().map(|m| m.matches(&upstream, qname, qtype, qclass, &msg)).collect();
    assert!(!apply_match_operator(&MatchOperator::Not, &res_not_false));
}

#[test]
fn apply_match_operator_empty_iterator_boundary() {
    let empty: Vec<bool> = vec![];
    // And over empty -> true (all true)
    assert!(apply_match_operator(&MatchOperator::And, &empty));

    let empty2: Vec<bool> = Vec::new();
    // Or over empty -> false (any false)
    assert!(!apply_match_operator(&MatchOperator::Or, &empty2));

    let empty3: Vec<bool> = Vec::new();
    // Not over empty -> true (!any(empty) == true)
    assert!(apply_match_operator(&MatchOperator::Not, &empty3));
}

#[test]
fn runtime_pipeline_selector_matchers() {
    let listener_label = "edge-internal";
    let client_ip = v4(10, 1, 2, 3);
    let qname = "svc.example.com";

    assert!(RuntimePipelineSelectorMatcher::ListenerLabel { value: "edge-internal".into() }
        .matches(listener_label, client_ip, qname, CLASS_IN, false));
    assert!(RuntimePipelineSelectorMatcher::ClientIp { net: parse_cidr("10.1.2.0/24").unwrap() }
        .matches(listener_label, client_ip, qname, CLASS_IN, false));
    assert!(RuntimePipelineSelectorMatcher::DomainSuffix { value: "example.com".into() }
        .matches(listener_label, client_ip, qname, CLASS_IN, false));
}

#[test]
fn runtime_matcher_basic_behaviors() {
    let qname = "Foo.Example.COM".to_ascii_lowercase();
    let client_ip = v4(192, 0, 2, 5);
    let qclass = CLASS_IN;

    assert!(RuntimeMatcher::Any.matches(&qname, qclass, client_ip, false));
    assert!(RuntimeMatcher::DomainSuffix { value: "example.com".into() }.matches(&qname, qclass, client_ip, false));
    assert!(RuntimeMatcher::ClientIp { net: parse_cidr("192.0.2.0/24").unwrap() }.matches(&qname, qclass, client_ip, false));
    assert!(RuntimeMatcher::Qclass { value: CLASS_IN }.matches(&qname, qclass, client_ip, false));
    assert!(RuntimeMatcher::EdnsPresent { expect: false }.matches(&qname, qclass, client_ip, false));
}

#[test]
fn response_upstream_ip_parsing_and_nonparseable() {
    let qname = "sub.example.com";
    let qtype = TYPE_A;
    let qclass = CLASS_IN;
    let msg = build_message(ResponseCode::NoError, false);

    assert!(RuntimeResponseMatcher::ResponseUpstreamIp { nets: vec![parse_cidr("1.2.3.0/24").unwrap()] }
        .matches("1.2.3.4:53", qname, qtype, qclass, &msg));
    assert!(RuntimeResponseMatcher::ResponseUpstreamIp { nets: vec![parse_cidr("1.2.3.0/24").unwrap()] }
        .matches("1.2.3.4", qname, qtype, qclass, &msg));
    assert!(!RuntimeResponseMatcher::ResponseUpstreamIp { nets: vec![parse_cidr("1.2.3.0/24").unwrap()] }
        .matches("not-an-upstream", qname, qtype, qclass, &msg));
}

#[test]
fn domain_regex_case_insensitive_flag() {
    let qname = "Foo.Example.COM";
    let re_cs = DomainRegex::new("example\\.com$").unwrap();
    assert!(!RuntimeMatcher::DomainRegex { regex: re_cs }.matches(qname, CLASS_IN, v4(127, 0, 0, 1), false));

    let re_ci = DomainRegex::new("(?i)example\\.com$").unwrap();
    assert!(RuntimeMatcher::DomainRegex { regex: re_ci }.matches(qname, CLASS_IN, v4(127, 0, 0, 1), false));
}

#[test]
fn response_type_no_answers_uses_qtype_fallback() {
    let mut msg = Message::new();
    msg.set_response_code(ResponseCode::NoError);
    let facts = facts_of(&msg);

    let qname = "x.example.com";
    assert!(RuntimeResponseMatcher::ResponseType { value: "A".into() }.matches("1.2.3.4:53", qname, TYPE_A, CLASS_IN, &facts));
}

#[test]
fn response_answer_ip_checks_answers_then_additionals() {
    let msg = build_message(ResponseCode::NoError, false);
    let hit = RuntimeResponseMatcher::ResponseAnswerIp { nets: vec![parse_cidr("1.2.3.0/24").unwrap()] };
    let miss = RuntimeResponseMatcher::ResponseAnswerIp { nets: vec![parse_cidr("5.6.7.0/24").unwrap()] };
    assert!(hit.matches("1.1.1.1:53", "example.com", TYPE_A, CLASS_IN, &msg));
    assert!(!miss.matches("1.1.1.1:53", "example.com", TYPE_A, CLASS_IN, &msg));

    let mut with_extra = Message::new();
    let name = Name::from_str("ns.example.com").unwrap();
    with_extra.add_additional(Record::from_rdata(name, 60, RData::A(A::new(5, 6, 7, 8))));
    let facts = facts_of(&with_extra);
    assert!(miss.matches("1.1.1.1:53", "example.com", TYPE_A, CLASS_IN, &facts));
}

#[test]
fn response_rcode_names_and_other() {
    let nx = build_message(ResponseCode::NXDomain, false);
    assert!(RuntimeResponseMatcher::ResponseRcode { value: "NXDOMAIN".into() }.matches("u", "q", TYPE_A, CLASS_IN, &nx));
    assert!(!RuntimeResponseMatcher::ResponseRcode { value: "NOERROR".into() }.matches("u", "q", TYPE_A, CLASS_IN, &nx));
    let other = build_message(ResponseCode::YXDomain, false);
    assert!(RuntimeResponseMatcher::ResponseRcode { value: "OTHER".into() }.matches("u", "q", TYPE_A, CLASS_IN, &other));
}

#[test]
fn eval_match_chain_per_item_operators() {
    // empty chain holds
    assert!(eval_match_chain(&vec![]));
    // first operator is ignored
    assert!(!eval_match_chain(&vec![(MatchOperator::Or, false)]));
    assert!(eval_match_chain(&vec![(MatchOperator::And, false), (MatchOperator::Or, true)]));
    assert!(!eval_match_chain(&vec![(MatchOperator::And, true), (MatchOperator::AndNot, true)]));
    assert!(eval_match_chain(&vec![(MatchOperator::And, false), (MatchOperator::OrNot, false)]));
    assert!(!eval_match_chain(&vec![(MatchOperator::And, true), (MatchOperator::And, false), (MatchOperator::Or, false)]));
}

#[test]
fn empty_domain_suffix_matches_any_name() {
    let m = RuntimeMatcher::DomainSuffix { value: String::new() };
    assert!(m.matches("anything.example.", CLASS_IN, v4(10, 0, 0, 1), false));
    assert!(m.matches("", CLASS_IN, v4(10, 0, 0, 1), false));
}

#[test]
fn cidr_contains_prefix_bits() {
    let net = parse_cidr("10.1.2.0/24").unwrap();
    assert!(net.contains(&v4(10, 1, 2, 255)));
    assert!(!net.contains(&v4(10, 1, 3, 0)));
    let all = parse_cidr("0.0.0.0/0").unwrap();
    assert!(all.contains(&v4(8, 8, 8, 8)));
    let v6 = parse_cidr("2001:db8::/32").unwrap();
    assert!(!v6.contains(&v4(10, 1, 2, 3)));
    assert!(parse_cidr("10.0.0.0/33").is_none());
    assert!(parse_cidr("not-a-cidr").is_none());
}

#[test]
fn upstream_address_forms() {
    assert_eq!(try_parse_upstream_ip("1.2.3.4:53"), Some(v4(1, 2, 3, 4)));
    assert_eq!(try_parse_upstream_ip("1.2.3.4"), Some(v4(1, 2, 3, 4)));
    assert_eq!(try_parse_upstream_ip("[2001:db8::1]:53"), Some(IpAddress::V6(0x2001_0db8_0000_0000_0000_0000_0000_0001)));
    assert_eq!(try_parse_upstream_ip("2001:db8::1"), Some(IpAddress::V6(0x2001_0db8_0000_0000_0000_0000_0000_0001)));
    assert_eq!(try_parse_upstream_ip("1.2.3.4:99999"), None);
    assert_eq!(try_parse_upstream_ip("dns.example:53"), None);
}

#[test]
fn dns_class_names() {
    assert_eq!(parse_dns_class("in"), Ok(CLASS_IN));
    assert_eq!(parse_dns_class("CHAOS"), Ok(CLASS_CH));
    assert_eq!(parse_dns_class("ch"), Ok(CLASS_CH));
    assert_eq!(parse_dns_class("hs"), Ok(kixdns::matcher::CLASS_HS));
    assert!(parse_dns_class("any").is_err());
}

#[test]
fn load_time_checks() {
    let rule_with = |m: ResponseMatcher| Rule {
        name: "r".into(),
        matchers: vec![],
        matcher_operator: MatchOperator::And,
        actions: vec![],
        response_matchers: vec![ResponseMatcherWithOp { operator: MatchOperator::And, matcher: m }],
        response_matcher_operator: MatchOperator::And,
        response_actions_on_match: vec![],
        response_actions_on_miss: vec![],
    };
    let cfg = |m: ResponseMatcher| PipelineConfig {
        version: None,
        settings: GlobalSettings::default(),
        pipeline_select: vec![],
        pipelines: vec![Pipeline { id: "p".into(), rules: vec![rule_with(m)] }],
    };
    assert_eq!(
        check_config(&cfg(ResponseMatcher::RequestDomainSuffix { value: String::new() })),
        Err(ConfigError::EmptyRequestDomainSuffix)
    );
    assert!(check_config(&cfg(ResponseMatcher::ResponseAnswerIp { cidr: "10.0.0.0/8, ,192.168.0.0/16".into() })).is_ok());
    assert!(check_config(&cfg(ResponseMatcher::ResponseUpstreamIp { cidr: "10.0.0.0/8,bogus".into() })).is_err());
    assert!(check_config(&cfg(ResponseMatcher::RequestDomainSuffix { value: "example.com".into() })).is_ok());
}
