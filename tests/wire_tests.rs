use kixdns::config::{GlobalSettings, MatchOperator};
use kixdns::engine::{
    fast_path_reply,
    calculate_cache_hash_for_dedupe, fast_static_match, rewrite_tx_id, CacheEntry, Decision, Inflight, StaticAnswer,
    RCODE_NOERROR, RCODE_NXDOMAIN, RCODE_REFUSED,
};
use kixdns::index::{
    CompiledMatcher, CompiledMatcherWithOp, CompiledPipeline, CompiledRule, PrecomputedAction, RuleIndex,
};
use kixdns::matcher::{CLASS_IN, TYPE_A, TYPE_AAAA};
use kixdns::message::{build_response, decode_response_facts, extract_ttl};
use kixdns::net::IpAddress;
use kixdns::quick::{parse_quick, parse_response_quick};

fn encode_query(tx_id: u16, name: &str, qtype: u16, qclass: u16) -> Vec<u8> {
    let mut p = vec![(tx_id >> 8) as u8, tx_id as u8, 0x01, 0x00, 0, 1, 0, 0, 0, 0, 0, 0];
    for label in name.split('.').filter(|l| !l.is_empty()) {
        p.push(label.len() as u8);
        p.extend_from_slice(label.as_bytes());
    }
    p.push(0);
    p.extend_from_slice(&qtype.to_be_bytes());
    p.extend_from_slice(&qclass.to_be_bytes());
    p
}

fn localhost() -> IpAddress {
    IpAddress::V4(u32::from_be_bytes([127, 0, 0, 1]))
}

#[test]
fn quick_parse_reads_encoded_query() {
    let p = encode_query(0x1234, "WWW.Example.com.", TYPE_AAAA, CLASS_IN);
    let q = parse_quick(&p).expect("parse");
    assert_eq!(q.tx_id, 0x1234);
    assert_eq!(q.qname, "www.example.com");
    assert_eq!(q.qtype, TYPE_AAAA);
    assert_eq!(q.qclass, CLASS_IN);
}

#[test]
fn quick_parse_round_trips_long_ascii_name() {
    let label = "a".repeat(63);
    let name = format!("{0}.{0}.{0}.{1}", label, "b".repeat(61));
    assert_eq!(name.len(), 253);
    let p = encode_query(7, &name, TYPE_A, CLASS_IN);
    let q = parse_quick(&p).expect("parse");
    assert_eq!(q.qname, name);
    assert_eq!(q.tx_id, 7);
}

#[test]
fn quick_parse_rejects_short_and_empty() {
    assert!(parse_quick(&[0u8; 11]).is_none());
    let mut p = encode_query(1, "a.b", TYPE_A, CLASS_IN);
    p[5] = 0;
    assert!(parse_quick(&p).is_none());
    let p2 = encode_query(1, "a.b", TYPE_A, CLASS_IN);
    assert!(parse_quick(&p2[..p2.len() - 1]).is_none());
}

#[test]
fn quick_parse_follows_pointer() {
    // name at 12 is a pointer to offset 18, which holds "ab" then the root
    let mut p = vec![0, 9, 1, 0, 0, 1, 0, 0, 0, 0, 0, 0];
    p.extend_from_slice(&[0xC0, 18]);
    p.extend_from_slice(&[0, 1, 0, 1]);
    p.extend_from_slice(&[2, b'A', b'b', 0]);
    let q = parse_quick(&p).expect("parse");
    assert_eq!(q.qname, "ab");
    assert_eq!(q.qtype, 1);
    assert_eq!(q.qclass, 1);
}

#[test]
fn quick_parse_rejects_pointer_loops() {
    let mut p = vec![0, 9, 1, 0, 0, 1, 0, 0, 0, 0, 0, 0];
    p.extend_from_slice(&[0xC0, 12, 0, 1, 0, 1]);
    assert!(parse_quick(&p).is_none());
    // two pointers that point at each other
    let mut q = vec![0, 9, 1, 0, 0, 1, 0, 0, 0, 0, 0, 0];
    q.extend_from_slice(&[0xC0, 14, 0xC0, 12, 0, 1, 0, 1]);
    assert!(parse_quick(&q).is_none());
}

fn response_with_ttls(rcode_low: u8, ttls: &[u32]) -> Vec<u8> {
    let mut p = vec![0, 1, 0x81, 0x80 | rcode_low, 0, 1, 0, ttls.len() as u8, 0, 0, 0, 0];
    p.extend_from_slice(&[1, b'a', 0, 0, 1, 0, 1]);
    for ttl in ttls {
        p.extend_from_slice(&[0xC0, 12, 0, 1, 0, 1]);
        p.extend_from_slice(&ttl.to_be_bytes());
        p.extend_from_slice(&[0, 4, 10, 0, 0, 1]);
    }
    p
}

#[test]
fn quick_response_reports_rcode_and_min_ttl() {
    let r = parse_response_quick(&response_with_ttls(3, &[300, 60, 120])).expect("parse");
    assert_eq!(r.rcode, 3);
    assert_eq!(r.min_ttl, 60);
    let none = parse_response_quick(&response_with_ttls(0, &[])).expect("parse");
    assert_eq!(none.min_ttl, 0);
    assert!(parse_response_quick(&[0u8; 5]).is_none());
}

#[test]
fn quick_response_agrees_with_full_decode() {
    let bytes = response_with_ttls(2, &[30, 20]);
    let quick = parse_response_quick(&bytes).expect("quick");
    let full = decode_response_facts(&bytes).expect("full");
    assert_eq!(quick.rcode, full.rcode);
    assert_eq!(quick.min_ttl, extract_ttl(&full));
}

#[test]
fn candidates_are_sorted_unique_and_complete() {
    let mut idx = RuleIndex::new();
    let suffix = |s: &str| CompiledRule {
        rule_idx: 0,
        matcher_operator: MatchOperator::And,
        matchers: vec![CompiledMatcherWithOp {
            operator: MatchOperator::And,
            matcher: CompiledMatcher::DomainSuffix { suffix: s.to_string() },
        }],
        precomputed: None,
    };
    let exact = CompiledRule {
        rule_idx: 0,
        matcher_operator: MatchOperator::And,
        matchers: vec![CompiledMatcherWithOp {
            operator: MatchOperator::And,
            matcher: CompiledMatcher::DomainExact { domain: "www.example.com".to_string() },
        }],
        precomputed: None,
    };
    let qtype = CompiledRule {
        rule_idx: 0,
        matcher_operator: MatchOperator::And,
        matchers: vec![CompiledMatcherWithOp { operator: MatchOperator::And, matcher: CompiledMatcher::QueryType { qtype: TYPE_AAAA } }],
        precomputed: None,
    };
    let mixed = CompiledRule {
        rule_idx: 0,
        matcher_operator: MatchOperator::And,
        matchers: vec![
            CompiledMatcherWithOp { operator: MatchOperator::And, matcher: CompiledMatcher::DomainSuffix { suffix: "x.org".into() } },
            CompiledMatcherWithOp { operator: MatchOperator::Or, matcher: CompiledMatcher::Qclass { qclass: CLASS_IN } },
        ],
        precomputed: None,
    };
    idx.add_rule(5, &suffix("example.com"));
    idx.add_rule(1, &exact);
    idx.add_rule(3, &suffix("com"));
    idx.add_rule(4, &qtype);
    idx.add_rule(2, &mixed);
    idx.add_rule(0, &suffix(""));
    idx.add_rule(6, &suffix("ample.com"));
    assert_eq!(idx.always_check, vec![2, 0]);
    assert_eq!(idx.get_candidates("www.example.com", TYPE_A), vec![0, 1, 2, 3, 5]);
    assert_eq!(idx.get_candidates("www.example.com", TYPE_AAAA), vec![0, 1, 2, 3, 4, 5]);
    assert_eq!(idx.get_candidates("other.net", TYPE_A), vec![0, 2]);
}

#[test]
fn fast_path_answers_static_rules_only() {
    let mut index = RuleIndex::new();
    let rules = vec![
        CompiledRule {
            rule_idx: 0,
            matcher_operator: MatchOperator::And,
            matchers: vec![CompiledMatcherWithOp {
                operator: MatchOperator::And,
                matcher: CompiledMatcher::DomainSuffix { suffix: "blocked.test".into() },
            }],
            precomputed: Some(PrecomputedAction::Static { rcode: RCODE_REFUSED }),
        },
        CompiledRule {
            rule_idx: 1,
            matcher_operator: MatchOperator::And,
            matchers: vec![CompiledMatcherWithOp {
                operator: MatchOperator::And,
                matcher: CompiledMatcher::DomainSuffix { suffix: "static.test".into() },
            }],
            precomputed: Some(PrecomputedAction::StaticIp { ip: "10.0.0.1".into() }),
        },
        CompiledRule { rule_idx: 2, matcher_operator: MatchOperator::And, matchers: vec![], precomputed: None },
    ];
    for (i, r) in rules.iter().enumerate() {
        index.add_rule(i, r);
    }
    let p = CompiledPipeline { id: "p".into(), rules, index };
    match fast_static_match(&p, "x.blocked.test", TYPE_A, CLASS_IN, localhost(), false) {
        Some(Decision::Static { rcode, .. }) => assert_eq!(rcode, RCODE_REFUSED),
        _ => panic!("expected refused"),
    }
    match fast_static_match(&p, "foo.static.test", TYPE_A, CLASS_IN, localhost(), false) {
        Some(Decision::Static { rcode, answers }) => {
            assert_eq!(rcode, RCODE_NOERROR);
            assert_eq!(answers.len(), 1);
            assert_eq!(answers[0].ttl, 300);
            assert_eq!(answers[0].ip, IpAddress::V4(u32::from_be_bytes([10, 0, 0, 1])));
        },
        _ => panic!("expected static ip"),
    }
    assert!(fast_static_match(&p, "free.example", TYPE_A, CLASS_IN, localhost(), false).is_none());
}

#[test]
fn cache_hit_rewrites_transaction_id() {
    let first = build_response(0x1234, true, "a.example.", TYPE_A, CLASS_IN, RCODE_NXDOMAIN, &vec![]).expect("encode");
    assert_eq!(&first[0..2], &[0x12, 0x34]);
    assert_eq!(parse_response_quick(&first).expect("parse").rcode, RCODE_NXDOMAIN);
    let entry = CacheEntry {
        bytes: first.clone(),
        rcode: RCODE_NXDOMAIN,
        source: "static".into(),
        qname: "a.example".into(),
        pipeline_id: "p".into(),
        qtype: TYPE_A,
    };
    let second = entry.reply_for("p", "a.example", TYPE_A, 0xABCD).expect("hit");
    assert_eq!(&second[0..2], &[0xAB, 0xCD]);
    assert_eq!(&second[2..], &first[2..]);
    assert_eq!(parse_response_quick(&second).expect("parse").rcode, RCODE_NXDOMAIN);
    assert!(entry.reply_for("q", "a.example", TYPE_A, 1).is_none());
    assert!(entry.reply_for("p", "b.example", TYPE_A, 1).is_none());
    assert!(entry.reply_for("p", "a.example", TYPE_AAAA, 1).is_none());
}

#[test]
fn static_ip_response_encodes_a_record() {
    let answers = vec![StaticAnswer { name: "foo.test.".into(), ttl: 300, ip: IpAddress::V4(u32::from_be_bytes([10, 0, 0, 1])) }];
    let bytes = build_response(42, true, "foo.test.", TYPE_A, CLASS_IN, RCODE_NOERROR, &answers).expect("encode");
    let facts = decode_response_facts(&bytes).expect("decode");
    assert_eq!(facts.rcode, RCODE_NOERROR);
    assert_eq!(facts.answer_types, vec![TYPE_A]);
    assert_eq!(facts.answer_ttls, vec![300]);
    assert_eq!(facts.answer_ips, vec![Some(IpAddress::V4(u32::from_be_bytes([10, 0, 0, 1])))]);
    assert_eq!(&bytes[0..2], &[0, 42]);
}

#[test]
fn deny_response_is_refused_without_answers() {
    let bytes = build_response(9, false, "x.test.", TYPE_A, CLASS_IN, RCODE_REFUSED, &vec![]).expect("encode");
    let facts = decode_response_facts(&bytes).expect("decode");
    assert_eq!(facts.rcode, RCODE_REFUSED);
    assert!(facts.answer_types.is_empty());
}

#[test]
fn single_flight_has_one_leader() {
    let mut table: Inflight<u16> = Inflight::new();
    let h = calculate_cache_hash_for_dedupe("p", "x.example.", TYPE_A);
    assert_eq!(h, calculate_cache_hash_for_dedupe("p", "X.EXAMPLE.", TYPE_A));
    let mut leaders = 0;
    for id in 0..100u16 {
        if table.join(h) {
            leaders += 1;
        } else {
            table.add_waiter(h, id);
        }
    }
    assert_eq!(leaders, 1);
    let shared = build_response(0, true, "x.example.", TYPE_A, CLASS_IN, RCODE_NOERROR, &vec![]).expect("encode");
    let waiters = table.finish(h);
    assert_eq!(waiters.len(), 99);
    for id in waiters {
        let reply = rewrite_tx_id(&shared, id);
        assert_eq!(u16::from_be_bytes([reply[0], reply[1]]), id);
        assert_eq!(&reply[2..], &shared[2..]);
    }
    assert!(table.join(h));
}

#[test]
fn settings_defaults() {
    let s = GlobalSettings::default();
    assert_eq!(s.min_ttl, 0);
    assert_eq!(s.bind_udp, "0.0.0.0:5353");
    assert_eq!(s.bind_tcp, "0.0.0.0:5353");
    assert_eq!(s.default_upstream, "1.1.1.1:53");
    assert_eq!(s.upstream_timeout_ms, 2000);
    assert_eq!(s.response_jump_limit, 10);
    assert_eq!(s.udp_pool_size, 64);
    assert_eq!(s.tcp_pool_size, 64);
}

#[test]
fn effective_ttl_takes_floor() {
    assert_eq!(kixdns::engine::effective_ttl(30, 60), 60);
    assert_eq!(kixdns::engine::effective_ttl(300, 60), 300);
    assert_eq!(kixdns::engine::effective_ttl(0, 0), 0);
}

#[test]
fn jump_budget_counts_transitions() {
    let mut b = kixdns::engine::JumpBudget::new(3);
    assert_eq!(b.left(), 3);
    b.spend(2);
    assert_eq!(b.left(), 1);
    b.spend(1);
    assert_eq!(b.left(), 0);
}

#[test]
fn reply_cache_ttl_needs_match() {
    assert_eq!(kixdns::engine::reply_cache_ttl(false, 300, 60), 0);
    assert_eq!(kixdns::engine::reply_cache_ttl(true, 30, 60), 60);
    assert_eq!(kixdns::engine::reply_cache_ttl(true, 300, 60), 300);
}

#[test]
fn fast_path_reply_keeps_transaction_id() {
    let mut index = RuleIndex::new();
    let rules = vec![CompiledRule {
        rule_idx: 0,
        matcher_operator: MatchOperator::And,
        matchers: vec![],
        precomputed: Some(PrecomputedAction::Static { rcode: RCODE_NXDOMAIN }),
    }];
    index.add_rule(0, &rules[0]);
    let p = CompiledPipeline { id: "p".into(), rules, index };
    let query = encode_query(0xBEEF, "a.example", TYPE_A, CLASS_IN);
    let reply = fast_path_reply(None, "p", Some(&p), &query, localhost()).expect("static");
    assert_eq!(&reply[0..2], &[0xBE, 0xEF]);
    assert_eq!(parse_response_quick(&reply).unwrap().rcode, RCODE_NXDOMAIN);
    let entry = CacheEntry {
        bytes: reply.clone(),
        rcode: RCODE_NXDOMAIN,
        source: "static".into(),
        qname: "a.example".into(),
        pipeline_id: "p".into(),
        qtype: TYPE_A,
    };
    let again = encode_query(0x0102, "a.example", TYPE_A, CLASS_IN);
    let hit = fast_path_reply(Some(&entry), "p", None, &again, localhost()).expect("hit");
    assert_eq!(&hit[0..2], &[0x01, 0x02]);
    assert!(fast_path_reply(None, "p", None, &again, localhost()).is_none());
}

#[test]
fn min_ttl_is_true_minimum() {
    let r = parse_response_quick(&response_with_ttls(0, &[u32::MAX, u32::MAX])).expect("parse");
    assert_eq!(r.min_ttl, u32::MAX);
}
