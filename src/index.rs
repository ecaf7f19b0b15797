//! Compiled pipelines and the rule index that narrows the rules a query has
//! to be checked against.
use vstd::prelude::*;
use std::collections::HashMap;
use std::hash::{Hash, Hasher};

use crate::config::{Action, MatchOperator};
use crate::engine::RCODE_REFUSED;
use crate::matcher::{DomainRegex, RuntimeMatcher, RuntimeMatcherWithOp, regex_finds};
use crate::runtime::{RuntimePipeline, RuntimePipelineConfig, RuntimeRule};
use crate::net::{IpAddress, IpNetwork};
use crate::text::{after_first_dot, ascii_lower, ascii_upper, dot_from, ends_with, eq_ignore_ascii_case, has_suffix,
    is_label_suffix, str_eq, strip_first_label, to_ascii_upper};

verus! {

broadcast use vstd::std_specs::hash::group_hash_axioms;

/// The FxHash digest of a text, as `rustc_hash` computes it.
pub uninterp spec fn text_fingerprint(s: Seq<char>) -> u64;

/// Relies on `rustc_hash::FxHasher` fed with `str`'s `Hash`: a fixed,
/// unseeded function of the text.
#[verifier::external_body]
pub(crate) fn fingerprint(s: &str) -> (r: u64)
    ensures
        r == text_fingerprint(s@),
{
    let mut h = rustc_hash::FxHasher::default();
    s.hash(&mut h);
    h.finish()
}

/// A matcher in the form the fast path evaluates.
#[derive(Clone, Debug)]
pub enum CompiledMatcher {
    DomainExact { domain: String },
    DomainSuffix { suffix: String },
    ClientIp { net: IpNetwork },
    QueryType { qtype: u16 },
    Qclass { qclass: u16 },
    Regex { regex: DomainRegex },
    Complex { matcher: RuntimeMatcher },
}

#[derive(Clone, Debug)]
pub struct CompiledMatcherWithOp {
    pub operator: MatchOperator,
    pub matcher: CompiledMatcher,
}

/// Response of a rule whose first action answers without an upstream.
#[derive(Clone, Debug)]
pub enum PrecomputedAction {
    Static { rcode: u16 },
    StaticIp { ip: String },
}

#[derive(Clone, Debug)]
pub struct CompiledRule {
    pub rule_idx: usize,
    pub matcher_operator: MatchOperator,
    pub matchers: Vec<CompiledMatcherWithOp>,
    pub precomputed: Option<PrecomputedAction>,
}

/// Where the index files a rule.
pub enum IndexSlot {
    Always,
    Exact(Seq<char>),
    Suffix(Seq<char>),
    Qtype(u16),
}

/// Every item after the first is combined with `And`.
pub open spec fn and_chain(ms: Seq<CompiledMatcherWithOp>) -> bool {
    forall|i: int| 1 <= i < ms.len() ==> #[trigger] ms[i].operator == MatchOperator::And
}

/// The matcher can key the index.
pub open spec fn indexable(m: CompiledMatcher) -> bool {
    match m {
        CompiledMatcher::DomainExact { domain } => domain@.len() > 0,
        CompiledMatcher::DomainSuffix { suffix } => suffix@.len() > 0,
        CompiledMatcher::QueryType { .. } => true,
        _ => false,
    }
}

pub open spec fn slot_of_matcher(m: CompiledMatcher) -> IndexSlot {
    match m {
        CompiledMatcher::DomainExact { domain } => IndexSlot::Exact(domain@),
        CompiledMatcher::DomainSuffix { suffix } => IndexSlot::Suffix(suffix@),
        CompiledMatcher::QueryType { qtype } => IndexSlot::Qtype(qtype),
        _ => IndexSlot::Always,
    }
}

/// Slot of the first indexable matcher at or after `i`.
pub open spec fn first_slot(ms: Seq<CompiledMatcherWithOp>, i: int) -> IndexSlot
    decreases ms.len() - i,
{
    if i < 0 || i >= ms.len() {
        IndexSlot::Always
    } else if indexable(ms[i].matcher) {
        slot_of_matcher(ms[i].matcher)
    } else {
        first_slot(ms, i + 1)
    }
}

/// A pure AND chain goes under its first indexable matcher; anything else is
/// always checked.
pub open spec fn slot_of_rule(ms: Seq<CompiledMatcherWithOp>) -> IndexSlot {
    if and_chain(ms) {
        first_slot(ms, 0)
    } else {
        IndexSlot::Always
    }
}

/// The rules filed under a key, or none.
pub open spec fn bucket<K>(m: Map<K, Vec<usize>>, k: K) -> Seq<usize> {
    if m.contains_key(k) {
        m[k]@
    } else {
        Seq::empty()
    }
}

/// `new` is `old` with `v` appended to the bucket of `k`.
pub open spec fn pushed<K>(old: Map<K, Vec<usize>>, new: Map<K, Vec<usize>>, k: K, v: usize) -> bool {
    forall|j: K| #[trigger] bucket(new, j) == if j == k { bucket(old, k).push(v) } else { bucket(old, j) }
}

/// Index of a pipeline's rules by exact name, name suffix and query type.
/// Name keys are fingerprints of the lowercased text.
#[derive(Clone, Debug)]
pub struct RuleIndex {
    pub domain_exact: HashMap<u64, Vec<usize>>,
    pub domain_suffix: HashMap<u64, Vec<usize>>,
    pub query_type: HashMap<u16, Vec<usize>>,
    pub always_check: Vec<usize>,
}

/// Appends `v` to the bucket of `k`.
fn push_to_bucket<K: Hash + Eq + Copy>(m: &mut HashMap<K, Vec<usize>>, k: K, v: usize)
    requires
        vstd::std_specs::hash::obeys_key_model::<K>(),
    ensures
        pushed(old(m)@, final(m)@, k, v),
{
    let mut items: Vec<usize> = match m.get(&k) {
        Some(existing) => existing.clone(),
        None => Vec::new(),
    };
    items.push(v);
    m.insert(k, items);
}

impl RuleIndex {
    pub fn new() -> (r: RuleIndex)
        ensures
            r.domain_exact@ == Map::<u64, Vec<usize>>::empty(),
            r.domain_suffix@ == Map::<u64, Vec<usize>>::empty(),
            r.query_type@ == Map::<u16, Vec<usize>>::empty(),
            r.always_check@ == Seq::<usize>::empty(),
    {
        RuleIndex {
            domain_exact: HashMap::new(),
            domain_suffix: HashMap::new(),
            query_type: HashMap::new(),
            always_check: Vec::new(),
        }
    }

    /// Files rule `rule_idx` in the slot its matcher chain calls for.
    pub fn add_rule(&mut self, rule_idx: usize, rule: &CompiledRule)
        ensures
            match slot_of_rule(rule.matchers@) {
                IndexSlot::Always => {
                    &&& final(self).always_check@ == old(self).always_check@.push(rule_idx)
                    &&& final(self).domain_exact@ == old(self).domain_exact@
                    &&& final(self).domain_suffix@ == old(self).domain_suffix@
                    &&& final(self).query_type@ == old(self).query_type@
                },
                IndexSlot::Exact(d) => {
                    let k = text_fingerprint(d);
                    &&& pushed(old(self).domain_exact@, final(self).domain_exact@, k, rule_idx)
                    &&& final(self).always_check@ == old(self).always_check@
                    &&& final(self).domain_suffix@ == old(self).domain_suffix@
                    &&& final(self).query_type@ == old(self).query_type@
                },
                IndexSlot::Suffix(s) => {
                    let k = text_fingerprint(s);
                    &&& pushed(old(self).domain_suffix@, final(self).domain_suffix@, k, rule_idx)
                    &&& final(self).always_check@ == old(self).always_check@
                    &&& final(self).domain_exact@ == old(self).domain_exact@
                    &&& final(self).query_type@ == old(self).query_type@
                },
                IndexSlot::Qtype(t) => {
                    &&& pushed(old(self).query_type@, final(self).query_type@, t, rule_idx)
                    &&& final(self).always_check@ == old(self).always_check@
                    &&& final(self).domain_exact@ == old(self).domain_exact@
                    &&& final(self).domain_suffix@ == old(self).domain_suffix@
                },
            },
    {
        match classify(&rule.matchers) {
            SlotKey::Always => self.always_check.push(rule_idx),
            SlotKey::Exact(k) => push_to_bucket(&mut self.domain_exact, k, rule_idx),
            SlotKey::Suffix(k) => push_to_bucket(&mut self.domain_suffix, k, rule_idx),
            SlotKey::Qtype(t) => push_to_bucket(&mut self.query_type, t, rule_idx),
        }
    }
}

/// The slot of a rule, with name keys as fingerprints.
pub enum SlotKey {
    Always,
    Exact(u64),
    Suffix(u64),
    Qtype(u16),
}

pub open spec fn key_of_slot(slot: IndexSlot) -> SlotKey {
    match slot {
        IndexSlot::Always => SlotKey::Always,
        IndexSlot::Exact(d) => SlotKey::Exact(text_fingerprint(d)),
        IndexSlot::Suffix(s) => SlotKey::Suffix(text_fingerprint(s)),
        IndexSlot::Qtype(t) => SlotKey::Qtype(t),
    }
}

/// Finds where a matcher chain is filed.
fn classify(ms: &Vec<CompiledMatcherWithOp>) -> (r: SlotKey)
    ensures
        r == key_of_slot(slot_of_rule(ms@)),
{
    let mut k: usize = 1;
    while k < ms.len()
        invariant
            1 <= k,
            forall|i: int| 1 <= i < k ==> #[trigger] ms@[i].operator == MatchOperator::And,
        decreases ms.len() - k,
    {
        if ms[k].operator != MatchOperator::And {
            assert(ms@[k as int].operator != MatchOperator::And);
            assert(!and_chain(ms@));
            return SlotKey::Always;
        }
        k = k + 1;
    }
    assert(and_chain(ms@));
    let mut i: usize = 0;
    while i < ms.len()
        invariant
            i <= ms.len(),
            and_chain(ms@),
            first_slot(ms@, 0) == first_slot(ms@, i as int),
        decreases ms.len() - i,
    {
        match &ms[i].matcher {
            CompiledMatcher::DomainExact { domain } => {
                if domain.unicode_len() > 0 {
                    return SlotKey::Exact(fingerprint(domain.as_str()));
                }
            },
            CompiledMatcher::DomainSuffix { suffix } => {
                if suffix.unicode_len() > 0 {
                    return SlotKey::Suffix(fingerprint(suffix.as_str()));
                }
            },
            CompiledMatcher::QueryType { qtype } => {
                return SlotKey::Qtype(*qtype);
            },
            _ => {},
        }
        i = i + 1;
    }
    SlotKey::Always
}

/// Strictly increasing: sorted with no duplicates.
pub open spec fn strictly_sorted(s: Seq<usize>) -> bool {
    forall|i: int, j: int| 0 <= i < j < s.len() ==> s[i] < s[j]
}

/// `y` occurs in `s`.
#[verifier::opaque]
pub open spec fn member(s: Seq<usize>, y: usize) -> bool {
    exists|k: int| 0 <= k < s.len() && s[k] == y
}

/// First position whose item is not below `x`.
fn lower_bound(v: &Vec<usize>, x: usize) -> (i: usize)
    ensures
        i <= v@.len(),
        forall|k: int| 0 <= k < i ==> v@[k] < x,
        i < v@.len() ==> v@[i as int] >= x,
{
    let mut i: usize = 0;
    while i < v.len() && v[i] < x
        invariant
            i <= v@.len(),
            forall|k: int| 0 <= k < i ==> v@[k] < x,
        decreases v.len() - i,
    {
        i = i + 1;
    }
    i
}

/// Inserts `x` into a strictly sorted list unless it is already there.
pub fn insert_sorted(v: Vec<usize>, x: usize) -> (r: Vec<usize>)
    requires
        strictly_sorted(v@),
    ensures
        strictly_sorted(r@),
        forall|y: usize| #[trigger] member(r@, y) <==> (member(v@, y) || y == x),
{
    let i = lower_bound(&v, x);
    if i < v.len() && v[i] == x {
        proof {
            reveal(member);
            assert(v@[i as int] == x);
        }
        return v;
    }
    let ghost before = v@;
    let mut out = v;
    out.insert(i, x);
    assert(out@ == before.insert(i as int, x));
    assert forall|a: int, b: int| 0 <= a < b < out@.len() implies out@[a] < out@[b] by {
        if b < i {
        } else if b == i {
        } else if a < i {
            assert(before[b - 1] >= x);
        } else if a == i {
            assert(before[b - 1] >= before[i as int]);
        } else {
        }
    }
    assert forall|y: usize| #[trigger] member(out@, y) <==> (member(before, y) || y == x) by {
        reveal(member);
        if member(out@, y) {
            let k = choose|k: int| 0 <= k < out@.len() && #[trigger] out@[k] == y;
            if k < i {
                assert(before[k] == y);
            } else if k > i {
                assert(before[k - 1] == y);
            }
        }
        if member(before, y) {
            let k = choose|k: int| 0 <= k < before.len() && #[trigger] before[k] == y;
            if k < i {
                assert(out@[k] == y);
            } else {
                assert(out@[k + 1] == y);
            }
        }
        if y == x {
            assert(out@[i as int] == y);
        }
    }
    out
}

/// Membership in a sequence with one more item.
pub proof fn lemma_push_member(s: Seq<usize>, a: usize, y: usize)
    ensures
        member(s.push(a), y) <==> (member(s, y) || y == a),
{
    reveal(member);
    if member(s.push(a), y) {
        let k = choose|k: int| 0 <= k < s.len() + 1 && #[trigger] s.push(a)[k] == y;
        if k < s.len() {
            assert(s[k] == y);
        }
    }
    if member(s, y) {
        let k = choose|k: int| 0 <= k < s.len() && #[trigger] s[k] == y;
        assert(s.push(a)[k] == y);
    }
    if y == a {
        assert(s.push(a)[s.len() as int] == y);
    }
}

/// Nothing is a member of the empty sequence.
pub proof fn lemma_empty_member(y: usize)
    ensures
        !member(Seq::<usize>::empty(), y),
{
    reveal(member);
}

/// Adds every item of `items` to a strictly sorted list.
pub fn add_all(v: Vec<usize>, items: &Vec<usize>) -> (r: Vec<usize>)
    requires
        strictly_sorted(v@),
    ensures
        strictly_sorted(r@),
        forall|y: usize| #[trigger] member(r@, y) <==> (member(v@, y) || member(items@, y)),
{
    let ghost start = v@;
    let mut out = v;
    let mut i: usize = 0;
    assert(items@.take(0) == Seq::<usize>::empty());
    assert forall|y: usize| #[trigger] member(out@, y) <==> (member(start, y) || member(items@.take(0), y)) by {
        lemma_empty_member(y);
    }
    while i < items.len()
        invariant
            i <= items@.len(),
            strictly_sorted(out@),
            forall|y: usize| #[trigger] member(out@, y) <==> (member(start, y) || member(items@.take(i as int), y)),
        decreases items.len() - i,
    {
        let ghost prev = out@;
        out = insert_sorted(out, items[i]);
        assert(items@.take(i as int + 1) == items@.take(i as int).push(items@[i as int]));
        assert forall|y: usize| #[trigger] member(out@, y) <==> (member(start, y) || member(items@.take(i as int + 1), y)) by {
            lemma_push_member(items@.take(i as int), items@[i as int], y);
            assert(member(prev, y) <==> (member(start, y) || member(items@.take(i as int), y)));
        }
        i = i + 1;
    }
    assert(items@.take(items.len() as int) == items@);
    out
}

/// The first dot at or after `i` lies in `[i, len)` when there is one.
pub proof fn lemma_dot_from_range(s: Seq<char>, i: int)
    requires
        0 <= i,
    ensures
        dot_from(s, i) == -1 || (i <= dot_from(s, i) < s.len() && s[dot_from(s, i)] == '.'),
    decreases s.len() - i,
{
    if i < s.len() && s[i] != '.' {
        lemma_dot_from_range(s, i + 1);
    }
}

/// Removing the first label shortens the name.
pub proof fn lemma_strip_shorter(s: Seq<char>)
    requires
        strip_first_label(s) is Some,
    ensures
        strip_first_label(s).unwrap().len() < s.len(),
{
    lemma_dot_from_range(s, 0);
}

/// A label suffix is no longer than the name.
pub proof fn lemma_label_suffix_len(t: Seq<char>, s: Seq<char>)
    requires
        is_label_suffix(t, s),
    ensures
        t.len() <= s.len(),
    decreases s.len(),
{
    if t != s {
        let rest = strip_first_label(s).unwrap();
        lemma_strip_shorter(s);
        lemma_label_suffix_len(t, rest);
    }
}

/// The rule is filed under some label suffix of the name.
pub open spec fn suffix_hit(m: Map<u64, Vec<usize>>, qname: Seq<char>, x: usize) -> bool {
    exists|t: Seq<char>| is_label_suffix(t, qname) && #[trigger] member(bucket(m, text_fingerprint(t)), x)
}

/// Suffix buckets already visited: those of label suffixes of `qname` that
/// are not label suffixes of `cur`.
pub open spec fn visited_hit(m: Map<u64, Vec<usize>>, qname: Seq<char>, cur: Seq<char>, x: usize) -> bool {
    exists|t: Seq<char>|
        is_label_suffix(t, qname) && !is_label_suffix(t, cur) && #[trigger] member(bucket(m, text_fingerprint(t)), x)
}

/// Rule `x` is a candidate for the query: always checked, or filed under the
/// exact name, under a label suffix of the name, or under the query type.
pub open spec fn is_candidate(idx: RuleIndex, qname: Seq<char>, qtype: u16, x: usize) -> bool {
    ||| member(idx.always_check@, x)
    ||| member(bucket(idx.domain_exact@, text_fingerprint(qname)), x)
    ||| suffix_hit(idx.domain_suffix@, qname, x)
    ||| member(bucket(idx.query_type@, qtype), x)
}

/// The bucket of a key, as stored.
fn lookup<'a, K: Hash + Eq>(m: &'a HashMap<K, Vec<usize>>, k: &K) -> (r: Option<&'a Vec<usize>>)
    requires
        vstd::std_specs::hash::obeys_key_model::<K>(),
    ensures
        match r {
            Some(b) => b@ == bucket(m@, *k),
            None => bucket(m@, *k) == Seq::<usize>::empty(),
        },
{
    m.get(k)
}

/// Adds the bucket of `k` to a strictly sorted list.
fn add_bucket<K: Hash + Eq>(v: Vec<usize>, m: &HashMap<K, Vec<usize>>, k: &K) -> (r: Vec<usize>)
    requires
        strictly_sorted(v@),
        vstd::std_specs::hash::obeys_key_model::<K>(),
    ensures
        strictly_sorted(r@),
        forall|y: usize| #[trigger] member(r@, y) <==> (member(v@, y) || member(bucket(m@, *k), y)),
{
    match lookup(m, k) {
        Some(b) => add_all(v, b),
        None => {
            proof {
                assert forall|y: usize| #[trigger] member(v@, y) <==> (member(v@, y) || member(bucket(m@, *k), y)) by {
                    lemma_empty_member(y);
                }
            }
            v
        },
    }
}

impl RuleIndex {
    /// The rules a query has to be checked against, in declaration order and
    /// without repeats.
    pub fn get_candidates(&self, qname: &str, qtype: u16) -> (r: Vec<usize>)
        ensures
            strictly_sorted(r@),
            forall|x: usize| #[trigger] member(r@, x) <==> is_candidate(*self, qname@, qtype, x),
    {
        let ghost exact = bucket(self.domain_exact@, text_fingerprint(qname@));
        let ghost sfx = self.domain_suffix@;
        let empty: Vec<usize> = Vec::new();
        let mut out = add_all(empty, &self.always_check);
        out = add_bucket(out, &self.domain_exact, &fingerprint(qname));
        proof {
            assert forall|x: usize| #[trigger] member(out@, x) <==> (member(self.always_check@, x) || member(exact, x)
                || visited_hit(sfx, qname@, qname@, x)) by {
                lemma_empty_member(x);
            }
        }
        let mut cur: &str = qname;
        loop
            invariant_except_break
                forall|x: usize|
                    #[trigger] member(out@, x) <==> (member(self.always_check@, x) || member(exact, x) || visited_hit(
                        sfx,
                        qname@,
                        cur@,
                        x,
                    )),
            invariant
                strictly_sorted(out@),
                sfx == self.domain_suffix@,
                exact == bucket(self.domain_exact@, text_fingerprint(qname@)),
                forall|t: Seq<char>| is_label_suffix(t, cur@) ==> is_label_suffix(t, qname@),
            ensures
                strictly_sorted(out@),
                forall|x: usize|
                    #[trigger] member(out@, x) <==> (member(self.always_check@, x) || member(exact, x) || suffix_hit(
                        sfx,
                        qname@,
                        x,
                    )),
            decreases cur@.len(),
        {
            let ghost before = out@;
            let ghost c = cur@;
            out = add_bucket(out, &self.domain_suffix, &fingerprint(cur));
            assert(is_label_suffix(c, c));
            assert(is_label_suffix(c, qname@));
            match after_first_dot(cur) {
                Some(rest) => {
                    proof {
                        lemma_strip_shorter(c);
                        assert forall|t: Seq<char>| is_label_suffix(t, c) <==> (t == c || is_label_suffix(t, rest@)) by {
                        }
                        assert(!is_label_suffix(c, rest@)) by {
                            if is_label_suffix(c, rest@) {
                                lemma_label_suffix_len(c, rest@);
                            }
                        }
                        assert forall|x: usize|
                            #[trigger] member(out@, x) <==> (member(self.always_check@, x) || member(exact, x)
                                || visited_hit(sfx, qname@, rest@, x)) by {
                            if member(out@, x) && !member(before, x) {
                                assert(member(bucket(sfx, text_fingerprint(c)), x));
                            }
                            if visited_hit(sfx, qname@, c, x) {
                                let t = choose|t: Seq<char>|
                                    is_label_suffix(t, qname@) && !is_label_suffix(t, c) && #[trigger] member(
                                        bucket(sfx, text_fingerprint(t)),
                                        x,
                                    );
                                assert(!is_label_suffix(t, rest@));
                            }
                            if visited_hit(sfx, qname@, rest@, x) {
                                let t = choose|t: Seq<char>|
                                    is_label_suffix(t, qname@) && !is_label_suffix(t, rest@) && #[trigger] member(
                                        bucket(sfx, text_fingerprint(t)),
                                        x,
                                    );
                                if t != c {
                                    assert(!is_label_suffix(t, c));
                                    assert(visited_hit(sfx, qname@, c, x));
                                }
                            }
                        }
                    }
                    cur = rest;
                },
                None => {
                    proof {
                        assert forall|t: Seq<char>| is_label_suffix(t, c) <==> t == c by {}
                        assert forall|x: usize|
                            #[trigger] member(out@, x) <==> (member(self.always_check@, x) || member(exact, x)
                                || suffix_hit(sfx, qname@, x)) by {
                            if member(out@, x) && !member(before, x) {
                                assert(member(bucket(sfx, text_fingerprint(c)), x));
                            }
                            if visited_hit(sfx, qname@, c, x) {
                                let t = choose|t: Seq<char>|
                                    is_label_suffix(t, qname@) && !is_label_suffix(t, c) && #[trigger] member(
                                        bucket(sfx, text_fingerprint(t)),
                                        x,
                                    );
                                assert(suffix_hit(sfx, qname@, x));
                            }
                            if suffix_hit(sfx, qname@, x) {
                                let t = choose|t: Seq<char>|
                                    is_label_suffix(t, qname@) && #[trigger] member(bucket(sfx, text_fingerprint(t)), x);
                                if t != c {
                                    assert(!is_label_suffix(t, c));
                                    assert(visited_hit(sfx, qname@, c, x));
                                }
                            }
                        }
                    }
                    break;
                },
            }
        }
        out = add_bucket(out, &self.query_type, &qtype);
        out
    }
}

/// RCODE of an upper-case rcode name.
pub open spec fn rcode_code(upper: Seq<char>) -> Option<u16> {
    if upper == "NOERROR"@ {
        Some(0u16)
    } else if upper == "FORMERR"@ {
        Some(1u16)
    } else if upper == "SERVFAIL"@ {
        Some(2u16)
    } else if upper == "NXDOMAIN"@ {
        Some(3u16)
    } else if upper == "NOTIMP"@ {
        Some(4u16)
    } else if upper == "REFUSED"@ {
        Some(5u16)
    } else {
        None
    }
}

/// Reads an rcode name such as `NXDOMAIN`, case-insensitively.
pub fn parse_rcode(rcode: &str) -> (r: Option<u16>)
    ensures
        r == rcode_code(ascii_upper(rcode@)),
{
    let u = to_ascii_upper(rcode);
    let t = u.as_str();
    if str_eq(t, "NOERROR") {
        Some(0)
    } else if str_eq(t, "FORMERR") {
        Some(1)
    } else if str_eq(t, "SERVFAIL") {
        Some(2)
    } else if str_eq(t, "NXDOMAIN") {
        Some(3)
    } else if str_eq(t, "NOTIMP") {
        Some(4)
    } else if str_eq(t, "REFUSED") {
        Some(5)
    } else {
        None
    }
}

impl CompiledMatcher {
    pub open spec fn matches_spec(
        &self,
        qname: Seq<char>,
        qtype: u16,
        qclass: u16,
        client_ip: IpAddress,
        edns_present: bool,
    ) -> bool {
        match self {
            CompiledMatcher::DomainExact { domain } => ascii_lower(qname) == ascii_lower(domain@),
            CompiledMatcher::DomainSuffix { suffix } => suffix@.len() == 0 || has_suffix(qname, suffix@),
            CompiledMatcher::ClientIp { net } => net.contains_spec(client_ip),
            CompiledMatcher::QueryType { qtype: t } => *t == qtype,
            CompiledMatcher::Qclass { qclass: c } => *c == qclass,
            CompiledMatcher::Regex { regex } => regex_finds(regex.pattern(), qname),
            CompiledMatcher::Complex { matcher } => matcher.matches_spec(qname, qclass, client_ip, edns_present),
        }
    }
}

/// Evaluates a compiled matcher.
pub fn compiled_matcher_matches(
    matcher: &CompiledMatcher,
    qname: &str,
    qtype: u16,
    qclass: u16,
    client_ip: IpAddress,
    edns_present: bool,
) -> (r: bool)
    ensures
        r == matcher.matches_spec(qname@, qtype, qclass, client_ip, edns_present),
{
    match matcher {
        CompiledMatcher::DomainExact { domain } => eq_ignore_ascii_case(qname, domain.as_str()),
        CompiledMatcher::DomainSuffix { suffix } => {
            if suffix.unicode_len() == 0 {
                true
            } else {
                ends_with(qname, suffix.as_str())
            }
        },
        CompiledMatcher::ClientIp { net } => net.contains(&client_ip),
        CompiledMatcher::QueryType { qtype: t } => *t == qtype,
        CompiledMatcher::Qclass { qclass: c } => *c == qclass,
        CompiledMatcher::Regex { regex } => regex.is_match(qname),
        CompiledMatcher::Complex { matcher } => matcher.matches(qname, qclass, client_ip, edns_present),
    }
}

/// The compiled form of a runtime matcher; `Any` becomes the empty suffix.
pub fn compile_matcher(m: &RuntimeMatcher) -> (r: CompiledMatcher)
    ensures
        forall|q: Seq<char>, t: u16, c: u16, ip: IpAddress, e: bool|
            #[trigger] r.matches_spec(q, t, c, ip, e) == m.matches_spec(q, c, ip, e),
{
    match m {
        RuntimeMatcher::Any => {
            let suffix = String::new();
            assert(suffix@.len() == 0);
            CompiledMatcher::DomainSuffix { suffix }
        },
        RuntimeMatcher::DomainSuffix { value } => {
            proof {
                assert forall|q: Seq<char>| value@.len() == 0 implies has_suffix(q, value@) by {
                    assert(q.subrange(q.len() as int, q.len() as int) =~= value@);
                }
            }
            CompiledMatcher::DomainSuffix { suffix: value.clone() }
        },
        RuntimeMatcher::ClientIp { net } => CompiledMatcher::ClientIp { net: *net },
        RuntimeMatcher::DomainRegex { regex } => CompiledMatcher::Regex { regex: regex.clone() },
        RuntimeMatcher::Qclass { value } => CompiledMatcher::Qclass { qclass: *value },
        RuntimeMatcher::EdnsPresent { expect } => CompiledMatcher::Complex {
            matcher: RuntimeMatcher::EdnsPresent { expect: *expect },
        },
    }
}

/// The precomputed response of a rule whose first action answers directly.
pub open spec fn precomputed_spec(actions: Seq<Action>) -> Option<PrecomputedAction> {
    if actions.len() == 0 {
        None
    } else {
        match actions[0] {
            Action::StaticResponse { rcode } => match rcode_code(ascii_upper(rcode@)) {
                Some(c) => Some(PrecomputedAction::Static { rcode: c }),
                None => None,
            },
            Action::StaticIpResponse { ip } => Some(PrecomputedAction::StaticIp { ip }),
            Action::Deny => Some(PrecomputedAction::Static { rcode: RCODE_REFUSED }),
            _ => None,
        }
    }
}

pub fn precompute_action(rule: &RuntimeRule) -> (r: Option<PrecomputedAction>)
    ensures
        r == precomputed_spec(rule.actions@),
{
    if rule.actions.len() == 0 {
        return None;
    }
    match &rule.actions[0] {
        Action::StaticResponse { rcode } => match parse_rcode(rcode.as_str()) {
            Some(c) => Some(PrecomputedAction::Static { rcode: c }),
            None => None,
        },
        Action::StaticIpResponse { ip } => Some(PrecomputedAction::StaticIp { ip: ip.clone() }),
        Action::Deny => Some(PrecomputedAction::Static { rcode: RCODE_REFUSED }),
        _ => None,
    }
}

/// `cm` evaluates as `m` under the same operator.
pub open spec fn compiled_from(cm: CompiledMatcherWithOp, m: RuntimeMatcherWithOp) -> bool {
    cm.operator == m.operator && forall|q: Seq<char>, t: u16, c: u16, ip: IpAddress, e: bool|
        #[trigger] cm.matcher.matches_spec(q, t, c, ip, e) == m.matcher.matches_spec(q, c, ip, e)
}

/// `cr` is the compiled form of rule `idx`.
pub open spec fn rule_compiled_from(cr: CompiledRule, r: RuntimeRule, idx: usize) -> bool {
    &&& cr.rule_idx == idx
    &&& cr.matcher_operator == r.matcher_operator
    &&& cr.matchers@.len() == r.matchers@.len()
    &&& forall|i: int| 0 <= i < r.matchers@.len() ==> compiled_from(#[trigger] cr.matchers@[i], r.matchers@[i])
    &&& cr.precomputed == precomputed_spec(r.actions@)
}

pub fn compile_rule(rule: &RuntimeRule, rule_idx: usize) -> (r: CompiledRule)
    ensures
        rule_compiled_from(r, *rule, rule_idx),
{
    let mut matchers: Vec<CompiledMatcherWithOp> = Vec::new();
    let mut i: usize = 0;
    while i < rule.matchers.len()
        invariant
            i <= rule.matchers@.len(),
            matchers@.len() == i,
            forall|k: int| 0 <= k < i ==> compiled_from(#[trigger] matchers@[k], rule.matchers@[k]),
        decreases rule.matchers@.len() - i,
    {
        let m = &rule.matchers[i];
        matchers.push(CompiledMatcherWithOp { operator: m.operator, matcher: compile_matcher(&m.matcher) });
        i = i + 1;
    }
    CompiledRule {
        rule_idx,
        matcher_operator: rule.matcher_operator,
        matchers,
        precomputed: precompute_action(rule),
    }
}

/// A pipeline with its rules compiled and indexed.
#[derive(Clone, Debug)]
pub struct CompiledPipeline {
    pub id: String,
    pub rules: Vec<CompiledRule>,
    pub index: RuleIndex,
}

/// Rule `i` is filed in the slot its chain calls for.
pub open spec fn filed(idx: RuleIndex, ms: Seq<CompiledMatcherWithOp>, i: usize) -> bool {
    match slot_of_rule(ms) {
        IndexSlot::Always => member(idx.always_check@, i),
        IndexSlot::Exact(d) => member(bucket(idx.domain_exact@, text_fingerprint(d)), i),
        IndexSlot::Suffix(s) => member(bucket(idx.domain_suffix@, text_fingerprint(s)), i),
        IndexSlot::Qtype(t) => member(bucket(idx.query_type@, t), i),
    }
}

/// A pushed bucket keeps its members.
proof fn lemma_pushed_keeps<K>(old: Map<K, Vec<usize>>, new: Map<K, Vec<usize>>, k: K, v: usize, j: K, y: usize)
    requires
        pushed(old, new, k, v),
        member(bucket(old, j), y),
    ensures
        member(bucket(new, j), y),
{
    if j == k {
        lemma_push_member(bucket(old, k), v, y);
    }
}

/// A pushed bucket holds the new item.
proof fn lemma_pushed_has<K>(old: Map<K, Vec<usize>>, new: Map<K, Vec<usize>>, k: K, v: usize)
    requires
        pushed(old, new, k, v),
    ensures
        member(bucket(new, k), v),
{
    lemma_push_member(bucket(old, k), v, v);
}

/// `c` is `p` compiled: same id, each rule compiled in place and filed in
/// the index.
pub open spec fn pipeline_compiled_from(c: CompiledPipeline, p: RuntimePipeline) -> bool {
    &&& c.id == p.id
    &&& c.rules@.len() == p.rules@.len()
    &&& forall|i: int| 0 <= i < p.rules@.len() ==> rule_compiled_from(#[trigger] c.rules@[i], p.rules@[i], i as usize)
    &&& forall|i: int| 0 <= i < p.rules@.len() ==> filed(c.index, #[trigger] c.rules@[i].matchers@, i as usize)
}

pub fn compile_pipeline(p: &RuntimePipeline) -> (r: CompiledPipeline)
    ensures
        pipeline_compiled_from(r, *p),
{
    let mut rules: Vec<CompiledRule> = Vec::new();
    let mut index = RuleIndex::new();
    let mut i: usize = 0;
    while i < p.rules.len()
        invariant
            i <= p.rules@.len(),
            rules@.len() == i,
            forall|k: int| 0 <= k < i ==> rule_compiled_from(#[trigger] rules@[k], p.rules@[k], k as usize),
            forall|k: int| 0 <= k < i ==> filed(index, #[trigger] rules@[k].matchers@, k as usize),
        decreases p.rules@.len() - i,
    {
        let compiled = compile_rule(&p.rules[i], i);
        let ghost old_index = index;
        index.add_rule(i, &compiled);
        proof {
            assert forall|k: int| 0 <= k < i implies filed(index, #[trigger] rules@[k].matchers@, k as usize) by {
                let ms = rules@[k].matchers@;
                match slot_of_rule(ms) {
                    IndexSlot::Always => {
                        match slot_of_rule(compiled.matchers@) {
                            IndexSlot::Always => lemma_push_member(old_index.always_check@, i, k as usize),
                            _ => {},
                        }
                    },
                    IndexSlot::Exact(d) => {
                        match slot_of_rule(compiled.matchers@) {
                            IndexSlot::Exact(d2) => lemma_pushed_keeps(old_index.domain_exact@, index.domain_exact@, text_fingerprint(d2), i, text_fingerprint(d), k as usize),
                            _ => {},
                        }
                    },
                    IndexSlot::Suffix(s) => {
                        match slot_of_rule(compiled.matchers@) {
                            IndexSlot::Suffix(s2) => lemma_pushed_keeps(old_index.domain_suffix@, index.domain_suffix@, text_fingerprint(s2), i, text_fingerprint(s), k as usize),
                            _ => {},
                        }
                    },
                    IndexSlot::Qtype(t) => {
                        match slot_of_rule(compiled.matchers@) {
                            IndexSlot::Qtype(t2) => lemma_pushed_keeps(old_index.query_type@, index.query_type@, t2, i, t, k as usize),
                            _ => {},
                        }
                    },
                }
            }
            match slot_of_rule(compiled.matchers@) {
                IndexSlot::Always => lemma_push_member(old_index.always_check@, i, i),
                IndexSlot::Exact(d) => lemma_pushed_has(old_index.domain_exact@, index.domain_exact@, text_fingerprint(d), i),
                IndexSlot::Suffix(s) => lemma_pushed_has(old_index.domain_suffix@, index.domain_suffix@, text_fingerprint(s), i),
                IndexSlot::Qtype(t) => lemma_pushed_has(old_index.query_type@, index.query_type@, t, i),
            }
        }
        rules.push(compiled);
        i = i + 1;
    }
    CompiledPipeline { id: p.id.clone(), rules, index }
}

/// Compiles every pipeline of a configuration, in order.
pub fn compile_pipelines(cfg: &RuntimePipelineConfig) -> (r: Vec<CompiledPipeline>)
    ensures
        r@.len() == cfg.pipelines@.len(),
        forall|i: int| 0 <= i < r@.len() ==> pipeline_compiled_from(#[trigger] r@[i], cfg.pipelines@[i]),
{
    let mut out: Vec<CompiledPipeline> = Vec::new();
    let mut i: usize = 0;
    while i < cfg.pipelines.len()
        invariant
            i <= cfg.pipelines@.len(),
            out@.len() == i,
            forall|k: int| 0 <= k < i ==> pipeline_compiled_from(#[trigger] out@[k], cfg.pipelines@[k]),
        decreases cfg.pipelines@.len() - i,
    {
        out.push(compile_pipeline(&cfg.pipelines[i]));
        i = i + 1;
    }
    out
}

} // verus!
