//! Header-and-question parsing of DNS messages without a full decode.
use vstd::prelude::*;
use vstd::utf8::{valid_utf8, decode_utf8};

verus! {

/// Longest normalised query name, dots included, that the parser produces.
pub const NAME_LIMIT: usize = 256;

/// Number of compression hops after which a name is rejected.
pub const MAX_HOPS: u32 = 5;

/// Fields of the first question of a query.
#[derive(Clone, Debug)]
pub struct QuickQuery {
    pub tx_id: u16,
    /// Query name, ASCII-lowercased, labels joined by dots, no trailing dot.
    pub qname: String,
    pub qtype: u16,
    pub qclass: u16,
}

/// Response code and smallest answer TTL of a response.
#[derive(Clone, Copy, Debug, PartialEq, Eq, Structural)]
pub struct QuickResponse {
    /// The four RCODE bits of the header.
    pub rcode: u16,
    pub min_ttl: u32,
}

pub open spec fn be16(p: Seq<u8>, i: int) -> u16 {
    (p[i] as int * 256 + p[i + 1] as int) as u16
}

pub open spec fn be32(p: Seq<u8>, i: int) -> u32 {
    (p[i] as int * 16777216 + p[i + 1] as int * 65536 + p[i + 2] as int * 256 + p[i + 3] as int) as u32
}

pub open spec fn lower_byte(b: u8) -> u8 {
    if 65 <= b && b <= 90 {
        (b + 32) as u8
    } else {
        b
    }
}

pub open spec fn lower_bytes(s: Seq<u8>) -> Seq<u8> {
    Seq::new(s.len(), |i: int| lower_byte(s[i]))
}

/// Appends a label to a name under construction, with a dot between labels.
pub open spec fn join_label(out: Seq<u8>, label: Seq<u8>) -> Seq<u8> {
    if out.len() > 0 {
        out.push(46u8) + lower_bytes(label)
    } else {
        lower_bytes(label)
    }
}

/// The label length byte at `cur` is a compression pointer.
pub open spec fn is_pointer(b: u8) -> bool {
    b >= 192
}

pub open spec fn pointer_target(p: Seq<u8>, cur: int) -> int {
    (p[cur] - 192) as int * 256 + p[cur + 1] as int
}

/// Decodes the name at `cur`, following at most `hops - 1` pointers, into
/// `out`; `None` on truncation, a pointer chain too long, or a name longer
/// than `NAME_LIMIT`.
pub open spec fn walk_name(p: Seq<u8>, cur: int, hops: int, out: Seq<u8>) -> Option<Seq<u8>>
    decreases hops, p.len() - cur,
{
    if cur < 0 || cur >= p.len() || hops <= 0 {
        None
    } else if p[cur] == 0 {
        Some(out)
    } else if is_pointer(p[cur]) {
        if p.len() < cur + 2 || hops <= 1 {
            None
        } else {
            walk_name(p, pointer_target(p, cur), hops - 1, out)
        }
    } else {
        let l = p[cur] as int;
        if p.len() < cur + 1 + l {
            None
        } else {
            let next = join_label(out, p.subrange(cur + 1, cur + 1 + l));
            if next.len() > NAME_LIMIT {
                None
            } else {
                walk_name(p, cur + 1 + l, hops, next)
            }
        }
    }
}

/// Offset just past the name at `cur` as written in place: after its zero
/// byte, or after its first pointer.
pub open spec fn name_end(p: Seq<u8>, cur: int) -> int
    decreases p.len() - cur,
{
    if cur < 0 || cur >= p.len() {
        cur
    } else if p[cur] == 0 {
        cur + 1
    } else if is_pointer(p[cur]) {
        cur + 2
    } else if cur + 1 + p[cur] as int >= p.len() {
        cur + 1 + p[cur] as int
    } else {
        name_end(p, cur + 1 + p[cur] as int)
    }
}

/// The first question of a query: transaction id, lowercased name bytes,
/// QTYPE and QCLASS.
pub open spec fn quick_query_spec(p: Seq<u8>) -> Option<(u16, Seq<u8>, u16, u16)> {
    if p.len() < 12 || be16(p, 4) == 0 {
        None
    } else {
        match walk_name(p, 12, MAX_HOPS as int, Seq::empty()) {
            None => None,
            Some(name) => {
                let e = name_end(p, 12);
                if p.len() < e + 4 {
                    None
                } else {
                    Some((be16(p, 0), name, be16(p, e), be16(p, e + 2)))
                }
            },
        }
    }
}

/// Offset just past a name that starts at `pos` in a response; `None` when
/// the name runs past the end.
pub open spec fn skip_name(p: Seq<u8>, pos: int) -> Option<int>
    decreases p.len() - pos,
{
    if pos < 0 || pos >= p.len() {
        None
    } else if p[pos] == 0 {
        Some(pos + 1)
    } else if is_pointer(p[pos]) {
        if pos + 2 > p.len() {
            None
        } else {
            Some(pos + 2)
        }
    } else if pos + 1 + p[pos] as int >= p.len() {
        None
    } else {
        skip_name(p, pos + 1 + p[pos] as int)
    }
}

/// Offset after `n` questions starting at `pos`.
pub open spec fn skip_questions(p: Seq<u8>, pos: int, n: nat) -> Option<int>
    decreases n,
{
    if n == 0 {
        Some(pos)
    } else {
        match skip_name(p, pos) {
            None => None,
            Some(e) => if e + 4 > p.len() {
                None
            } else {
                skip_questions(p, e + 4, (n - 1) as nat)
            },
        }
    }
}

/// Smallest of `min` and the TTLs of `n` answer records starting at `pos`.
pub open spec fn scan_answers(p: Seq<u8>, pos: int, n: nat, min: u32) -> Option<u32>
    decreases n,
{
    if n == 0 {
        Some(min)
    } else {
        match skip_name(p, pos) {
            None => None,
            Some(e) => if e + 10 > p.len() {
                None
            } else {
                let ttl = be32(p, e + 4);
                let next = e + 10 + be16(p, e + 8) as int;
                let m = if ttl < min { ttl } else { min };
                if n > 1 && next > p.len() {
                    None
                } else {
                    scan_answers(p, next, (n - 1) as nat, m)
                }
            },
        }
    }
}

/// RCODE bits and minimum answer TTL of a response; a response without
/// answers has minimum TTL 0.
pub open spec fn quick_response_spec(p: Seq<u8>) -> Option<QuickResponse> {
    if p.len() < 12 {
        None
    } else {
        let rcode = (p[3] % 16) as u16;
        if be16(p, 6) == 0 {
            Some(QuickResponse { rcode, min_ttl: 0 })
        } else {
            match skip_questions(p, 12, be16(p, 4) as nat) {
                None => None,
                Some(q) => match scan_answers(p, q, be16(p, 6) as nat, u32::MAX) {
                    None => None,
                    Some(m) => Some(QuickResponse { rcode, min_ttl: m }),
                },
            }
        }
    }
}

fn skip_name_at(packet: &[u8], pos: usize) -> (r: Option<usize>)
    requires
        pos <= packet@.len(),
    ensures
        r is Some <==> skip_name(packet@, pos as int) is Some,
        r matches Some(e) ==> skip_name(packet@, pos as int) == Some(e as int) && e <= packet@.len(),
{
    let len = packet.len();
    let mut cur = pos;
    while cur < len && packet[cur] != 0 && packet[cur] < 192
        invariant
            cur <= len,
            len == packet@.len(),
            skip_name(packet@, pos as int) == skip_name(packet@, cur as int),
        decreases len - cur,
    {
        let l = packet[cur] as usize;
        if len - cur - 1 <= l {
            return None;
        }
        cur = cur + 1 + l;
    }
    if cur >= len {
        return None;
    }
    if packet[cur] == 0 {
        return Some(cur + 1);
    }
    if len - cur < 2 {
        return None;
    }
    Some(cur + 2)
}

/// Reads the RCODE bits and the smallest answer TTL of a response.
pub fn parse_response_quick(packet: &[u8]) -> (r: Option<QuickResponse>)
    ensures
        r == quick_response_spec(packet@),
{
    let ghost p = packet@;
    let len = packet.len();
    if len < 12 {
        return None;
    }
    let rcode = (packet[3] % 16) as u16;
    let qd_count = read_be16(packet, 4);
    let an_count = read_be16(packet, 6);
    if an_count == 0 {
        return Some(QuickResponse { rcode, min_ttl: 0 });
    }
    let mut pos: usize = 12;
    let mut i: u16 = 0;
    while i < qd_count
        invariant
            p == packet@,
            len == p.len(),
            pos <= len,
            12 <= len,
            qd_count == be16(p, 4),
            an_count == be16(p, 6),
            an_count != 0,
            i <= qd_count,
            skip_questions(p, 12, qd_count as nat) == skip_questions(p, pos as int, (qd_count - i) as nat),
        decreases qd_count - i,
    {
        match skip_name_at(packet, pos) {
            None => {
                assert(skip_questions(p, pos as int, (qd_count - i) as nat) is None);
                return None;
            },
            Some(e) => {
                if len - e < 4 {
                    assert(skip_questions(p, pos as int, (qd_count - i) as nat) is None);
                    return None;
                }
                pos = e + 4;
            },
        }
        i = i + 1;
    }
    let mut min_ttl: u32 = u32::MAX;
    let mut j: u16 = 0;
    while j < an_count
        invariant
            p == packet@,
            len == p.len(),
            pos <= len,
            12 <= len,
            qd_count == be16(p, 4),
            an_count == be16(p, 6),
            an_count != 0,
            rcode == (p[3] % 16) as u16,
            j <= an_count,
            skip_questions(p, 12, qd_count as nat) is Some,
            scan_answers(p, skip_questions(p, 12, qd_count as nat).unwrap(), an_count as nat, u32::MAX)
                == scan_answers(p, pos as int, (an_count - j) as nat, min_ttl),
        decreases an_count - j,
    {
        match skip_name_at(packet, pos) {
            None => {
                assert(scan_answers(p, pos as int, (an_count - j) as nat, min_ttl) is None);
                return None;
            },
            Some(e) => {
                if len - e < 10 {
                    assert(scan_answers(p, pos as int, (an_count - j) as nat, min_ttl) is None);
                    return None;
                }
                let ttl = read_be32(packet, e + 4);
                let rd_len = read_be16(packet, e + 8) as usize;
                let ghost old_min = min_ttl;
                let ghost old_pos = pos;
                if ttl < min_ttl {
                    min_ttl = ttl;
                }
                if an_count - j > 1 {
                    if len - e - 10 < rd_len {
                        assert(scan_answers(p, old_pos as int, (an_count - j) as nat, old_min) is None);
                        return None;
                    }
                    pos = e + 10 + rd_len;
                    assert(scan_answers(p, old_pos as int, (an_count - j) as nat, old_min)
                        == scan_answers(p, pos as int, (an_count - j - 1) as nat, min_ttl));
                } else {
                    pos = len;
                    assert(scan_answers(p, e + 10 + rd_len as int, 0, min_ttl) == Some(min_ttl));
                    assert(scan_answers(p, old_pos as int, (an_count - j) as nat, old_min) == Some(min_ttl));
                }
            },
        }
        j = j + 1;
    }
    Some(QuickResponse { rcode, min_ttl })
}

/// Relies on std's `String::from_utf8`: succeeds exactly on valid UTF-8 and
/// then holds the decoded characters.
#[verifier::external_body]
fn utf8_string(v: Vec<u8>) -> (r: Option<String>)
    ensures
        r is Some <==> valid_utf8(v@),
        r matches Some(s) ==> s@ == decode_utf8(v@),
{
    String::from_utf8(v).ok()
}

/// `r` is what the quick parse of `p` gives: the spec's fields, with the
/// name as the text its bytes encode; nothing when the spec fails or the
/// name is not UTF-8.
pub open spec fn quick_result(p: Seq<u8>, r: Option<QuickQuery>) -> bool {
    match quick_query_spec(p) {
        None => r is None,
        Some((tx, name, qtype, qclass)) => if valid_utf8(name) {
            r matches Some(q) && q.tx_id == tx && q.qname@ == decode_utf8(name) && q.qtype == qtype && q.qclass
                == qclass
        } else {
            r is None
        },
    }
}

/// Parses the header and first question of a query. The name is lowercased
/// (ASCII letters only) and must be valid UTF-8.
pub fn parse_quick(packet: &[u8]) -> (r: Option<QuickQuery>)
    ensures
        quick_result(packet@, r),
{
    let ghost p = packet@;
    let len = packet.len();
    if len < 12 {
        return None;
    }
    let tx_id = read_be16(packet, 0);
    let qd_count = read_be16(packet, 4);
    if qd_count == 0 {
        return None;
    }
    let mut pos: usize = 12;
    let mut jumped = false;
    let mut hops: u32 = MAX_HOPS;
    let mut cur: usize = 12;
    let mut out: Vec<u8> = Vec::new();
    loop
        invariant
            p == packet@,
            len == p.len(),
            12 <= len,
            hops <= MAX_HOPS,
            out@.len() <= NAME_LIMIT,
            walk_name(p, 12, MAX_HOPS as int, Seq::empty()) == walk_name(p, cur as int, hops as int, out@),
            !jumped ==> name_end(p, 12) == name_end(p, cur as int) && hops == MAX_HOPS,
            jumped ==> pos as int == name_end(p, 12) && pos <= len,
            hops >= 1,
        ensures
            walk_name(p, 12, MAX_HOPS as int, Seq::empty()) == Some(out@),
            pos as int == name_end(p, 12),
            pos <= len,
        decreases hops, len - cur,
    {
        if cur >= len {
            return None;
        }
        let b = packet[cur];
        if b == 0 {
            if !jumped {
                pos = cur + 1;
            }
            break;
        }
        if b >= 192 {
            if len - cur < 2 {
                return None;
            }
            if !jumped {
                pos = cur + 2;
                jumped = true;
            }
            let target: usize = ((b - 192) as usize) * 256 + packet[cur + 1] as usize;
            if hops <= 1 {
                return None;
            }
            hops = hops - 1;
            cur = target;
            if cur >= len {
                return None;
            }
            continue;
        }
        let l = b as usize;
        if len - cur - 1 < l {
            return None;
        }
        let ghost before = out@;
        if out.len() > 0 {
            if out.len() >= NAME_LIMIT {
                return None;
            }
            out.push(46u8);
        }
        let mut k: usize = 0;
        while k < l
            invariant
                p == packet@,
                len == p.len(),
                cur + 1 + l <= len,
                k <= l,
                l == p[cur as int] as usize,
                0 < l < 192,
                hops >= 1,
                walk_name(p, 12, MAX_HOPS as int, Seq::empty()) == walk_name(p, cur as int, hops as int, before),
                !jumped ==> name_end(p, 12) == name_end(p, cur as int) && hops == MAX_HOPS,
                jumped ==> pos as int == name_end(p, 12) && pos <= len,
                out@.len() <= NAME_LIMIT,
                before.len() > 0 ==> out@ == before.push(46u8) + lower_bytes(
                    p.subrange(cur + 1, cur + 1 + k),
                ),
                before.len() == 0 ==> out@ == lower_bytes(p.subrange(cur + 1, cur + 1 + k)),
            decreases l - k,
        {
            if out.len() >= NAME_LIMIT {
                proof {
                    lemma_join_too_long(before, p.subrange(cur + 1, cur + 1 + l), k as int);
                    assert(walk_name(p, cur as int, hops as int, before) is None);
                }
                return None;
            }
            let c = packet[cur + 1 + k];
            let lc = if 65 <= c && c <= 90 { c + 32 } else { c };
            out.push(lc);
            proof {
                let lab = p.subrange(cur + 1, cur + 1 + k + 1);
                assert(lower_bytes(lab) == lower_bytes(p.subrange(cur + 1, cur + 1 + k)).push(lc));
                if before.len() > 0 {
                    assert(out@ == before.push(46u8) + lower_bytes(lab));
                }
            }
            k = k + 1;
        }
        assert(p.subrange(cur + 1, cur + 1 + l as int) == p.subrange(cur + 1, cur + 1 + k as int));
        assert(out@ == join_label(before, p.subrange(cur + 1, cur + 1 + l as int)));
        cur = cur + 1 + l;
    }
    if len - pos < 4 {
        return None;
    }
    let qtype = read_be16(packet, pos);
    let qclass = read_be16(packet, pos + 2);
    match utf8_string(out) {
        Some(qname) => Some(QuickQuery { tx_id, qname, qtype, qclass }),
        None => None,
    }
}

/// Once the name under construction is at the limit, a further byte of the
/// label makes the joined name too long.
proof fn lemma_join_too_long(before: Seq<u8>, label: Seq<u8>, k: int)
    requires
        0 <= k < label.len(),
        before.len() > 0 ==> before.len() + 1 + k >= NAME_LIMIT,
        before.len() == 0 ==> k >= NAME_LIMIT,
    ensures
        join_label(before, label).len() > NAME_LIMIT,
{
}

fn read_be16(packet: &[u8], i: usize) -> (r: u16)
    requires
        i + 1 < packet@.len(),
    ensures
        r == be16(packet@, i as int),
{
    (packet[i] as u16) * 256 + (packet[i + 1] as u16)
}

fn read_be32(packet: &[u8], i: usize) -> (r: u32)
    requires
        i + 3 < packet@.len(),
    ensures
        r == be32(packet@, i as int),
{
    (packet[i] as u32) * 16777216 + (packet[i + 1] as u32) * 65536 + (packet[i + 2] as u32) * 256
        + (packet[i + 3] as u32)
}

/// A pointer met with no hop left is rejected: with `MAX_HOPS` hops, a
/// chain that reaches a fifth pointer never decodes, wherever it points.
pub proof fn lemma_pointer_needs_hop(p: Seq<u8>, cur: int, out: Seq<u8>)
    requires
        0 <= cur < p.len(),
        is_pointer(p[cur]),
    ensures
        walk_name(p, cur, 1, out) is None,
{
}

/// Following a pointer spends one hop: the walk goes on at the target with
/// one hop less.
pub proof fn lemma_pointer_spends_hop(p: Seq<u8>, cur: int, hops: int, out: Seq<u8>)
    requires
        0 <= cur < p.len(),
        is_pointer(p[cur]),
        cur + 2 <= p.len(),
        hops >= 2,
    ensures
        walk_name(p, cur, hops, out) == walk_name(p, pointer_target(p, cur), hops - 1, out),
{
}

/// A compression pointer chain that loops back on itself is rejected: the
/// name at offset 12 that points to itself never decodes.
pub proof fn lemma_pointer_loop_rejected(p: Seq<u8>)
    requires
        p.len() >= 14,
        is_pointer(p[12]),
        pointer_target(p, 12) == 12,
    ensures
        quick_query_spec(p) is None,
{
    let e = Seq::<u8>::empty();
    assert(walk_name(p, 12, 1, e) is None);
    assert(walk_name(p, 12, 2, e) is None);
    assert(walk_name(p, 12, 3, e) is None);
    assert(walk_name(p, 12, 4, e) is None);
    assert(walk_name(p, 12, 5, e) is None);
}

/// Wire form of a name given as its labels: each label after its length
/// byte, then the root label.
pub open spec fn encode_labels(labels: Seq<Seq<u8>>) -> Seq<u8>
    decreases labels.len(),
{
    if labels.len() == 0 {
        seq![0u8]
    } else {
        seq![labels[0].len() as u8] + labels[0] + encode_labels(labels.drop_first())
    }
}

/// The dotted, lowercased name that `labels` decode to after `out`.
pub open spec fn join_all(out: Seq<u8>, labels: Seq<Seq<u8>>) -> Seq<u8>
    decreases labels.len(),
{
    if labels.len() == 0 {
        out
    } else {
        join_all(join_label(out, labels[0]), labels.drop_first())
    }
}

/// Every label is 1 to 63 bytes long.
pub open spec fn labels_ok(labels: Seq<Seq<u8>>) -> bool {
    forall|i: int| 0 <= i < labels.len() ==> 1 <= (#[trigger] labels[i]).len() <= 63
}

/// A query with one question, as the wire format lays it out.
pub open spec fn encode_query(tx_id: u16, labels: Seq<Seq<u8>>, qtype: u16, qclass: u16) -> Seq<u8> {
    seq![(tx_id / 256) as u8, (tx_id % 256) as u8, 1u8, 0u8, 0u8, 1u8, 0u8, 0u8, 0u8, 0u8, 0u8, 0u8]
        + encode_labels(labels) + seq![(qtype / 256) as u8, (qtype % 256) as u8, (qclass / 256) as u8, (qclass % 256) as u8]
}

proof fn lemma_join_all_grows(out: Seq<u8>, labels: Seq<Seq<u8>>)
    ensures
        join_all(out, labels).len() >= out.len(),
    decreases labels.len(),
{
    if labels.len() > 0 {
        lemma_join_all_grows(join_label(out, labels[0]), labels.drop_first());
    }
}

proof fn lemma_encode_len(labels: Seq<Seq<u8>>)
    ensures
        encode_labels(labels).len() >= 1,
    decreases labels.len(),
{
    if labels.len() > 0 {
        lemma_encode_len(labels.drop_first());
    }
}

/// Decoding the labels laid out at `cur` yields their joined name, and the
/// name ends right after them.
proof fn lemma_walk_encoded(p: Seq<u8>, labels: Seq<Seq<u8>>, cur: int, out: Seq<u8>, hops: int)
    requires
        0 <= cur,
        1 <= hops,
        labels_ok(labels),
        cur + encode_labels(labels).len() <= p.len(),
        p.subrange(cur, cur + encode_labels(labels).len()) == encode_labels(labels),
        join_all(out, labels).len() <= NAME_LIMIT,
    ensures
        walk_name(p, cur, hops, out) == Some(join_all(out, labels)),
        name_end(p, cur) == cur + encode_labels(labels).len(),
    decreases labels.len(),
{
    let e = encode_labels(labels);
    assert(p[cur] == e[0]);
    if labels.len() > 0 {
        let l = labels[0].len() as int;
        let rest = labels.drop_first();
        let er = encode_labels(rest);
        lemma_encode_len(rest);
        assert(e == seq![labels[0].len() as u8] + labels[0] + er);
        assert(p[cur] as int == l);
        assert(p.subrange(cur + 1, cur + 1 + l) == labels[0]) by {
            assert forall|k: int| 0 <= k < l implies p.subrange(cur + 1, cur + 1 + l)[k] == labels[0][k] by {
                assert(p[cur + 1 + k] == e[1 + k]);
            }
        }
        assert(p.subrange(cur + 1 + l, cur + 1 + l + er.len()) == er) by {
            assert forall|k: int| 0 <= k < er.len() implies p.subrange(cur + 1 + l, cur + 1 + l + er.len())[k] == er[k] by {
                assert(p[cur + 1 + l + k] == e[1 + l + k]);
            }
        }
        let next = join_label(out, labels[0]);
        lemma_join_all_grows(next, rest);
        assert(labels_ok(rest)) by {
            assert forall|i: int| 0 <= i < rest.len() implies 1 <= (#[trigger] rest[i]).len() <= 63 by {
                assert(rest[i] == labels[i + 1]);
            }
        }
        lemma_walk_encoded(p, rest, cur + 1 + l, next, hops);
    }
}

/// A query encoded from 1-to-63-byte labels whose dotted name fits the
/// limit parses back to its transaction id, its lowercased dotted name, its
/// type and its class.
pub proof fn lemma_quick_round_trip(tx_id: u16, labels: Seq<Seq<u8>>, qtype: u16, qclass: u16)
    requires
        labels_ok(labels),
        join_all(Seq::empty(), labels).len() <= NAME_LIMIT,
    ensures
        quick_query_spec(encode_query(tx_id, labels, qtype, qclass)) == Some(
            (tx_id, join_all(Seq::empty(), labels), qtype, qclass),
        ),
{
    let p = encode_query(tx_id, labels, qtype, qclass);
    let e = encode_labels(labels);
    let h = seq![(tx_id / 256) as u8, (tx_id % 256) as u8, 1u8, 0u8, 0u8, 1u8, 0u8, 0u8, 0u8, 0u8, 0u8, 0u8];
    let t = seq![(qtype / 256) as u8, (qtype % 256) as u8, (qclass / 256) as u8, (qclass % 256) as u8];
    lemma_encode_len(labels);
    assert(p == h + e + t);
    assert(p.subrange(12, 12 + e.len() as int) == e);
    lemma_walk_encoded(p, labels, 12, Seq::empty(), MAX_HOPS as int);
    let end: int = 12 + e.len() as int;
    assert(p[end] == t[0]);
    assert(p[end + 1] == t[1]);
    assert(p[end + 2] == t[2]);
    assert(p[end + 3] == t[3]);
    assert(be16(p, 0) == tx_id);
    assert(be16(p, 4) == 1);
    assert(be16(p, end) == qtype);
    assert(be16(p, end + 2) == qclass);
}

/// TTLs of `n` answer records starting at `pos`, in order; `None` where the
/// scan fails.
pub open spec fn answer_ttls(p: Seq<u8>, pos: int, n: nat) -> Option<Seq<u32>>
    decreases n,
{
    if n == 0 {
        Some(Seq::empty())
    } else {
        match skip_name(p, pos) {
            None => None,
            Some(e) => if e + 10 > p.len() {
                None
            } else {
                let next = e + 10 + be16(p, e + 8) as int;
                if n > 1 && next > p.len() {
                    None
                } else {
                    match answer_ttls(p, next, (n - 1) as nat) {
                        None => None,
                        Some(rest) => Some(seq![be32(p, e + 4)] + rest),
                    }
                }
            },
        }
    }
}

/// Running minimum of `m` and the TTLs.
pub open spec fn fold_min(m: u32, ts: Seq<u32>) -> u32
    decreases ts.len(),
{
    if ts.len() == 0 {
        m
    } else {
        fold_min(if ts[0] < m { ts[0] } else { m }, ts.drop_first())
    }
}

proof fn lemma_scan_is_fold(p: Seq<u8>, pos: int, n: nat, m: u32)
    ensures
        match answer_ttls(p, pos, n) {
            None => scan_answers(p, pos, n, m) is None,
            Some(ts) => scan_answers(p, pos, n, m) == Some(fold_min(m, ts)) && ts.len() == n,
        },
    decreases n,
{
    if n > 0 {
        match skip_name(p, pos) {
            None => {},
            Some(e) => {
                if e + 10 <= p.len() {
                    let next = e + 10 + be16(p, e + 8) as int;
                    let ttl = be32(p, e + 4);
                    let m2 = if ttl < m { ttl } else { m };
                    lemma_scan_is_fold(p, next, (n - 1) as nat, m2);
                    match answer_ttls(p, next, (n - 1) as nat) {
                        None => {},
                        Some(rest) => {
                            let ts = seq![ttl] + rest;
                            assert(ts.drop_first() == rest);
                            assert(ts[0] == ttl);
                        },
                    }
                }
            },
        }
    }
}

proof fn lemma_fold_min_bounds(m: u32, ts: Seq<u32>)
    ensures
        fold_min(m, ts) <= m,
        forall|i: int| 0 <= i < ts.len() ==> fold_min(m, ts) <= #[trigger] ts[i],
        fold_min(m, ts) == m || exists|i: int| 0 <= i < ts.len() && #[trigger] ts[i] == fold_min(m, ts),
    decreases ts.len(),
{
    if ts.len() > 0 {
        let m2 = if ts[0] < m { ts[0] } else { m };
        let rest = ts.drop_first();
        lemma_fold_min_bounds(m2, rest);
        assert forall|i: int| 0 <= i < ts.len() implies fold_min(m, ts) <= #[trigger] ts[i] by {
            if i > 0 {
                assert(ts[i] == rest[i - 1]);
            }
        }
        if fold_min(m2, rest) != m2 {
            let j = choose|j: int| 0 <= j < rest.len() && #[trigger] rest[j] == fold_min(m2, rest);
            assert(ts[j + 1] == rest[j]);
        } else if m2 != m {
            assert(ts[0] == fold_min(m, ts));
        }
    }
}

/// The minimum TTL a response reports is the smallest TTL among its answer
/// records.
pub proof fn lemma_min_ttl_is_smallest_answer_ttl(p: Seq<u8>)
    requires
        quick_response_spec(p) is Some,
        p.len() >= 12,
        be16(p, 6) > 0,
    ensures
        skip_questions(p, 12, be16(p, 4) as nat) is Some,
        answer_ttls(p, skip_questions(p, 12, be16(p, 4) as nat).unwrap(), be16(p, 6) as nat) matches Some(ts) && {
            let r = quick_response_spec(p).unwrap();
            &&& ts.len() == be16(p, 6)
            &&& forall|i: int| 0 <= i < ts.len() ==> r.min_ttl <= #[trigger] ts[i]
            &&& exists|i: int| 0 <= i < ts.len() && #[trigger] ts[i] == r.min_ttl
        },
{
    let q = skip_questions(p, 12, be16(p, 4) as nat).unwrap();
    let n = be16(p, 6) as nat;
    lemma_scan_is_fold(p, q, n, u32::MAX);
    let ts = answer_ttls(p, q, n).unwrap();
    lemma_fold_min_bounds(u32::MAX, ts);
    let f = fold_min(u32::MAX, ts);
    if f == u32::MAX {
        assert(ts[0] >= f);
        assert(ts[0] == f);
    }
}

/// The characters of ASCII bytes.
pub open spec fn ascii_chars(b: Seq<u8>) -> Seq<char> {
    Seq::new(b.len(), |i: int| (b[i] as u32) as char)
}

pub open spec fn all_ascii(b: Seq<u8>) -> bool {
    forall|i: int| 0 <= i < b.len() ==> #[trigger] b[i] < 128
}

/// ASCII bytes are valid UTF-8 and encode one character each.
pub proof fn lemma_ascii_utf8(b: Seq<u8>)
    requires
        all_ascii(b),
    ensures
        valid_utf8(b),
        decode_utf8(b) == ascii_chars(b),
    decreases b.len(),
{
    if b.len() > 0 {
        let x = b[0];
        assert(x & 0x7f == x) by (bit_vector)
            requires x < 128;
        let rest = b.subrange(1, b.len() as int);
        assert(rest == b.drop_first());
        assert(all_ascii(rest)) by {
            assert forall|i: int| 0 <= i < rest.len() implies #[trigger] rest[i] < 128 by {
                assert(rest[i] == b[i + 1]);
            }
        }
        lemma_ascii_utf8(rest);
        assert(decode_utf8(b) =~= ascii_chars(b)) by {
            assert(decode_utf8(b) == seq![(x as u32) as char] + decode_utf8(rest));
        }
    }
}

proof fn lemma_join_ascii(out: Seq<u8>, labels: Seq<Seq<u8>>)
    requires
        all_ascii(out),
        forall|i: int| 0 <= i < labels.len() ==> all_ascii(#[trigger] labels[i]),
    ensures
        all_ascii(join_all(out, labels)),
    decreases labels.len(),
{
    if labels.len() > 0 {
        let l = labels[0];
        let next = join_label(out, l);
        assert(all_ascii(lower_bytes(l)));
        assert(all_ascii(next)) by {
            if out.len() > 0 {
                assert forall|i: int| 0 <= i < next.len() implies #[trigger] next[i] < 128 by {
                    if i < out.len() {
                        assert(next[i] == out[i]);
                    } else if i > out.len() {
                        assert(next[i] == lower_bytes(l)[i - out.len() - 1]);
                    }
                }
            }
        }
        let rest = labels.drop_first();
        assert forall|i: int| 0 <= i < rest.len() implies all_ascii(#[trigger] rest[i]) by {
            assert(rest[i] == labels[i + 1]);
        }
        lemma_join_ascii(next, rest);
    }
}

/// An encoded query whose labels are ASCII parses, through `parse_quick`,
/// to its transaction id, its dotted lowercased name as text, its type and
/// its class.
pub proof fn lemma_parse_quick_round_trip(tx_id: u16, labels: Seq<Seq<u8>>, qtype: u16, qclass: u16, r: Option<QuickQuery>)
    requires
        labels_ok(labels),
        forall|i: int| 0 <= i < labels.len() ==> all_ascii(#[trigger] labels[i]),
        join_all(Seq::empty(), labels).len() <= NAME_LIMIT,
        quick_result(encode_query(tx_id, labels, qtype, qclass), r),
    ensures
        r matches Some(q) && q.tx_id == tx_id && q.qname@ == ascii_chars(join_all(Seq::empty(), labels))
            && q.qtype == qtype && q.qclass == qclass,
{
    lemma_quick_round_trip(tx_id, labels, qtype, qclass);
    lemma_join_ascii(Seq::empty(), labels);
    lemma_ascii_utf8(join_all(Seq::empty(), labels));
}

} // verus!
