//! Facts read from a fully decoded DNS message, and encoding of responses.
use vstd::prelude::*;

use crate::engine::{StaticAnswer, dns_name_accepts, rewrite_tx_id, with_tx_id};
use crate::net::IpAddress;

verus! {

#[verifier::external_type_specification]
#[verifier::external_body]
pub struct ExMessage(hickory_proto::op::Message);

/// What the response matchers read from a decoded upstream response.
#[derive(Clone, Debug)]
pub struct ResponseFacts {
    pub rcode: u16,
    /// Record type of each answer record, in order.
    pub answer_types: Vec<u16>,
    /// TTL of each answer record, in order.
    pub answer_ttls: Vec<u32>,
    /// Address of each answer record that is an A or AAAA record.
    pub answer_ips: Vec<Option<IpAddress>>,
    /// Address of each additional record that is an A or AAAA record.
    pub additional_ips: Vec<Option<IpAddress>>,
    pub edns_present: bool,
}

/// Whether hickory's decoder accepts the bytes as a DNS message.
pub uninterp spec fn message_decodes(b: Seq<u8>) -> bool;

/// Numeric RCODE that hickory decodes from the bytes.
pub uninterp spec fn decoded_rcode(b: Seq<u8>) -> u16;

/// Record types of the answer section that hickory decodes, in order.
pub uninterp spec fn decoded_answer_types(b: Seq<u8>) -> Seq<u16>;

/// TTLs of the answer section that hickory decodes, in order.
pub uninterp spec fn decoded_answer_ttls(b: Seq<u8>) -> Seq<u32>;

/// For each decoded answer record, its address when it is A or AAAA.
pub uninterp spec fn decoded_answer_ips(b: Seq<u8>) -> Seq<Option<IpAddress>>;

/// For each decoded additional record, its address when it is A or AAAA.
pub uninterp spec fn decoded_additional_ips(b: Seq<u8>) -> Seq<Option<IpAddress>>;

/// Whether the decoded message carries an EDNS record.
pub uninterp spec fn decoded_edns(b: Seq<u8>) -> bool;

/// A message hickory decoded, kept with the bytes it was decoded from.
pub struct DecodedMessage {
    source: Vec<u8>,
    msg: hickory_proto::op::Message,
}

impl DecodedMessage {
    /// The bytes the message was decoded from.
    pub closed spec fn source(&self) -> Seq<u8> {
        self.source@
    }
}

/// Relies on `hickory_proto::op::Message::from_vec`, the full decoder, whose
/// result depends on the bytes alone; it reads a 12-byte header first.
#[verifier::external_body]
fn decode_message(bytes: &[u8]) -> (r: Option<DecodedMessage>)
    ensures
        r is Some <==> message_decodes(bytes@),
        r matches Some(m) ==> m.source() == bytes@ && m.source().len() >= 12,
{
    match hickory_proto::op::Message::from_vec(bytes) {
        Ok(msg) => Some(DecodedMessage { source: bytes.to_vec(), msg }),
        Err(_) => None,
    }
}

/// Relies on `Message::response_code` as a number: the low four bits are
/// those of header byte 3 (EDNS adds only high bits).
#[verifier::external_body]
fn message_rcode(m: &DecodedMessage) -> (r: u16)
    ensures
        r == decoded_rcode(m.source()),
        m.source().len() >= 12 ==> r % 16 == m.source()[3] % 16,
{
    u16::from(m.msg.response_code())
}

/// Relies on `Message::answers` and `Record::record_type`.
#[verifier::external_body]
fn message_answer_types(m: &DecodedMessage) -> (r: Vec<u16>)
    ensures
        r@ == decoded_answer_types(m.source()),
{
    m.msg.answers().iter().map(|a| u16::from(a.record_type())).collect()
}

/// Relies on `Message::answers` and `Record::ttl`.
#[verifier::external_body]
fn message_answer_ttls(m: &DecodedMessage) -> (r: Vec<u32>)
    ensures
        r@ == decoded_answer_ttls(m.source()),
{
    m.msg.answers().iter().map(|a| a.ttl()).collect()
}

/// Relies on `Message::answers` and `Record::data`: the address of each
/// answer that is an A or AAAA record.
#[verifier::external_body]
fn message_answer_ips(m: &DecodedMessage) -> (r: Vec<Option<IpAddress>>)
    ensures
        r@ == decoded_answer_ips(m.source()),
{
    let mut out = Vec::new();
    for rec in m.msg.answers() {
        out.push(match rec.data() {
            Some(hickory_proto::rr::RData::A(a)) => Some(IpAddress::V4(u32::from(a.0))),
            Some(hickory_proto::rr::RData::AAAA(a)) => Some(IpAddress::V6(u128::from(a.0))),
            _ => None,
        });
    }
    out
}

/// Relies on `Message::additionals` and `Record::data`: the address of each
/// additional record that is an A or AAAA record.
#[verifier::external_body]
fn message_additional_ips(m: &DecodedMessage) -> (r: Vec<Option<IpAddress>>)
    ensures
        r@ == decoded_additional_ips(m.source()),
{
    let mut out = Vec::new();
    for rec in m.msg.additionals() {
        out.push(match rec.data() {
            Some(hickory_proto::rr::RData::A(a)) => Some(IpAddress::V4(u32::from(a.0))),
            Some(hickory_proto::rr::RData::AAAA(a)) => Some(IpAddress::V6(u128::from(a.0))),
            _ => None,
        });
    }
    out
}

/// Relies on `Message::extensions`: an EDNS record was present.
#[verifier::external_body]
fn message_has_edns(m: &DecodedMessage) -> (r: bool)
    ensures
        r == decoded_edns(m.source()),
{
    m.msg.extensions().is_some()
}

/// The facts of the response the bytes decode to.
pub open spec fn facts_of(f: ResponseFacts, b: Seq<u8>) -> bool {
    &&& f.rcode == decoded_rcode(b)
    &&& f.answer_types@ == decoded_answer_types(b)
    &&& f.answer_ttls@ == decoded_answer_ttls(b)
    &&& f.answer_ips@ == decoded_answer_ips(b)
    &&& f.additional_ips@ == decoded_additional_ips(b)
    &&& f.edns_present == decoded_edns(b)
}

/// Decodes a whole response and collects what the response matchers read;
/// `None` exactly when the decoder rejects the bytes.
pub fn decode_response_facts(bytes: &[u8]) -> (r: Option<ResponseFacts>)
    ensures
        r is Some <==> message_decodes(bytes@),
        r matches Some(f) ==> facts_of(f, bytes@) && bytes@.len() >= 12 && f.rcode % 16 == bytes@[3] % 16,
{
    match decode_message(bytes) {
        None => None,
        Some(m) => Some(
            ResponseFacts {
                rcode: message_rcode(&m),
                answer_types: message_answer_types(&m),
                answer_ttls: message_answer_ttls(&m),
                answer_ips: message_answer_ips(&m),
                additional_ips: message_additional_ips(&m),
                edns_present: message_has_edns(&m),
            },
        ),
    }
}

/// Smallest of the TTLs, or 0 for none.
pub open spec fn min_ttl_of(ttls: Seq<u32>) -> u32
    decreases ttls.len(),
{
    if ttls.len() == 0 {
        0
    } else if ttls.len() == 1 {
        ttls[0]
    } else {
        let m = min_ttl_of(ttls.drop_last());
        if ttls.last() < m {
            ttls.last()
        } else {
            m
        }
    }
}

/// Smallest answer TTL of a decoded response, 0 when it has no answers.
pub fn extract_ttl(facts: &ResponseFacts) -> (r: u32)
    ensures
        r == min_ttl_of(facts.answer_ttls@),
{
    let ttls = &facts.answer_ttls;
    if ttls.len() == 0 {
        return 0;
    }
    let mut m = ttls[0];
    let mut i: usize = 1;
    while i < ttls.len()
        invariant
            1 <= i <= ttls.len(),
            m == min_ttl_of(ttls@.take(i as int)),
        decreases ttls.len() - i,
    {
        assert(ttls@.take(i as int + 1).drop_last() == ttls@.take(i as int));
        if ttls[i] < m {
            m = ttls[i];
        }
        i = i + 1;
    }
    assert(ttls@.take(ttls.len() as int) == ttls@);
    m
}

/// Direction of a message.
#[derive(Clone, Copy, Debug, PartialEq, Eq, Structural)]
pub enum MessageKind {
    Query,
    Response,
}

/// Operation of a message.
#[derive(Clone, Copy, Debug, PartialEq, Eq, Structural)]
pub enum Opcode {
    Query,
    Status,
    Notify,
    Update,
}

/// Header fields of an encoded message.
#[derive(Clone, Copy, Debug, PartialEq, Eq, Structural)]
pub struct ResponseHeader {
    pub tx_id: u16,
    pub kind: MessageKind,
    pub opcode: Opcode,
    pub authoritative: bool,
    pub recursion_desired: bool,
    pub recursion_available: bool,
    pub rcode: u16,
}

/// Whether hickory's encoder accepts a message with this header, question
/// and answers (names already accepted); it refuses only what outgrows its
/// buffer.
pub uninterp spec fn response_encodes(
    header: ResponseHeader,
    qname: Seq<char>,
    qtype: u16,
    qclass: u16,
    answers: Seq<(Seq<char>, u32, IpAddress)>,
) -> bool;

/// A message under construction, kept with the values it was built from.
pub struct PendingMessage {
    msg: hickory_proto::op::Message,
    header: ResponseHeader,
    question: Option<(String, u16, u16)>,
    answers: Vec<StaticAnswer>,
}

impl PendingMessage {
    pub closed spec fn header(&self) -> ResponseHeader {
        self.header
    }

    pub closed spec fn question(&self) -> Option<(Seq<char>, u16, u16)> {
        match self.question {
            Some((n, t, c)) => Some((n@, t, c)),
            None => None,
        }
    }

    pub closed spec fn answers(&self) -> Seq<(Seq<char>, u32, IpAddress)> {
        crate::engine::answers_view(self.answers@)
    }
}

/// Relies on `Message::new` and its setters for id, type, opcode, AA, RD, RA
/// and RCODE.
#[verifier::external_body]
fn new_message(h: ResponseHeader) -> (r: PendingMessage)
    ensures
        r.header() == h,
        r.question() is None,
        r.answers().len() == 0,
{
    let kind = match h.kind {
        MessageKind::Query => hickory_proto::op::MessageType::Query,
        MessageKind::Response => hickory_proto::op::MessageType::Response,
    };
    let op = match h.opcode {
        Opcode::Query => hickory_proto::op::OpCode::Query,
        Opcode::Status => hickory_proto::op::OpCode::Status,
        Opcode::Notify => hickory_proto::op::OpCode::Notify,
        Opcode::Update => hickory_proto::op::OpCode::Update,
    };
    let mut m = hickory_proto::op::Message::new();
    m.set_id(h.tx_id).set_message_type(kind).set_op_code(op).set_authoritative(h.authoritative);
    m.set_recursion_desired(h.recursion_desired).set_recursion_available(h.recursion_available);
    m.set_response_code(<hickory_proto::op::ResponseCode as From<u16>>::from(h.rcode));
    PendingMessage { msg: m, header: h, question: None, answers: Vec::new() }
}

/// Relies on `Name::from_str`, `Query` and `Message::add_query`; `false`
/// exactly when hickory rejects the name.
#[verifier::external_body]
fn add_question(m: &mut PendingMessage, qname: &str, qtype: u16, qclass: u16) -> (r: bool)
    ensures
        r == dns_name_accepts(qname@),
        final(m).header() == old(m).header(),
        final(m).answers() == old(m).answers(),
        final(m).question() == if r { Some((qname@, qtype, qclass)) } else { old(m).question() },
{
    match <hickory_proto::rr::Name as std::str::FromStr>::from_str(qname) {
        Ok(name) => {
            let mut q = hickory_proto::op::Query::new();
            q.set_name(name).set_query_type(hickory_proto::rr::RecordType::from(qtype));
            q.set_query_class(hickory_proto::rr::DNSClass::from(qclass));
            m.msg.add_query(q);
            m.question = Some((qname.to_string(), qtype, qclass));
            true
        },
        Err(_) => false,
    }
}

/// Relies on `Name::from_str`, `Record::from_rdata` and
/// `Message::add_answer`: an A or AAAA record; `false` exactly when hickory
/// rejects the name.
#[verifier::external_body]
fn add_address_answer(m: &mut PendingMessage, a: &StaticAnswer) -> (r: bool)
    ensures
        r == dns_name_accepts(a.name@),
        final(m).header() == old(m).header(),
        final(m).question() == old(m).question(),
        final(m).answers() == if r { old(m).answers().push((a.name@, a.ttl, a.ip)) } else { old(m).answers() },
{
    let rdata = match a.ip {
        IpAddress::V4(v) => hickory_proto::rr::RData::A(hickory_proto::rr::rdata::A(v.into())),
        IpAddress::V6(v) => hickory_proto::rr::RData::AAAA(hickory_proto::rr::rdata::AAAA(v.into())),
    };
    match <hickory_proto::rr::Name as std::str::FromStr>::from_str(a.name.as_str()) {
        Ok(name) => {
            m.msg.add_answer(hickory_proto::rr::Record::from_rdata(name, a.ttl, rdata));
            m.answers.push(a.clone());
            true
        },
        Err(_) => false,
    }
}

/// Relies on `Message::to_vec`, the binary encoder: it writes the 12-byte
/// header first, with the RCODE's low four bits in byte 3.
#[verifier::external_body]
fn encode_message(m: &PendingMessage) -> (r: Option<Vec<u8>>)
    ensures
        m.question() matches Some((n, t, c)) ==> (r is Some <==> response_encodes(m.header(), n, t, c, m.answers())),
        r matches Some(b) ==> b@.len() >= 12 && b@[3] % 16 == m.header().rcode % 16,
{
    m.msg.to_vec().ok()
}

/// The header of this proxy's answers: a response to a standard query,
/// not authoritative, recursion available, echoing the query's RD bit.
pub open spec fn answer_header_spec(tx_id: u16, recursion_desired: bool, rcode: u16) -> ResponseHeader {
    ResponseHeader {
        tx_id,
        kind: MessageKind::Response,
        opcode: Opcode::Query,
        authoritative: false,
        recursion_desired,
        recursion_available: true,
        rcode,
    }
}

/// Every answer's name is accepted by hickory.
pub open spec fn answer_names_ok(answers: Seq<StaticAnswer>) -> bool {
    forall|i: int| 0 <= i < answers.len() ==> dns_name_accepts(#[trigger] answers[i].name@)
}

/// Encodes a response to a query: its question, the RCODE and the answers.
/// The first two bytes carry the query's transaction id. It succeeds exactly
/// when every name is accepted and the encoder takes the message.
pub fn build_response(
    tx_id: u16,
    recursion_desired: bool,
    qname: &str,
    qtype: u16,
    qclass: u16,
    rcode: u16,
    answers: &Vec<StaticAnswer>,
) -> (r: Option<Vec<u8>>)
    ensures
        r is Some <==> (dns_name_accepts(qname@) && answer_names_ok(answers@) && response_encodes(
            answer_header_spec(tx_id, recursion_desired, rcode),
            qname@,
            qtype,
            qclass,
            crate::engine::answers_view(answers@),
        )),
        r matches Some(b) ==> b@.len() >= 12 && b@ == with_tx_id(b@, tx_id) && b@[3] % 16 == rcode % 16,
{
    let header = ResponseHeader {
        tx_id,
        kind: MessageKind::Response,
        opcode: Opcode::Query,
        authoritative: false,
        recursion_desired,
        recursion_available: true,
        rcode,
    };
    let mut m = new_message(header);
    if !add_question(&mut m, qname, qtype, qclass) {
        return None;
    }
    let mut i: usize = 0;
    while i < answers.len()
        invariant
            i <= answers@.len(),
            m.header() == header,
            m.question() == Some((qname@, qtype, qclass)),
            m.answers() == crate::engine::answers_view(answers@.take(i as int)),
            forall|k: int| 0 <= k < i ==> dns_name_accepts(#[trigger] answers@[k].name@),
        decreases answers@.len() - i,
    {
        if !add_address_answer(&mut m, &answers[i]) {
            return None;
        }
        assert(crate::engine::answers_view(answers@.take(i as int + 1)) =~= crate::engine::answers_view(
            answers@.take(i as int),
        ).push((answers@[i as int].name@, answers@[i as int].ttl, answers@[i as int].ip)));
        i = i + 1;
    }
    assert(answers@.take(answers@.len() as int) == answers@);
    match encode_message(&m) {
        Some(b) => {
            let stamped = rewrite_tx_id(&b, tx_id);
            proof {
                assert(with_tx_id(stamped@, tx_id) =~= stamped@);
            }
            Some(stamped)
        },
        None => None,
    }
}

/// The RCODE the quick parser reads is the low four bits of the one the
/// full decoder reports; the two agree when the response carries no EDNS
/// extended RCODE bits.
pub proof fn lemma_quick_rcode_agrees(p: Seq<u8>, f: ResponseFacts)
    requires
        crate::quick::quick_response_spec(p) is Some,
        p.len() >= 12,
        f.rcode % 16 == p[3] % 16,
    ensures
        crate::quick::quick_response_spec(p).unwrap().rcode == f.rcode % 16,
        f.rcode < 16 ==> crate::quick::quick_response_spec(p).unwrap().rcode == f.rcode,
{
}

} // verus!
