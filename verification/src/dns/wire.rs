//! DNS messages as bytes.
use vstd::prelude::*;
use vstd::string::*;

use hickory_proto::op::{Header, Message, MessageType, OpCode, ResponseCode};
use hickory_proto::rr::rdata::{A, AAAA};
use hickory_proto::rr::{RData, Record};
use hickory_proto::serialize::binary::{BinDecodable, BinEncodable};

use crate::net::IpAddr;

verus! {

/// The number of the record type for IPv4 addresses.
pub const TYPE_A: u16 = 1;

/// The number of the record type for IPv6 addresses.
pub const TYPE_AAAA: u16 = 28;

/// The response code of an answer without error.
pub const NO_ERROR: u8 = 0;

/// The response code for a message that cannot be understood.
pub const FORM_ERR: u8 = 1;

/// The response code for a failure of the server.
pub const SERV_FAIL: u8 = 2;

/// The response code for a kind of query that is not supported.
pub const NOT_IMP: u8 = 4;

/// What the server reads of a message: whether it is a query, whether it is a standard
/// one, and the name and type of its first question.
#[derive(Debug, Clone, PartialEq, Eq)]
pub struct DnsQuery {
    pub is_query: bool,
    pub is_standard: bool,
    pub question: Option<(String, u16)>,
}

/// What a message says.
pub struct QueryFacts {
    pub is_query: bool,
    pub is_standard: bool,
    pub question: Option<(Seq<char>, u16)>,
}

impl View for DnsQuery {
    type V = QueryFacts;

    open spec fn view(&self) -> QueryFacts {
        QueryFacts {
            is_query: self.is_query,
            is_standard: self.is_standard,
            question: match self.question {
                Some((name, kind)) => Some((name@, kind)),
                None => None,
            },
        }
    }
}

/// What `hickory_proto` reads in the bytes of a message; nothing where it refuses them.
pub uninterp spec fn decoded(bytes: Seq<u8>) -> Option<QueryFacts>;

/// The bytes of a reply to a request with a response code and without an answer, marked
/// as authoritative or not, and as one of a server that asks others or not.
pub uninterp spec fn status_reply(
    request: Seq<u8>,
    authoritative: bool,
    recursive: bool,
    code: u8,
) -> Option<Seq<u8>>;

/// The bytes of a reply to a request with one answer, given by the bytes of its record,
/// with the same marks.
pub uninterp spec fn answer_reply(
    request: Seq<u8>,
    authoritative: bool,
    recursive: bool,
    record: Seq<u8>,
) -> Option<Seq<u8>>;

/// The bytes of a record that gives an address to the name that a request asks for.
pub uninterp spec fn address_record(request: Seq<u8>, ttl: u32, ip: IpAddr) -> Option<Seq<u8>>;

/// A 16-bit number, most significant byte first.
pub open spec fn two_bytes(n: u16) -> Seq<u8> {
    seq![(n / 256) as u8, (n % 256) as u8]
}

/// A 32-bit number, most significant byte first.
pub open spec fn four_bytes(n: u32) -> Seq<u8> {
    two_bytes((n / 65536) as u16) + two_bytes((n % 65536) as u16)
}

/// The end of an address record: type, class, time to live, length and address.
pub open spec fn address_tail(ttl: u32, ip: IpAddr) -> Seq<u8> {
    match ip {
        IpAddr::V4(o) => seq![0u8, 1, 0, 1] + four_bytes(ttl) + seq![0u8, 4, o.a, o.b, o.c, o.d],
        IpAddr::V6(x) => seq![0u8, 28, 0, 1] + four_bytes(ttl) + seq![0u8, 16] + two_bytes(x.s0)
            + two_bytes(x.s1) + two_bytes(x.s2) + two_bytes(x.s3) + two_bytes(x.s4) + two_bytes(
            x.s5,
        ) + two_bytes(x.s6) + two_bytes(x.s7),
    }
}

/// The header of a reply: it has the number of the request, is marked as a reply, as
/// authoritative or not, and as one of a server that asks others or not, and carries the
/// response code.
pub open spec fn replies_to(
    reply: Seq<u8>,
    request: Seq<u8>,
    authoritative: bool,
    recursive: bool,
    code: u8,
) -> bool {
    &&& reply.len() >= 12
    &&& request.len() >= 12
    &&& reply[0] == request[0]
    &&& reply[1] == request[1]
    &&& reply[2] >= 0x80
    &&& authoritative == ((reply[2] / 4) % 2 == 1)
    &&& recursive == (reply[3] >= 0x80)
    &&& reply[3] % 16 == code
}

/// Whether a reply says that it has one question, and so many answers. One that is marked
/// as cut off has none.
pub open spec fn counts(reply: Seq<u8>, answers: u8) -> bool {
    &&& reply.len() >= 12
    &&& reply[4] == 0 && reply[5] == 1
    &&& reply[6] == 0 && reply[7] == if (reply[2] / 2) % 2 == 1 {
        0
    } else {
        answers
    }
}

/// Whether a reply reads as one to a request: it is no query, of the same operation, and
/// repeats the first question.
pub open spec fn repeats(reply: Seq<u8>, request: Seq<u8>) -> bool {
    &&& decoded(request) is Some
    &&& decoded(reply) == Some(
        QueryFacts {
            is_query: false,
            is_standard: decoded(request)->0.is_standard,
            question: decoded(request)->0.question,
        },
    )
}

/// Whether some bytes end with an address, and how long it counts.
pub open spec fn gives_address(bytes: Seq<u8>, ttl: u32, ip: IpAddr) -> bool {
    let tail = address_tail(ttl, ip);
    bytes.len() >= tail.len() && bytes.skip(bytes.len() - tail.len()) == tail
}

/// Whether a reply holds the address of a record, where that is one for an address.
pub open spec fn carries(reply: Seq<u8>, request: Seq<u8>, record: Seq<u8>) -> bool {
    forall|asked: Seq<u8>, ttl: u32, ip: IpAddr| #[trigger]
        address_record(asked, ttl, ip) == Some(record) ==> gives_address(reply, ttl, ip) && repeats(
            reply,
            request,
        )
}

/// A reply that is its header alone: a number, the mark of a reply and a response code.
pub open spec fn bare_reply(hi: u8, lo: u8, code: u8) -> Seq<u8> {
    seq![hi, lo, 0x80, code, 0, 0, 0, 0, 0, 0, 0, 0]
}

/// `hickory_proto::op::Message::from_bytes`, and of its result the message type, the
/// operation, and name and type of the first query.
#[verifier::external_body]
pub(crate) fn read_query(bytes: &[u8]) -> (r: Option<DnsQuery>)
    ensures
        match r {
            Some(q) => decoded(bytes@) == Some(q@),
            None => decoded(bytes@) is None,
        },
{
    let m = Message::from_bytes(bytes).ok()?;
    let question = m.queries().first().map(|q| (q.name().to_utf8(), u16::from(q.query_type())));
    let is_query = m.message_type() == MessageType::Query;
    let is_standard = m.op_code() == OpCode::Query;
    Some(DnsQuery { is_query, is_standard, question })
}

/// `hickory_proto::op::Message::to_bytes` of the response to a request, as
/// `Header::response_from_request` starts it, with the two marks, a response code and the
/// first query of the request. A reply starts with the number of the request, is marked
/// as a reply, has the marks and the code in its third and fourth byte, and says that it
/// has one question and no answer. `Message::from_bytes` reads it as a reply of the
/// operation of the request with its first query: a query is written label by label, as it
/// was read.
#[verifier::external_body]
pub(crate) fn write_status(
    request: &[u8],
    authoritative: bool,
    recursive: bool,
    code: u8,
) -> (r: Option<Vec<u8>>)
    requires
        code < 16,
    ensures
        match r {
            Some(b) => status_reply(request@, authoritative, recursive, code) == Some(b@)
                && replies_to(b@, request@, authoritative, recursive, code) && counts(b@, 0)
                && repeats(b@, request@),
            None => status_reply(request@, authoritative, recursive, code) is None,
        },
{
    let request = Message::from_bytes(request).ok()?;
    let mut header = Header::response_from_request(request.header());
    header.set_authoritative(authoritative);
    header.set_recursion_available(recursive);
    header.set_response_code(ResponseCode::from(0, code));
    let mut response = Message::new();
    response.set_header(header);
    response.set_id(request.id());
    response.add_query(request.queries().first()?.clone());
    response.to_bytes().ok()
}

/// `hickory_proto::op::Message::to_bytes` of the response to a request with one answer:
/// as without an answer, but for the record, which `Record::from_bytes` reads, and with
/// the response code that `Header::response_from_request` sets, which says that there is
/// no error. It says that it has one question and one answer, or is marked as cut off and
/// has none. If `Message::from_bytes` reads it, then as a reply with the first query of
/// the request. For a record that was written for an address it does, and the reply ends
/// with the type, class, time to live, length and address of that record: only the name
/// before them can be shortened. What a reply with another record ends with is not stated.
#[verifier::external_body]
pub(crate) fn write_answer(
    request: &[u8],
    authoritative: bool,
    recursive: bool,
    record: &[u8],
) -> (r: Option<Vec<u8>>)
    ensures
        match r {
            Some(b) => answer_reply(request@, authoritative, recursive, record@) == Some(b@)
                && replies_to(b@, request@, authoritative, recursive, NO_ERROR) && counts(b@, 1)
                && (decoded(b@) is Some ==> repeats(b@, request@)) && carries(
                b@,
                request@,
                record@,
            ),
            None => answer_reply(request@, authoritative, recursive, record@) is None,
        },
{
    let request = Message::from_bytes(request).ok()?;
    let mut header = Header::response_from_request(request.header());
    header.set_authoritative(authoritative);
    header.set_recursion_available(recursive);
    let mut response = Message::new();
    response.set_header(header);
    response.set_id(request.id());
    response.add_query(request.queries().first()?.clone());
    response.add_answer(Record::from_bytes(record).ok()?);
    response.to_bytes().ok()
}

/// `hickory_proto::rr::Record::to_bytes` of `Record::from_rdata` with the name of the
/// first query of a request and an address. The bytes end with type, class, time to
/// live, length and address.
#[verifier::external_body]
pub(crate) fn write_address(request: &[u8], ttl: u32, ip: IpAddr) -> (r: Option<Vec<u8>>)
    ensures
        match r {
            Some(b) => address_record(request@, ttl, ip) == Some(b@) && gives_address(
                b@,
                ttl,
                ip,
            ),
            None => address_record(request@, ttl, ip) is None,
        },
{
    let name = Message::from_bytes(request).ok()?.queries().first()?.name().clone();
    let data = match ip {
        IpAddr::V4(o) => RData::A(A::new(o.a, o.b, o.c, o.d)),
        IpAddr::V6(x) => RData::AAAA(AAAA::new(x.s0, x.s1, x.s2, x.s3, x.s4, x.s5, x.s6, x.s7)),
    };
    Record::from_rdata(name, ttl, data).to_bytes().ok()
}

/// `hickory_proto::op::Message::to_bytes` of a message that is its header alone: a reply
/// with a number and a response code.
#[verifier::external_body]
pub(crate) fn write_bare_reply(hi: u8, lo: u8, code: u8) -> (r: Option<Vec<u8>>)
    requires
        code < 16,
    ensures
        r is Some,
        r->0@ == bare_reply(hi, lo, code),
{
    let mut header = Header::new();
    header.set_id(u16::from_be_bytes([hi, lo]));
    header.set_message_type(MessageType::Response);
    header.set_response_code(ResponseCode::from(0, code));
    let mut response = Message::new();
    response.set_header(header);
    response.to_bytes().ok()
}

} // verus!
