//! DNS messages as the proxy reads and writes them, decoded and encoded with
//! hickory's message type: the question a packet asks, whether an upstream
//! reply answers it, and the `NXDOMAIN` answer to a blocked query.

use hickory_proto::op::{Message, MessageType, ResponseCode};
use vstd::prelude::*;

verus! {

/// The response code of a refused name (RFC 1035 `NXDOMAIN`).
pub const NXDOMAIN: u16 = 3;

/// One question of a DNS message: its name as hickory prints it
/// (`Name::to_utf8`), the name's raw labels, and the record type and class
/// by their numbers.
pub struct Question {
    pub name: String,
    pub labels: Vec<Vec<u8>>,
    pub query_type: u16,
    pub query_class: u16,
}

impl View for Question {
    type V = (Seq<char>, Seq<Seq<u8>>, u16, u16);

    open spec fn view(&self) -> (Seq<char>, Seq<Seq<u8>>, u16, u16) {
        (self.name@, self.labels.deep_view(), self.query_type, self.query_class)
    }
}

pub open spec fn questions_view(qs: Seq<Question>) -> Seq<(Seq<char>, Seq<Seq<u8>>, u16, u16)> {
    qs.map_values(|q: Question| q@)
}

/// What hickory's `Message::from_vec` makes of a packet: the questions of the
/// decoded message, or the text of the decoding error.
pub uninterp spec fn decoded_message(packet: Seq<u8>) -> Result<
    Seq<(Seq<char>, Seq<Seq<u8>>, u16, u16)>,
    Seq<char>,
>;

/// The message id a DNS header carries in its first two bytes.
pub open spec fn header_id(packet: Seq<u8>) -> int {
    packet[0] as int * 256 + packet[1] as int
}

/// The truncation (`TC`) flag of a DNS header.
pub open spec fn header_truncated(packet: Seq<u8>) -> bool {
    packet[2] & 0x02u8 == 0x02u8
}

/// A decoded message, with the header fields and questions the proxy reads.
struct DecodedMessage {
    id: u16,
    truncated: bool,
    questions: Vec<Question>,
}

/// `Message::from_vec`, with the id (`Message::id`), the truncation flag
/// (`Message::truncated`) and each question (`Message::queries`) read out of
/// the result. Claimed: the questions, or the error text, are
/// `decoded_message` of the packet; a decoded packet holds the 12-byte header
/// (`Header::read` takes it first), whose first two bytes are the id and
/// whose third byte holds the `TC` bit (mask `0x02`).
#[verifier::external_body]
fn decode_message(packet: &[u8]) -> (res: Result<DecodedMessage, String>)
    ensures
        res matches Ok(d) ==> (decoded_message(packet@) matches Ok(qs) && qs == questions_view(
            d.questions@,
        ) && packet@.len() >= 12 && d.id == header_id(packet@) && d.truncated == header_truncated(
            packet@,
        )),
        res matches Err(e) ==> (decoded_message(packet@) matches Err(detail) && detail == e@),
{
    match Message::from_vec(packet) {
        Ok(message) => {
            let questions = message.queries().iter().map(|q| Question {
                name: q.name().to_utf8(),
                labels: q.name().iter().map(|label| label.to_vec()).collect(),
                query_type: u16::from(q.query_type()),
                query_class: u16::from(q.query_class()),
            }).collect();
            let (id, truncated) = (message.id(), message.truncated());
            Ok(DecodedMessage { id, truncated, questions })
        },
        Err(error) => Err(error.to_string()),
    }
}

/// A DNS query as the proxy sees it: its id, its `TC` flag and its first question.
pub struct QueryInfo {
    pub id: u16,
    pub truncated: bool,
    pub question: Question,
}

/// The first question of a decodable packet that asks one.
pub open spec fn first_question(packet: Seq<u8>) -> Option<(Seq<char>, Seq<Seq<u8>>, u16, u16)> {
    match decoded_message(packet) {
        Ok(qs) => if qs.len() > 0 {
            Some(qs[0])
        } else {
            None
        },
        Err(_) => None,
    }
}

/// Reads a packet's id, `TC` flag and first question; `None` when it does not
/// decode or asks nothing.
pub fn parse_query(packet: &[u8]) -> (res: Option<QueryInfo>)
    ensures
        res is Some <==> first_question(packet@) is Some,
        res matches Some(info) ==> Some(info.question@) == first_question(packet@) && info.id
            == header_id(packet@) && info.truncated == header_truncated(packet@),
{
    match decode_message(packet) {
        Ok(decoded) => {
            let DecodedMessage { id, truncated, questions } = decoded;
            let mut questions = questions;
            if questions.len() == 0 {
                return None;
            }
            let ghost qs = questions@;
            let question = questions.swap_remove(0);
            assert(question@ == questions_view(qs)[0]);
            Some(QueryInfo { id, truncated, question })
        },
        Err(_) => None,
    }
}

/// `b` lower-cased if it is an ASCII capital letter.
pub open spec fn lower_byte(b: u8) -> u8 {
    if 65 <= b <= 90 {
        (b + 32) as u8
    } else {
        b
    }
}

/// Two labels spell the same text, ignoring ASCII case.
pub open spec fn same_label(a: Seq<u8>, b: Seq<u8>) -> bool {
    a.len() == b.len() && forall|j: int| 0 <= j < a.len() ==> lower_byte(#[trigger] a[j]) == lower_byte(b[j])
}

/// Two names have the same labels, ignoring ASCII case (hickory's `Name` equality).
pub open spec fn same_name(a: Seq<Seq<u8>>, b: Seq<Seq<u8>>) -> bool {
    a.len() == b.len() && forall|i: int| 0 <= i < a.len() ==> same_label(#[trigger] a[i], b[i])
}

fn lower_byte_exec(b: u8) -> (r: u8)
    ensures
        r == lower_byte(b),
{
    if 65 <= b && b <= 90 {
        b + 32
    } else {
        b
    }
}

fn labels_match(a: &Vec<u8>, b: &Vec<u8>) -> (res: bool)
    ensures
        res == same_label(a@, b@),
{
    if a.len() != b.len() {
        return false;
    }
    let mut j: usize = 0;
    while j < a.len()
        invariant
            a.len() == b.len(),
            j <= a.len(),
            forall|k: int| 0 <= k < j ==> lower_byte(#[trigger] a@[k]) == lower_byte(b@[k]),
        decreases a.len() - j,
    {
        if lower_byte_exec(a[j]) != lower_byte_exec(b[j]) {
            return false;
        }
        j += 1;
    }
    true
}

fn names_match(a: &Vec<Vec<u8>>, b: &Vec<Vec<u8>>) -> (res: bool)
    ensures
        res == same_name(a.deep_view(), b.deep_view()),
{
    if a.len() != b.len() {
        return false;
    }
    let mut i: usize = 0;
    while i < a.len()
        invariant
            a.len() == b.len(),
            i <= a.len(),
            forall|k: int| 0 <= k < i ==> same_label(#[trigger] a.deep_view()[k], b.deep_view()[k]),
        decreases a.len() - i,
    {
        let m = labels_match(&a[i], &b[i]);
        assert(a.deep_view()[i as int] == a@[i as int]@ && b.deep_view()[i as int] == b@[i as int]@);
        if !m {
            return false;
        }
        i += 1;
    }
    true
}

/// A reply answers a query: same id, same question name (ignoring case),
/// type and class.
pub open spec fn answers_query(request: QueryInfo, reply: QueryInfo) -> bool {
    &&& reply.id == request.id
    &&& same_name(reply.question.labels.deep_view(), request.question.labels.deep_view())
    &&& reply.question.query_type == request.question.query_type
    &&& reply.question.query_class == request.question.query_class
}

/// The addresses of the upstream resolvers.
pub open spec fn is_upstream_address(source: Seq<char>) -> bool {
    source == "1.1.1.1:53"@ || source == "8.8.8.8:53"@
}

pub open spec fn spec_upstream_reply_valid(
    source: Seq<char>,
    request: QueryInfo,
    reply: Option<QueryInfo>,
) -> bool {
    is_upstream_address(source) && match reply {
        Some(r) => answers_query(request, r),
        None => false,
    }
}

/// Whether an upstream reply, read with `parse_query`, is to be trusted: it
/// came from an upstream resolver and answers the query.
pub fn upstream_reply_valid(source: &str, request: &QueryInfo, reply: Option<QueryInfo>) -> (res:
    bool)
    ensures
        res == spec_upstream_reply_valid(source@, *request, reply),
{
    if !crate::dns_proxy::is_upstream_source(source) {
        return false;
    }
    match reply {
        Some(r) => {
            r.id == request.id && names_match(&r.question.labels, &request.question.labels)
                && r.question.query_type == request.question.query_type
                && r.question.query_class == request.question.query_class
        },
        None => false,
    }
}

/// What the proxy does with a reply that came over UDP.
pub enum UpstreamVerdict {
    /// Hand it to the client.
    Accept,
    /// It is valid but truncated: ask the same resolver over TCP.
    RetryOverTcp,
    /// It is not from a resolver or does not answer the query: try the next one.
    Mismatch,
}

/// Judges a UDP reply from `source`, read with `parse_query`.
pub fn judge_upstream_reply(source: &str, request: &QueryInfo, reply: Option<QueryInfo>) -> (v:
    UpstreamVerdict)
    ensures
        !spec_upstream_reply_valid(source@, *request, reply) ==> v is Mismatch,
        spec_upstream_reply_valid(source@, *request, reply) ==> (if reply->0.truncated {
            v is RetryOverTcp
        } else {
            v is Accept
        }),
{
    let truncated = match &reply {
        Some(r) => r.truncated,
        None => false,
    };
    if !upstream_reply_valid(source, request, reply) {
        UpstreamVerdict::Mismatch
    } else if truncated {
        UpstreamVerdict::RetryOverTcp
    } else {
        UpstreamVerdict::Accept
    }
}

/// What hickory makes of the query in `packet` turned into an answer:
/// `Message::from_vec`, then the message made a response
/// (`set_message_type`) with this response code (`set_response_code` with
/// `ResponseCode::from(u16)`) and authoritative flag (`set_authoritative`),
/// its answer, authority and additional records taken out (`take_answers`,
/// `take_name_servers`, `take_additionals`), and encoded (`Message::to_vec`);
/// or the text of the first error.
pub uninterp spec fn answer_encoding(packet: Seq<u8>, response_code: u16, authoritative: bool) -> Result<
    Seq<u8>,
    Seq<char>,
>;

/// The hickory calls of `answer_encoding`, on the query in `packet`.
/// Claimed: the bytes, or the error text, are `answer_encoding` of the
/// arguments.
#[verifier::external_body]
fn encode_answer(packet: &[u8], response_code: u16, authoritative: bool) -> (res: Result<
    Vec<u8>,
    String,
>)
    ensures
        res matches Ok(b) ==> (answer_encoding(packet@, response_code, authoritative) matches Ok(e)
            && e == b@),
        res matches Err(m) ==> (answer_encoding(packet@, response_code, authoritative) matches Err(e)
            && e == m@),
{
    let mut message = Message::from_vec(packet).map_err(|error| error.to_string())?;
    message.set_message_type(MessageType::Response);
    message.set_response_code(<ResponseCode as From<u16>>::from(response_code));
    message.set_authoritative(authoritative);
    message.take_answers();
    message.take_name_servers();
    message.take_additionals();
    message.to_vec().map_err(|error| error.to_string())
}

/// An encoded reply answers the query in `request` with `NXDOMAIN`: both hold
/// a 12-byte header; the reply keeps the query's id, opcode, recursion-desired
/// flag and question count, is a response (`QR`), authoritative (`AA`), has
/// response code 3, and empty answer and authority sections. (The additional
/// section may still carry the query's EDNS and signature records, which
/// hickory keeps apart from the other additional records.)
pub open spec fn answers_as_nxdomain(request: Seq<u8>, reply: Seq<u8>) -> bool {
    &&& request.len() >= 12
    &&& reply.len() >= 12
    &&& reply[0] == request[0] && reply[1] == request[1]
    &&& reply[2] & 0x80u8 == 0x80u8
    &&& reply[2] & 0x78u8 == request[2] & 0x78u8
    &&& reply[2] & 0x04u8 == 0x04u8
    &&& reply[2] & 0x01u8 == request[2] & 0x01u8
    &&& reply[3] & 0x0fu8 == 3u8
    &&& reply[4] == request[4] && reply[5] == request[5]
    &&& reply[6] == 0u8 && reply[7] == 0u8 && reply[8] == 0u8 && reply[9] == 0u8
}

/// Checks the header of an encoded reply against the query it answers.
pub fn is_nxdomain_answer(request: &[u8], reply: &[u8]) -> (ok: bool)
    ensures
        ok == answers_as_nxdomain(request@, reply@),
{
    if request.len() < 12 || reply.len() < 12 {
        return false;
    }
    reply[0] == request[0] && reply[1] == request[1] && reply[2] & 0x80u8 == 0x80u8 && reply[2]
        & 0x78u8 == request[2] & 0x78u8 && reply[2] & 0x04u8 == 0x04u8 && reply[2] & 0x01u8
        == request[2] & 0x01u8 && reply[3] & 0x0fu8 == 3u8 && reply[4] == request[4] && reply[5]
        == request[5] && reply[6] == 0u8 && reply[7] == 0u8 && reply[8] == 0u8 && reply[9] == 0u8
}

pub open spec fn encode_failure(detail: Seq<char>) -> Seq<char> {
    "Unable to encode DNS response: "@ + detail
}

pub open spec fn decode_failure(detail: Seq<char>) -> Seq<char> {
    "Unable to decode DNS query: "@ + detail
}

pub open spec fn header_mismatch_detail() -> Seq<char> {
    "the reply header does not answer the query"@
}

/// What becomes of an encoded `NXDOMAIN` reply to `packet`: kept when its
/// header answers the query, refused otherwise.
pub open spec fn spec_checked_reply(packet: Seq<u8>, encoded: Result<Seq<u8>, Seq<char>>) -> Result<
    Seq<u8>,
    Seq<char>,
> {
    match encoded {
        Ok(reply) => if answers_as_nxdomain(packet, reply) {
            Ok(reply)
        } else {
            Err(encode_failure(header_mismatch_detail()))
        },
        Err(detail) => Err(encode_failure(detail)),
    }
}

pub open spec fn bytes_result_view(r: Result<Vec<u8>, String>) -> Result<Seq<u8>, Seq<char>> {
    match r {
        Ok(b) => Ok(b@),
        Err(e) => Err(e@),
    }
}

/// Takes the encoding of the `NXDOMAIN` reply to `packet` and keeps it only
/// when its header answers the query.
pub fn checked_reply(packet: &[u8], encoded: Result<Vec<u8>, String>) -> (res: Result<
    Vec<u8>,
    String,
>)
    ensures
        bytes_result_view(res) == spec_checked_reply(packet@, bytes_result_view(encoded)),
{
    match encoded {
        Ok(reply) => {
            if is_nxdomain_answer(packet, reply.as_slice()) {
                Ok(reply)
            } else {
                let mut msg = crate::text::text("Unable to encode DNS response: ");
                crate::text::push_text(&mut msg, "the reply header does not answer the query");
                Err(msg)
            }
        },
        Err(detail) => {
            let mut msg = crate::text::text("Unable to encode DNS response: ");
            crate::text::push_text(&mut msg, detail.as_str());
            Err(msg)
        },
    }
}

/// The answer to a blocked query: a packet that does not decode is refused;
/// otherwise the query turned into an authoritative `NXDOMAIN` response and
/// encoded, kept when its header answers the query.
pub open spec fn spec_blocked_response(packet: Seq<u8>) -> Result<Seq<u8>, Seq<char>> {
    match decoded_message(packet) {
        Err(detail) => Err(decode_failure(detail)),
        Ok(_) => spec_checked_reply(packet, answer_encoding(packet, NXDOMAIN, true)),
    }
}

/// The authoritative `NXDOMAIN` answer to the query in `packet`: the decoded
/// query turned into a response with empty answer, authority and additional
/// sections, encoded, and returned only when its header answers the query.
pub fn blocked_response(packet: &[u8]) -> (res: Result<Vec<u8>, String>)
    ensures
        bytes_result_view(res) == spec_blocked_response(packet@),
        res matches Ok(reply) ==> answers_as_nxdomain(packet@, reply@),
{
    match decode_message(packet) {
        Ok(_) => {},
        Err(detail) => {
            let mut msg = crate::text::text("Unable to decode DNS query: ");
            crate::text::push_text(&mut msg, detail.as_str());
            return Err(msg);
        },
    }
    checked_reply(packet, encode_answer(packet, NXDOMAIN, true))
}

} // verus!
