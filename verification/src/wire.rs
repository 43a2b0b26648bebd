//! The byte layout of DNS messages: the header, the question and the whole
//! message, written to bytes and read back from them.

use crate::error::class_error;
use crate::error::class_error_text;
use crate::error::question_count_error;
use crate::error::question_count_text;
use crate::error::short_header_error;
use crate::error::short_header_text;
use crate::error::truncated_question_error;
use crate::error::truncated_question_text;
use crate::error::type_error;
use crate::error::type_error_text;
use crate::error::result_view;
use crate::error::ClientError;
use crate::error::ErrorView;
use crate::name::encode_name;
use crate::name::DOT;
use crate::name::labels;
use crate::name::lemma_name_wire_len;
use crate::name::total_len;
use crate::name::lemma_parse_name_bounds;
use crate::name::lemma_parse_name_wire;
use crate::name::valid_host;
use crate::record::lemma_type_wire_reads_back;
use crate::name::name_wire;
use crate::name::parse_name;
use crate::record::class_of_wire;
use crate::record::class_wire;
use crate::record::type_of_wire;
use crate::record::type_wire;
use crate::record::ClassType;
use crate::record::QueryType;
use vstd::prelude::*;
use vstd::slice::slice_subrange;
use vstd::slice::slice_to_vec;
use vstd::utf8::encode_utf8;

verus! {

/// Number of bytes in the fixed message header: the transaction id, the flags
/// and the four record counts, two bytes each.
pub const HEADER_SIZE: usize = 12;

/// The flags of a query: a standard query with recursion desired.
pub const QUERY_FLAGS: u16 = 0x0100;

/// The value of two bytes in network byte order.
pub open spec fn be16(hi: u8, lo: u8) -> u16 {
    (hi as int * 256 + lo as int) as u16
}

/// The more significant byte of a 16-bit value.
pub open spec fn hi_byte(v: u16) -> u8 {
    (v / 256) as u8
}

/// The less significant byte of a 16-bit value.
pub open spec fn lo_byte(v: u16) -> u8 {
    (v % 256) as u8
}

/// A 16-bit value in network byte order.
pub open spec fn u16_wire(v: u16) -> Seq<u8> {
    seq![hi_byte(v), lo_byte(v)]
}

/// Two bytes are the bytes of the value they spell.
pub proof fn lemma_bytes_of_be16(hi: u8, lo: u8)
    ensures
        hi_byte(be16(hi, lo)) == hi,
        lo_byte(be16(hi, lo)) == lo,
        u16_wire(be16(hi, lo)) == seq![hi, lo],
{
}

/// A 16-bit value is spelled by its two bytes.
pub proof fn lemma_be16_of_bytes(v: u16)
    ensures
        be16(hi_byte(v), lo_byte(v)) == v,
        u16_wire(v).len() == 2,
        be16(u16_wire(v)[0], u16_wire(v)[1]) == v,
{
}

/// Reads two bytes in network byte order.
pub fn read_be16(hi: u8, lo: u8) -> (r: u16)
    ensures
        r == be16(hi, lo),
{
    let h: u16 = hi as u16;
    let l: u16 = lo as u16;
    h * 256 + l
}

/// Appends a 16-bit value in network byte order.
pub fn push_be16(out: &mut Vec<u8>, v: u16)
    ensures
        final(out)@ == old(out)@ + u16_wire(v),
{
    out.push((v / 256) as u8);
    out.push((v % 256) as u8);
    assert(out@ =~= old(out)@ + u16_wire(v));
}

/// A DNS message: a query built here, or a response read from the wire.
#[derive(Debug, Clone, PartialEq, Eq)]
pub struct DNSMessage {
    /// The transaction id, chosen by the querier and echoed by the responder.
    pub id: u16,
    /// Response flag, opcode, authoritative, truncated and recursion flags,
    /// and in the four lowest bits the response code.
    pub flags: u16,
    /// Number of questions.
    pub questions: u16,
    /// Number of answer records.
    pub answers_rrs: u16,
    /// Number of authority records.
    pub authority_rrs: u16,
    /// Number of additional records.
    pub additional_rrs: u16,
    /// The question section as it stands on the wire.
    pub queries: Vec<u8>,
    /// All that follows the question section on the wire.
    pub answers: Vec<u8>,
}

/// A message with its sections as sequences of bytes.
pub struct MessageView {
    pub id: u16,
    pub flags: u16,
    pub questions: u16,
    pub answers_rrs: u16,
    pub authority_rrs: u16,
    pub additional_rrs: u16,
    pub queries: Seq<u8>,
    pub answers: Seq<u8>,
}

impl View for DNSMessage {
    type V = MessageView;

    open spec fn view(&self) -> MessageView {
        MessageView {
            id: self.id,
            flags: self.flags,
            questions: self.questions,
            answers_rrs: self.answers_rrs,
            authority_rrs: self.authority_rrs,
            additional_rrs: self.additional_rrs,
            queries: self.queries@,
            answers: self.answers@,
        }
    }
}

/// The query message with the given id and question section.
pub open spec fn query_message(id: u16, queries: Seq<u8>) -> MessageView {
    MessageView {
        id,
        flags: QUERY_FLAGS,
        questions: 1,
        answers_rrs: 0,
        authority_rrs: 0,
        additional_rrs: 0,
        queries,
        answers: Seq::empty(),
    }
}

/// The twelve header bytes of a message.
pub open spec fn header_wire(m: MessageView) -> Seq<u8> {
    u16_wire(m.id) + u16_wire(m.flags) + u16_wire(m.questions) + u16_wire(m.answers_rrs)
        + u16_wire(m.authority_rrs) + u16_wire(m.additional_rrs)
}

/// A message on the wire: the header, the question section and what follows
/// it, with nothing in between.
pub open spec fn message_wire(m: MessageView) -> Seq<u8> {
    header_wire(m) + m.queries + m.answers
}

/// A message carries exactly one question.
pub open spec fn well_formed(m: MessageView) -> bool {
    m.questions == 1
}

/// Whether the flags mark a response: the highest bit is set.
pub open spec fn is_response(flags: u16) -> bool {
    flags >= 0x8000
}

/// The kind of query that the flags name: the four bits below the highest.
pub open spec fn opcode(flags: u16) -> u8 {
    ((flags / 0x800) % 16) as u8
}

/// The status that the flags of a response report: the four lowest bits.
pub open spec fn response_code(flags: u16) -> u8 {
    (flags % 16) as u8
}

/// The failure that the status of a response stands for. The values 1 to 5
/// are failures; 0 is success, and every other value counts as success too.
pub open spec fn status_error(flags: u16) -> Option<ErrorView> {
    let code = response_code(flags);
    if code == 1 {
        Some(ErrorView::RDCodeFormatError)
    } else if code == 2 {
        Some(ErrorView::RDCodeServerFailure)
    } else if code == 3 {
        Some(ErrorView::RDCodeNameError)
    } else if code == 4 {
        Some(ErrorView::RDCodeNotImplemented)
    } else if code == 5 {
        Some(ErrorView::RDCodeRefused)
    } else {
        None
    }
}

/// A transaction id from `rand::random`, which draws a value from the
/// generator of the current thread. Every 16-bit value can come out, so
/// nothing is said of the result. The call panics where the operating system
/// gives the generator no seed.
#[verifier::external_body]
fn random_id() -> u16 {
    rand::random()
}

/// The question of a message: the host name asked about, as the bytes of its
/// text, and the type and class of record asked for.
#[derive(Debug, Clone, PartialEq, Eq)]
pub struct Question {
    pub host: Vec<u8>,
    pub query_type: QueryType,
    pub class_type: ClassType,
}

/// A question with its host name as a sequence of bytes.
pub struct QuestionView {
    pub host: Seq<u8>,
    pub query_type: QueryType,
    pub class_type: ClassType,
}

impl View for Question {
    type V = QuestionView;

    open spec fn view(&self) -> QuestionView {
        QuestionView {
            host: self.host@,
            query_type: self.query_type,
            class_type: self.class_type,
        }
    }
}

/// A question on the wire: the name, two bytes of type and two bytes of class.
pub open spec fn question_wire(host: Seq<u8>, query_type: QueryType) -> Seq<u8> {
    name_wire(host) + type_wire(query_type) + class_wire()
}

/// Reading a question at `at`: the question and the index after it, or the
/// failure: the bytes end inside the name or before the four bytes of type and
/// class, or these stand for no known type or class.
pub open spec fn parse_question(bytes: Seq<u8>, at: int) -> Result<(QuestionView, int), ErrorView> {
    match parse_name(bytes, at) {
        None => Err(ErrorView::DecodeError(truncated_question_text())),
        Some((host, end)) => {
            if end + 4 > bytes.len() {
                Err(ErrorView::DecodeError(truncated_question_text()))
            } else {
                match type_of_wire(bytes.subrange(end, end + 2)) {
                    None => Err(
                        ErrorView::DecodeError(type_error_text(bytes.subrange(end, end + 2))),
                    ),
                    Some(query_type) => match class_of_wire(bytes.subrange(end + 2, end + 4)) {
                        None => Err(
                            ErrorView::DecodeError(
                                class_error_text(bytes.subrange(end + 2, end + 4)),
                            ),
                        ),
                        Some(class_type) => Ok(
                            (QuestionView { host, query_type, class_type }, end + 4),
                        ),
                    },
                }
            }
        },
    }
}

/// The question that a question section holds: the one that is read at its
/// start, if it ends where the section ends.
pub open spec fn question_of(queries: Seq<u8>) -> Result<QuestionView, ErrorView> {
    match parse_question(queries, 0) {
        Err(e) => Err(e),
        Ok((question, end)) => if end == queries.len() {
            Ok(question)
        } else {
            Err(ErrorView::DecodeError(truncated_question_text()))
        },
    }
}

/// Whether the flags ask the resolver to look the answer up on behalf of the
/// client: the lowest bit of the first byte.
pub open spec fn recursion_desired(flags: u16) -> bool {
    (flags / 0x100) % 2 == 1
}

/// The flags of a query mark a standard query, not a response, with
/// recursion desired and no status.
pub proof fn lemma_query_flags()
    ensures
        !is_response(QUERY_FLAGS),
        opcode(QUERY_FLAGS) == 0,
        recursion_desired(QUERY_FLAGS),
        response_code(QUERY_FLAGS) == 0,
        status_error(QUERY_FLAGS) is None,
{
}

/// Reading a message: the header fields in network byte order, one question,
/// and all further bytes as what follows the question. It fails on fewer than
/// twelve bytes, on a question count other than one, and where the question
/// cannot be read.
pub open spec fn parse_message(data: Seq<u8>) -> Result<MessageView, ErrorView> {
    if data.len() < HEADER_SIZE {
        Err(ErrorView::DecodeError(short_header_text()))
    } else if be16(data[4], data[5]) != 1 {
        Err(ErrorView::DecodeError(question_count_text(be16(data[4], data[5]))))
    } else {
        match parse_question(data, HEADER_SIZE as int) {
            Err(e) => Err(e),
            Ok((_, end)) => Ok(
                MessageView {
                    id: be16(data[0], data[1]),
                    flags: be16(data[2], data[3]),
                    questions: be16(data[4], data[5]),
                    answers_rrs: be16(data[6], data[7]),
                    authority_rrs: be16(data[8], data[9]),
                    additional_rrs: be16(data[10], data[11]),
                    queries: data.subrange(HEADER_SIZE as int, end),
                    answers: data.subrange(end, data.len() as int),
                },
            ),
        }
    }
}

/// The name read so far and what the rest of the bytes adds to it.
spec fn continue_name(bytes: Seq<u8>, read: Seq<u8>, first: bool, at: int) -> Option<
    (Seq<u8>, int),
> {
    match parse_name(bytes, at) {
        None => None,
        Some((rest, end)) => Some(
            (
                read + (if !first && bytes[at] != 0 {
                    seq![DOT]
                } else {
                    Seq::<u8>::empty()
                }) + rest,
                end,
            ),
        ),
    }
}

/// Reads the name that starts at `at`.
pub fn read_name(bytes: &[u8], at: usize) -> (r: Option<(Vec<u8>, usize)>)
    ensures
        match r {
            Some((host, end)) => parse_name(bytes@, at as int) == Some((host@, end as int)) && at
                < end <= bytes@.len(),
            None => parse_name(bytes@, at as int) is None,
        },
{
    let n = bytes.len();
    let mut host: Vec<u8> = Vec::new();
    let mut p: usize = at;
    proof {
        if let Some((rest, end)) = parse_name(bytes@, at as int) {
            assert(host@ + Seq::<u8>::empty() + rest =~= rest);
        }
    }
    while p < n
        invariant
            n == bytes@.len(),
            at <= p,
            parse_name(bytes@, at as int) == continue_name(bytes@, host@, p == at, p as int),
        decreases n - p,
    {
        let l = bytes[p];
        if l == 0 {
            proof {
                assert(host@ + Seq::<u8>::empty() + Seq::<u8>::empty() =~= host@);
            }
            return Some((host, p + 1));
        }
        if l as usize >= n - p - 1 {
            return None;
        }
        let next: usize = p + 1 + l as usize;
        let ghost read = host@;
        let ghost label = bytes@.subrange(p + 1, next as int);
        let ghost sep = if p != at {
            seq![DOT]
        } else {
            Seq::<u8>::empty()
        };
        if p != at {
            host.push(DOT);
        }
        host.extend_from_slice(slice_subrange(bytes, p + 1, next));
        proof {
            assert(host@ =~= read + sep + label);
            match parse_name(bytes@, next as int) {
                None => {},
                Some((rest, end)) => {
                    if bytes@[next as int] == 0 {
                        assert(rest =~= Seq::<u8>::empty());
                        assert(read + sep + (label + Seq::<u8>::empty()) =~= host@
                            + Seq::<u8>::empty() + rest);
                    } else {
                        assert(read + sep + (label + (seq![DOT] + rest)) =~= host@ + seq![DOT]
                            + rest);
                    }
                },
            }
        }
        p = next;
    }
    None
}

/// The view of what reading a question gives: the question and the index
/// after it, or the failure.
pub open spec fn read_view(r: Result<(Question, usize), ClientError>) -> Result<
    (QuestionView, int),
    ErrorView,
> {
    match r {
        Ok((question, end)) => Ok((question@, end as int)),
        Err(e) => Err(e@),
    }
}

/// Reads the question that starts at `at`.
pub fn read_question(bytes: &[u8], at: usize) -> (r: Result<(Question, usize), ClientError>)
    ensures
        read_view(r) == parse_question(bytes@, at as int),
        r matches Ok((_, end)) ==> at < end <= bytes@.len(),
{
    match read_name(bytes, at) {
        None => Err(truncated_question_error()),
        Some((host, end)) => {
            if bytes.len() - end < 4 {
                return Err(truncated_question_error());
            }
            let query_type = match DNSMessage::decode_query_type(
                slice_subrange(bytes, end, end + 2),
            ) {
                Ok(t) => t,
                Err(e) => {
                    return Err(e);
                },
            };
            let class_type = match DNSMessage::decode_class_type(
                slice_subrange(bytes, end + 2, end + 4),
            ) {
                Ok(c) => c,
                Err(e) => {
                    return Err(e);
                },
            };
            Ok((Question { host, query_type, class_type }, end + 4))
        },
    }
}

impl DNSMessage {
    /// The number of bytes in the header of a message.
    pub fn header_size() -> (n: usize)
        ensures
            n == HEADER_SIZE,
    {
        HEADER_SIZE
    }

    /// A query with the given question section and a transaction id drawn at
    /// random.
    pub fn new(queries: Vec<u8>) -> (m: DNSMessage)
        ensures
            m@ == query_message(m.id, queries@),
            well_formed(m@),
    {
        DNSMessage::with_id(random_id(), queries)
    }

    /// The query with the given transaction id and question section: a
    /// standard query with recursion desired, one question, no records.
    pub fn with_id(id: u16, queries: Vec<u8>) -> (m: DNSMessage)
        ensures
            m@ == query_message(id, queries@),
            well_formed(m@),
    {
        DNSMessage {
            id,
            flags: QUERY_FLAGS,
            questions: 1,
            answers_rrs: 0,
            authority_rrs: 0,
            additional_rrs: 0,
            queries,
            answers: Vec::new(),
        }
    }

    /// The message on the wire: the twelve header bytes, then the question
    /// section, then what follows it.
    pub fn encode(&self) -> (bytes: Vec<u8>)
        ensures
            bytes@ == message_wire(self@),
    {
        let mut out: Vec<u8> = Vec::new();
        push_be16(&mut out, self.id);
        push_be16(&mut out, self.flags);
        push_be16(&mut out, self.questions);
        push_be16(&mut out, self.answers_rrs);
        push_be16(&mut out, self.authority_rrs);
        push_be16(&mut out, self.additional_rrs);
        assert(out@ =~= header_wire(self@));
        out.extend_from_slice(self.queries.as_slice());
        out.extend_from_slice(self.answers.as_slice());
        out
    }

    /// Whether the message is a response.
    pub fn is_answer(&self) -> (b: bool)
        ensures
            b == is_response(self.flags),
    {
        self.flags >= 0x8000
    }

    /// Whether the message is a query.
    pub fn is_query(&self) -> (b: bool)
        ensures
            b == !is_response(self.flags),
    {
        self.flags < 0x8000
    }

    /// The kind of query; 0 is a standard query.
    pub fn op_code(&self) -> (code: u8)
        ensures
            code == opcode(self.flags),
    {
        ((self.flags / 0x800) % 16) as u8
    }

    /// The failure that the status of the message reports, if it reports one.
    pub fn rd_code(&self) -> (r: Result<(), ClientError>)
        ensures
            match r {
                Ok(_) => status_error(self.flags) is None,
                Err(e) => status_error(self.flags) == Some(e@),
            },
    {
        let code = self.flags % 16;
        if code == 1 {
            Err(ClientError::RDCodeFormatError)
        } else if code == 2 {
            Err(ClientError::RDCodeServerFailure)
        } else if code == 3 {
            Err(ClientError::RDCodeNameError)
        } else if code == 4 {
            Err(ClientError::RDCodeNotImplemented)
        } else if code == 5 {
            Err(ClientError::RDCodeRefused)
        } else {
            Ok(())
        }
    }

    /// The two bytes of a record type on the wire.
    pub fn encode_query_type(query_type: &QueryType) -> (bytes: Vec<u8>)
        ensures
            bytes@ == type_wire(*query_type),
    {
        let mut out: Vec<u8> = Vec::new();
        out.push(0);
        match query_type {
            QueryType::A => out.push(1),
            QueryType::AAAA => out.push(0x1c),
            QueryType::CNAME => out.push(5),
            QueryType::SOA => out.push(6),
        }
        assert(out@ =~= type_wire(*query_type));
        out
    }

    /// The record type that the bytes stand for; a failure to decode where
    /// they are not the two bytes of a known type.
    pub fn decode_query_type(values: &[u8]) -> (r: Result<QueryType, ClientError>)
        ensures
            match r {
                Ok(t) => type_of_wire(values@) == Some(t),
                Err(e) => type_of_wire(values@) is None && e@ == ErrorView::DecodeError(
                    type_error_text(values@),
                ),
            },
    {
        if values.len() == 2 && values[0] == 0 {
            let code = values[1];
            if code == 1 {
                return Ok(QueryType::A);
            } else if code == 0x1c {
                return Ok(QueryType::AAAA);
            } else if code == 5 {
                return Ok(QueryType::CNAME);
            } else if code == 6 {
                return Ok(QueryType::SOA);
            }
        }
        Err(type_error(values))
    }

    /// The two bytes of the Internet class on the wire.
    pub fn encode_class_type() -> (bytes: Vec<u8>)
        ensures
            bytes@ == class_wire(),
    {
        let mut out: Vec<u8> = Vec::new();
        out.push(0);
        out.push(1);
        assert(out@ =~= class_wire());
        out
    }

    /// The class that the bytes stand for; a failure to decode where they are
    /// not the two bytes of the Internet class.
    pub fn decode_class_type(values: &[u8]) -> (r: Result<ClassType, ClientError>)
        ensures
            match r {
                Ok(c) => class_of_wire(values@) == Some(c),
                Err(e) => class_of_wire(values@) is None && e@ == ErrorView::DecodeError(
                    class_error_text(values@),
                ),
            },
    {
        if values.len() == 2 && values[0] == 0 && values[1] == 1 {
            Ok(ClassType::IN)
        } else {
            Err(class_error(values))
        }
    }

    /// The question section for a host name and a record type: the labels of
    /// the name, the zero byte that ends it, the type and the Internet class.
    /// The name is taken as the bytes of its text.
    pub fn encode_host(host: &String, query_type: &QueryType) -> (bytes: Vec<u8>)
        ensures
            bytes@ == question_wire(encode_utf8(host@), *query_type),
            bytes@.len() == total_len(labels(encode_utf8(host@))) + labels(
                encode_utf8(host@),
            ).len() + 1 + 4,
            bytes@.len() == encode_utf8(host@).len() + 6,
    {
        let mut out = encode_name(host.as_str().as_bytes());
        let query_type_bytes = DNSMessage::encode_query_type(query_type);
        let class_type_bytes = DNSMessage::encode_class_type();
        out.extend_from_slice(query_type_bytes.as_slice());
        out.extend_from_slice(class_type_bytes.as_slice());
        proof {
            lemma_name_wire_len(encode_utf8(host@));
        }
        out
    }

    /// Reads a message from the bytes of one datagram. Bytes after the
    /// question are kept as they are, whatever they hold.
    pub fn decode(data: &[u8]) -> (r: Result<DNSMessage, ClientError>)
        ensures
            result_view(r) == parse_message(data@),
            r matches Ok(m) ==> well_formed(m@),
    {
        if data.len() < HEADER_SIZE {
            return Err(short_header_error());
        }
        let questions = read_be16(data[4], data[5]);
        if questions != 1 {
            return Err(question_count_error(questions));
        }
        let end = match read_question(data, HEADER_SIZE) {
            Ok((_, end)) => end,
            Err(e) => {
                return Err(e);
            },
        };
        Ok(
            DNSMessage {
                id: read_be16(data[0], data[1]),
                flags: read_be16(data[2], data[3]),
                questions,
                answers_rrs: read_be16(data[6], data[7]),
                authority_rrs: read_be16(data[8], data[9]),
                additional_rrs: read_be16(data[10], data[11]),
                queries: slice_to_vec(slice_subrange(data, HEADER_SIZE, end)),
                answers: slice_to_vec(slice_subrange(data, end, data.len())),
            },
        )
    }

    /// The question that the question section holds, or the failure to read
    /// one that fills the section exactly.
    pub fn question(&self) -> (r: Result<Question, ClientError>)
        ensures
            result_view(r) == question_of(self.queries@),
    {
        match read_question(self.queries.as_slice(), 0) {
            Ok((q, end)) => {
                if end == self.queries.len() {
                    Ok(q)
                } else {
                    Err(truncated_question_error())
                }
            },
            Err(e) => Err(e),
        }
    }
}

/// The header of a message is twelve bytes long and spells its six fields.
pub proof fn lemma_header_wire(m: MessageView)
    ensures
        header_wire(m).len() == HEADER_SIZE,
        be16(header_wire(m)[0], header_wire(m)[1]) == m.id,
        be16(header_wire(m)[2], header_wire(m)[3]) == m.flags,
        be16(header_wire(m)[4], header_wire(m)[5]) == m.questions,
        be16(header_wire(m)[6], header_wire(m)[7]) == m.answers_rrs,
        be16(header_wire(m)[8], header_wire(m)[9]) == m.authority_rrs,
        be16(header_wire(m)[10], header_wire(m)[11]) == m.additional_rrs,
{
    lemma_be16_of_bytes(m.id);
    lemma_be16_of_bytes(m.flags);
    lemma_be16_of_bytes(m.questions);
    lemma_be16_of_bytes(m.answers_rrs);
    lemma_be16_of_bytes(m.authority_rrs);
    lemma_be16_of_bytes(m.additional_rrs);
}

/// The question for a valid host name is read back from its wire form,
/// wherever that stands among other bytes: the same host name, the same type,
/// the Internet class, and nothing of what follows is touched.
pub proof fn lemma_question_round_trip(
    host: Seq<u8>,
    query_type: QueryType,
    before: Seq<u8>,
    after: Seq<u8>,
)
    requires
        valid_host(host),
    ensures
        parse_question(before + question_wire(host, query_type) + after, before.len() as int)
            == Ok::<(QuestionView, int), ErrorView>(
            (
                QuestionView { host, query_type, class_type: ClassType::IN },
                (before.len() + question_wire(host, query_type).len()) as int,
            ),
        ),
{
    let question = question_wire(host, query_type);
    let bytes = before + question + after;
    let tail = type_wire(query_type) + class_wire() + after;
    lemma_type_wire_reads_back(query_type);
    lemma_parse_name_wire(host, before, tail);
    assert(bytes =~= before + name_wire(host) + tail);
    let end = (before.len() + name_wire(host).len()) as int;
    assert(bytes.subrange(end, end + 2) =~= type_wire(query_type));
    assert(bytes.subrange(end + 2, end + 4) =~= class_wire());
}

/// A message with one question about a valid host name is read from its wire
/// form as itself, whatever its header says and whatever follows the question.
pub proof fn lemma_parse_wire(m: MessageView, host: Seq<u8>, query_type: QueryType)
    requires
        m.questions == 1,
        m.queries == question_wire(host, query_type),
        valid_host(host),
    ensures
        parse_message(message_wire(m)) == Ok::<MessageView, ErrorView>(m),
{
    let data = message_wire(m);
    let header = header_wire(m);
    lemma_header_wire(m);
    lemma_question_round_trip(host, query_type, header, m.answers);
    assert(forall|i: int| 0 <= i < 12 ==> data[i] == header[i]);
    let end = (HEADER_SIZE + m.queries.len()) as int;
    assert(data.subrange(HEADER_SIZE as int, end) =~= m.queries);
    assert(data.subrange(end, data.len() as int) =~= m.answers);
}

/// Round trip of a query: the message that `encode` writes for a query about
/// a valid host name is read back by `decode` as the same message, and its
/// question section as the same host name, type and class.
pub proof fn lemma_query_round_trip(id: u16, host: Seq<u8>, query_type: QueryType)
    requires
        valid_host(host),
    ensures
        parse_message(message_wire(query_message(id, question_wire(host, query_type)))) == Ok::<
            MessageView,
            ErrorView,
        >(query_message(id, question_wire(host, query_type))),
        question_of(question_wire(host, query_type)) == Ok::<QuestionView, ErrorView>(
            QuestionView { host, query_type, class_type: ClassType::IN },
        ),
{
    let question = question_wire(host, query_type);
    lemma_parse_wire(query_message(id, question), host, query_type);
    lemma_question_round_trip(host, query_type, Seq::empty(), Seq::empty());
    assert(question =~= Seq::<u8>::empty() + question + Seq::<u8>::empty());
}

/// A message that is read from bytes is written back as the same bytes.
pub proof fn lemma_decode_then_encode(data: Seq<u8>)
    ensures
        parse_message(data) matches Ok(m) ==> message_wire(m) == data && well_formed(m),
{
    if let Ok(m) = parse_message(data) {
        lemma_parse_name_bounds(data, HEADER_SIZE as int);
        lemma_bytes_of_be16(data[0], data[1]);
        lemma_bytes_of_be16(data[2], data[3]);
        lemma_bytes_of_be16(data[4], data[5]);
        lemma_bytes_of_be16(data[6], data[7]);
        lemma_bytes_of_be16(data[8], data[9]);
        lemma_bytes_of_be16(data[10], data[11]);
        assert(header_wire(m) =~= data.subrange(0, HEADER_SIZE as int));
        assert(message_wire(m) =~= data);
    }
}

} // verus!
