//! The records after the question of a response, and the addresses in them.

use crate::error::class_error_text;
use crate::error::pointer_error;
use crate::error::pointer_error_text;
use crate::error::truncated_record_error;
use crate::error::truncated_record_text;
use crate::error::type_error_text;
use crate::error::ClientError;
use crate::error::ErrorView;
use crate::record::answers_view;
use crate::record::class_of_wire;
use crate::record::class_wire;
use crate::record::lemma_type_wire_reads_back;
use crate::record::type_wire;
use crate::record::type_of_wire;
use crate::record::AnswerView;
use crate::record::ClassType;
use crate::record::QueryAnswer;
use crate::record::QueryType;
use crate::text::ipv4_text;
use crate::text::ipv4_to_string;
use crate::text::ipv6_text;
use crate::text::ipv6_to_string;
use crate::wire::be16;
use crate::wire::lemma_be16_of_bytes;
use crate::wire::u16_wire;
use crate::wire::read_be16;
use crate::wire::DNSMessage;
use vstd::prelude::*;
use vstd::slice::slice_subrange;

verus! {

/// The byte that every record must start with: a compression pointer, which
/// stands for the name of the question.
pub const POINTER: u8 = 0xc0;

/// The bytes of a record before its data: two for the pointer, two for the
/// type, two for the class, four for the time to live, two for the length of
/// the data.
pub const RECORD_PREFIX: usize = 12;

/// The number of bytes in an IPv4 address.
pub const IPV4_SIZE: usize = 4;

/// The number of bytes in an IPv6 address.
pub const IPV6_SIZE: usize = 16;

/// The eight groups of the IPv6 address in sixteen bytes.
pub open spec fn groups_of(bytes: Seq<u8>) -> Seq<u16> {
    seq![
        be16(bytes[0], bytes[1]),
        be16(bytes[2], bytes[3]),
        be16(bytes[4], bytes[5]),
        be16(bytes[6], bytes[7]),
        be16(bytes[8], bytes[9]),
        be16(bytes[10], bytes[11]),
        be16(bytes[12], bytes[13]),
        be16(bytes[14], bytes[15]),
    ]
}

/// The text of the IPv4 address in four bytes.
pub open spec fn ipv4_address(bytes: Seq<u8>) -> Seq<char> {
    ipv4_text(bytes[0], bytes[1], bytes[2], bytes[3])
}

/// The text of the IPv6 address in sixteen bytes.
pub open spec fn ipv6_address(bytes: Seq<u8>) -> Seq<char> {
    ipv6_text(groups_of(bytes))
}

/// The answer for `host` that an `A` record with the given four bytes yields.
pub open spec fn ipv4_answer(host: Seq<char>, bytes: Seq<u8>) -> AnswerView {
    AnswerView {
        host,
        address: ipv4_address(bytes),
        query_type: QueryType::A,
        class_type: ClassType::IN,
    }
}

/// The answer for `host` that an `AAAA` record with the given sixteen bytes
/// yields.
pub open spec fn ipv6_answer(host: Seq<char>, bytes: Seq<u8>) -> AnswerView {
    AnswerView {
        host,
        address: ipv6_address(bytes),
        query_type: QueryType::AAAA,
        class_type: ClassType::IN,
    }
}

/// The answers found so far followed by those of the rest, or the failure of
/// the rest.
pub open spec fn followed_by(
    found: Seq<AnswerView>,
    rest: Result<Seq<AnswerView>, ErrorView>,
) -> Result<Seq<AnswerView>, ErrorView> {
    match rest {
        Ok(more) => Ok(found + more),
        Err(e) => Err(e),
    }
}

/// What the record at `at` yields, where at least the twelve bytes of its
/// prefix are there: the answer for `host`, if the record carries an address,
/// and the index at which the next record starts.
///
/// The record must start with the pointer byte and name a known type and the
/// Internet class. An `A` record yields the address in the four bytes after
/// its prefix, an `AAAA` record that in the sixteen bytes after it, and it is
/// a failure where those bytes are not all there; other records yield nothing.
/// The next record starts after the prefix and as many bytes as the length
/// field says.
#[verifier::opaque]
pub open spec fn record_at(host: Seq<char>, resp: Seq<u8>, at: int) -> Result<
    (Option<AnswerView>, int),
    ErrorView,
> {
    let data = at + RECORD_PREFIX;
    let next = data + be16(resp[at + 10], resp[at + 11]);
    if resp[at] != POINTER {
        Err(ErrorView::DecodeError(pointer_error_text(resp[at])))
    } else {
        match type_of_wire(resp.subrange(at + 2, at + 4)) {
            None => Err(ErrorView::DecodeError(type_error_text(resp.subrange(at + 2, at + 4)))),
            Some(query_type) => match class_of_wire(resp.subrange(at + 4, at + 6)) {
                None => Err(
                    ErrorView::DecodeError(class_error_text(resp.subrange(at + 4, at + 6))),
                ),
                Some(_) => match query_type {
                    QueryType::A => if data + IPV4_SIZE > resp.len() {
                        Err(ErrorView::DecodeError(truncated_record_text()))
                    } else {
                        Ok(
                            (
                                Some(ipv4_answer(host, resp.subrange(data, data + IPV4_SIZE))),
                                next,
                            ),
                        )
                    },
                    QueryType::AAAA => if data + IPV6_SIZE > resp.len() {
                        Err(ErrorView::DecodeError(truncated_record_text()))
                    } else {
                        Ok(
                            (
                                Some(ipv6_answer(host, resp.subrange(data, data + IPV6_SIZE))),
                                next,
                            ),
                        )
                    },
                    _ => Ok((None, next)),
                },
            },
        }
    }
}

/// The answers for `host` in the records of `resp` from index `at` on, in
/// the order of the records, or the failure of the first record that cannot be
/// read. The walk ends where fewer than twelve bytes remain.
pub open spec fn walk(host: Seq<char>, resp: Seq<u8>, at: int) -> Result<
    Seq<AnswerView>,
    ErrorView,
>
    decreases resp.len() - at,
{
    if at < 0 || resp.len() - at < RECORD_PREFIX {
        Ok(Seq::empty())
    } else {
        match record_at(host, resp, at) {
            Err(e) => Err(e),
            Ok((answer, next)) => {
                let rest = if at < next <= resp.len() {
                    walk(host, resp, next)
                } else {
                    Ok(Seq::empty())
                };
                match answer {
                    Some(a) => followed_by(seq![a], rest),
                    None => rest,
                }
            },
        }
    }
}

/// The next record starts no earlier than at the end of the prefix.
pub proof fn lemma_record_advances(host: Seq<char>, resp: Seq<u8>, at: int)
    ensures
        record_at(host, resp, at) matches Ok((_, next)) ==> at + RECORD_PREFIX <= next,
{
    reveal(record_at);
}

/// The view of what reading the record at `at` gives: the answer, if there is
/// one, and the index after the record, or the failure.
spec fn record_view(r: Result<(Option<QueryAnswer>, u16), ClientError>, at: int) -> Result<
    (Option<AnswerView>, int),
    ErrorView,
> {
    match r {
        Ok((Some(a), data_len)) => Ok((Some(a@), at + RECORD_PREFIX + data_len)),
        Ok((None, data_len)) => Ok((None, at + RECORD_PREFIX + data_len)),
        Err(e) => Err(e@),
    }
}

/// The text of the IPv4 address in the four bytes at `data`.
fn read_ipv4(resp: &[u8], data: usize) -> (address: String)
    requires
        data + IPV4_SIZE <= resp@.len(),
    ensures
        address@ == ipv4_address(resp@.subrange(data as int, data + IPV4_SIZE)),
{
    ipv4_to_string(resp[data], resp[data + 1], resp[data + 2], resp[data + 3])
}

/// The text of the IPv6 address in the sixteen bytes at `data`.
fn read_ipv6(resp: &[u8], data: usize) -> (address: String)
    requires
        data + IPV6_SIZE <= resp@.len(),
    ensures
        address@ == ipv6_address(resp@.subrange(data as int, data + IPV6_SIZE)),
{
    let groups: [u16; 8] = [
        read_be16(resp[data], resp[data + 1]),
        read_be16(resp[data + 2], resp[data + 3]),
        read_be16(resp[data + 4], resp[data + 5]),
        read_be16(resp[data + 6], resp[data + 7]),
        read_be16(resp[data + 8], resp[data + 9]),
        read_be16(resp[data + 10], resp[data + 11]),
        read_be16(resp[data + 12], resp[data + 13]),
        read_be16(resp[data + 14], resp[data + 15]),
    ];
    assert(groups@ =~= groups_of(resp@.subrange(data as int, data + IPV6_SIZE)));
    ipv6_to_string(&groups)
}

/// Reads the record at `at`: the answer for `host`, if the record carries an
/// address, and how many bytes of data the record announces.
fn read_record(host: &String, resp: &[u8], at: usize) -> (r: Result<
    (Option<QueryAnswer>, u16),
    ClientError,
>)
    requires
        at + RECORD_PREFIX <= resp@.len(),
    ensures
        record_view(r, at as int) == record_at(host@, resp@, at as int),
{
    reveal(record_at);
    if resp[at] != POINTER {
        return Err(pointer_error(resp[at]));
    }
    let query_type = match DNSMessage::decode_query_type(slice_subrange(resp, at + 2, at + 4)) {
        Ok(t) => t,
        Err(e) => {
            return Err(e);
        },
    };
    match DNSMessage::decode_class_type(slice_subrange(resp, at + 4, at + 6)) {
        Ok(_) => {},
        Err(e) => {
            return Err(e);
        },
    }
    let data_len = read_be16(resp[at + 10], resp[at + 11]);
    let data: usize = at + RECORD_PREFIX;
    match query_type {
        QueryType::A => {
            if resp.len() - data < IPV4_SIZE {
                return Err(truncated_record_error());
            }
            let answer = QueryAnswer {
                host: host.clone(),
                address: read_ipv4(resp, data),
                query_type: QueryType::A,
                class_type: ClassType::IN,
            };
            Ok((Some(answer), data_len))
        },
        QueryType::AAAA => {
            if resp.len() - data < IPV6_SIZE {
                return Err(truncated_record_error());
            }
            let answer = QueryAnswer {
                host: host.clone(),
                address: read_ipv6(resp, data),
                query_type: QueryType::AAAA,
                class_type: ClassType::IN,
            };
            Ok((Some(answer), data_len))
        },
        _ => Ok((None, data_len)),
    }
}

/// The view of the outcome of a query: that of its answers or of its failure.
pub open spec fn outcome_view(outcome: Result<Vec<QueryAnswer>, ClientError>) -> Result<
    Seq<AnswerView>,
    ErrorView,
> {
    match outcome {
        Ok(answers) => Ok(answers_view(answers@)),
        Err(e) => Err(e@),
    }
}

impl DNSMessage {
    /// The addresses for `host` in the records after the question of this
    /// message, in the order of the records.
    pub fn decode_query_answers(&self, host: &String) -> (r: Result<
        Vec<QueryAnswer>,
        ClientError,
    >)
        ensures
            outcome_view(r) == walk(host@, self.answers@, 0),
    {
        let resp = self.answers.as_slice();
        let n = resp.len();
        let mut answers: Vec<QueryAnswer> = Vec::new();
        let mut i: usize = 0;
        proof {
            if let Ok(more) = walk(host@, resp@, 0) {
                assert(answers_view(answers@) + more =~= more);
            }
        }
        while n - i >= RECORD_PREFIX
            invariant
                n == resp@.len(),
                resp@ == self.answers@,
                i <= n,
                walk(host@, resp@, 0) == followed_by(
                    answers_view(answers@),
                    walk(host@, resp@, i as int),
                ),
            decreases n - i,
        {
            let ghost found = answers_view(answers@);
            let (answer, data_len) = match read_record(host, resp, i) {
                Ok(record) => record,
                Err(e) => {
                    return Err(e);
                },
            };
            let data: usize = i + RECORD_PREFIX;
            let ghost rest = if data + data_len <= n {
                walk(host@, resp@, data + data_len)
            } else {
                Ok::<Seq<AnswerView>, ErrorView>(Seq::empty())
            };
            match answer {
                Some(a) => {
                    proof {
                        assert(answers_view(answers@.push(a)) =~= found + seq![a@]);
                        if let Ok(more) = rest {
                            assert(found + (seq![a@] + more) =~= found + seq![a@] + more);
                        }
                    }
                    answers.push(a);
                },
                None => {},
            }
            assert(walk(host@, resp@, 0) == followed_by(answers_view(answers@), rest));
            if data_len as usize > n - data {
                proof {
                    assert(answers_view(answers@) + Seq::<AnswerView>::empty() =~= answers_view(
                        answers@,
                    ));
                }
                return Ok(answers);
            }
            i = data + data_len as usize;
        }
        proof {
            assert(answers_view(answers@) + Seq::<AnswerView>::empty() =~= answers_view(answers@));
        }
        Ok(answers)
    }
}

/// A record on the wire: the pointer to the name at `offset`, the type, the
/// Internet class, the time to live, the length of the data and the data.
pub open spec fn record_wire(offset: u8, query_type: QueryType, ttl: Seq<u8>, data: Seq<u8>) -> Seq<
    u8,
> {
    seq![POINTER, offset] + type_wire(query_type) + class_wire() + ttl + u16_wire(
        data.len() as u16,
    ) + data
}

/// The bytes of a record stand where the walk looks for them.
proof fn lemma_record_wire(offset: u8, query_type: QueryType, ttl: Seq<u8>, data: Seq<u8>)
    requires
        ttl.len() == 4,
        data.len() <= u16::MAX,
    ensures
        ({
            let resp = record_wire(offset, query_type, ttl, data);
            &&& resp.len() == RECORD_PREFIX + data.len()
            &&& resp[0] == POINTER
            &&& resp.subrange(2, 4) == type_wire(query_type)
            &&& resp.subrange(4, 6) == class_wire()
            &&& be16(resp[10], resp[11]) == data.len()
            &&& resp.subrange(RECORD_PREFIX as int, resp.len() as int) == data
        }),
{
    let resp = record_wire(offset, query_type, ttl, data);
    lemma_type_wire_reads_back(query_type);
    lemma_be16_of_bytes(data.len() as u16);
    assert(resp.subrange(2, 4) =~= type_wire(query_type));
    assert(resp.subrange(4, 6) =~= class_wire());
    assert(resp.subrange(RECORD_PREFIX as int, resp.len() as int) =~= data);
    assert(resp[10] == u16_wire(data.len() as u16)[0]);
    assert(resp[11] == u16_wire(data.len() as u16)[1]);
}

/// One `A` record with four bytes of data yields one answer: the IPv4
/// address that the four bytes spell, whatever they are.
pub proof fn lemma_one_a_record(host: Seq<char>, offset: u8, ttl: Seq<u8>, address: Seq<u8>)
    requires
        ttl.len() == 4,
        address.len() == IPV4_SIZE,
    ensures
        walk(host, record_wire(offset, QueryType::A, ttl, address), 0) == Ok::<
            Seq<AnswerView>,
            ErrorView,
        >(seq![ipv4_answer(host, address)]),
{
    reveal(record_at);
    let resp = record_wire(offset, QueryType::A, ttl, address);
    lemma_record_wire(offset, QueryType::A, ttl, address);
    lemma_type_wire_reads_back(QueryType::A);
    let a = ipv4_answer(host, address);
    assert(record_at(host, resp, 0) == Ok::<(Option<AnswerView>, int), ErrorView>(
        (Some(a), resp.len() as int),
    ));
    assert(walk(host, resp, resp.len() as int) == Ok::<Seq<AnswerView>, ErrorView>(Seq::empty()));
    assert(seq![a] + Seq::<AnswerView>::empty() =~= seq![a]);
}

/// One `AAAA` record with sixteen bytes of data yields one answer: the IPv6
/// address that the sixteen bytes spell, whatever they are.
pub proof fn lemma_one_aaaa_record(host: Seq<char>, offset: u8, ttl: Seq<u8>, address: Seq<u8>)
    requires
        ttl.len() == 4,
        address.len() == IPV6_SIZE,
    ensures
        walk(host, record_wire(offset, QueryType::AAAA, ttl, address), 0) == Ok::<
            Seq<AnswerView>,
            ErrorView,
        >(seq![ipv6_answer(host, address)]),
{
    reveal(record_at);
    let resp = record_wire(offset, QueryType::AAAA, ttl, address);
    lemma_record_wire(offset, QueryType::AAAA, ttl, address);
    lemma_type_wire_reads_back(QueryType::AAAA);
    let a = ipv6_answer(host, address);
    assert(record_at(host, resp, 0) == Ok::<(Option<AnswerView>, int), ErrorView>(
        (Some(a), resp.len() as int),
    ));
    assert(walk(host, resp, resp.len() as int) == Ok::<Seq<AnswerView>, ErrorView>(Seq::empty()));
    assert(seq![a] + Seq::<AnswerView>::empty() =~= seq![a]);
}

} // verus!
