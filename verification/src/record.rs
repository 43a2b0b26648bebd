//! Record types, classes and the answers that a response yields.

use vstd::prelude::*;

verus! {

/// The kind of record that a question asks for or that an answer carries.
/// Only `A` and `AAAA` records carry an address.
#[derive(Debug, Clone, Copy, PartialEq, Eq, Structural)]
pub enum QueryType {
    A,
    AAAA,
    SOA,
    CNAME,
}

/// The class of a record. Only the Internet class exists here.
#[derive(Debug, Clone, Copy, PartialEq, Eq, Structural)]
pub enum ClassType {
    IN,
}

/// One address found in a response.
#[derive(Debug, Clone, PartialEq, Eq)]
pub struct QueryAnswer {
    /// The host name that was asked for.
    pub host: String,
    /// The address in its canonical text form.
    pub address: String,
    /// `A` for an IPv4 address, `AAAA` for an IPv6 address.
    pub query_type: QueryType,
    /// The class of the record that held the address.
    pub class_type: ClassType,
}

/// What an answer says, with its texts as sequences of characters.
pub struct AnswerView {
    pub host: Seq<char>,
    pub address: Seq<char>,
    pub query_type: QueryType,
    pub class_type: ClassType,
}

impl View for QueryAnswer {
    type V = AnswerView;

    open spec fn view(&self) -> AnswerView {
        AnswerView {
            host: self.host@,
            address: self.address@,
            query_type: self.query_type,
            class_type: self.class_type,
        }
    }
}

/// The views of a sequence of answers, in order.
pub open spec fn answers_view(answers: Seq<QueryAnswer>) -> Seq<AnswerView> {
    answers.map_values(|a: QueryAnswer| a@)
}

/// The two bytes that stand for a record type on the wire.
pub open spec fn type_wire(query_type: QueryType) -> Seq<u8> {
    match query_type {
        QueryType::A => seq![0u8, 1u8],
        QueryType::AAAA => seq![0u8, 0x1cu8],
        QueryType::CNAME => seq![0u8, 5u8],
        QueryType::SOA => seq![0u8, 6u8],
    }
}

/// The record type that bytes of the wire stand for, if any.
pub open spec fn type_of_wire(values: Seq<u8>) -> Option<QueryType> {
    if values.len() != 2 || values[0] != 0 {
        None
    } else if values[1] == 1 {
        Some(QueryType::A)
    } else if values[1] == 0x1c {
        Some(QueryType::AAAA)
    } else if values[1] == 5 {
        Some(QueryType::CNAME)
    } else if values[1] == 6 {
        Some(QueryType::SOA)
    } else {
        None
    }
}

/// The two bytes that stand for the Internet class on the wire.
pub open spec fn class_wire() -> Seq<u8> {
    seq![0u8, 1u8]
}

/// The class that bytes of the wire stand for, if any.
pub open spec fn class_of_wire(values: Seq<u8>) -> Option<ClassType> {
    if values.len() == 2 && values[0] == 0 && values[1] == 1 {
        Some(ClassType::IN)
    } else {
        None
    }
}

/// Every record type and the class are read back from their own bytes.
pub proof fn lemma_type_wire_reads_back(query_type: QueryType)
    ensures
        type_of_wire(type_wire(query_type)) == Some(query_type),
        type_wire(query_type).len() == 2,
        class_of_wire(class_wire()) == Some(ClassType::IN),
        class_wire().len() == 2,
{
}

/// Bytes that are read as a record type or as the class are the bytes of it.
pub proof fn lemma_type_of_wire_writes_back(values: Seq<u8>)
    ensures
        type_of_wire(values) matches Some(t) ==> type_wire(t) == values,
        class_of_wire(values) is Some ==> class_wire() == values,
{
    if let Some(t) = type_of_wire(values) {
        assert(type_wire(t) =~= values);
    }
    if class_of_wire(values) is Some {
        assert(class_wire() =~= values);
    }
}

} // verus!
