//! The ways in which setting up a client or running a query can fail.

use crate::text::numeral;
use crate::text::push_numeral;
use vstd::prelude::*;
use vstd::string::StringExecFns;

verus! {

/// A failure of a client. The variants with a text carry the message of the
/// failure; the `RDCode` variants report the status that the resolver sent.
#[derive(Debug, Clone, PartialEq, Eq)]
pub enum ClientError {
    /// The address of the resolver could not be parsed.
    ParseError(String),
    /// The local socket could not be bound.
    BindError(String),
    /// The socket could not be connected to the resolver.
    ConnectError(String),
    /// The query could not be sent.
    SendError(String),
    /// No response could be received.
    RecvError(String),
    /// The query could not be put on the wire.
    EncodeError(String),
    /// The response could not be read.
    DecodeError(String),
    /// The response answers another query than the one that was sent.
    DecodeIdError(String),
    /// The resolver could not read the query.
    RDCodeFormatError,
    /// The resolver failed.
    RDCodeServerFailure,
    /// The name does not exist.
    RDCodeNameError,
    /// The resolver does not support the query.
    RDCodeNotImplemented,
    /// The resolver refused to answer.
    RDCodeRefused,
}

/// A failure with its message as a sequence of characters.
pub enum ErrorView {
    ParseError(Seq<char>),
    BindError(Seq<char>),
    ConnectError(Seq<char>),
    SendError(Seq<char>),
    RecvError(Seq<char>),
    EncodeError(Seq<char>),
    DecodeError(Seq<char>),
    DecodeIdError(Seq<char>),
    RDCodeFormatError,
    RDCodeServerFailure,
    RDCodeNameError,
    RDCodeNotImplemented,
    RDCodeRefused,
}

impl View for ClientError {
    type V = ErrorView;

    open spec fn view(&self) -> ErrorView {
        match self {
            ClientError::ParseError(m) => ErrorView::ParseError(m@),
            ClientError::BindError(m) => ErrorView::BindError(m@),
            ClientError::ConnectError(m) => ErrorView::ConnectError(m@),
            ClientError::SendError(m) => ErrorView::SendError(m@),
            ClientError::RecvError(m) => ErrorView::RecvError(m@),
            ClientError::EncodeError(m) => ErrorView::EncodeError(m@),
            ClientError::DecodeError(m) => ErrorView::DecodeError(m@),
            ClientError::DecodeIdError(m) => ErrorView::DecodeIdError(m@),
            ClientError::RDCodeFormatError => ErrorView::RDCodeFormatError,
            ClientError::RDCodeServerFailure => ErrorView::RDCodeServerFailure,
            ClientError::RDCodeNameError => ErrorView::RDCodeNameError,
            ClientError::RDCodeNotImplemented => ErrorView::RDCodeNotImplemented,
            ClientError::RDCodeRefused => ErrorView::RDCodeRefused,
        }
    }
}

impl ClientError {
    /// The name of the kind of failure, as it is shown to a user.
    pub fn description(&self) -> (text: String)
        ensures
            text@ == description_text(self@),
    {
        match self {
            ClientError::ParseError(_) => "ParseError".to_owned(),
            ClientError::BindError(_) => "BindError".to_owned(),
            ClientError::ConnectError(_) => "ConnectError".to_owned(),
            ClientError::SendError(_) => "SendError".to_owned(),
            ClientError::RecvError(_) => "RecvError".to_owned(),
            ClientError::EncodeError(_) => "EncodeError".to_owned(),
            ClientError::DecodeError(_) => "DecodeError".to_owned(),
            ClientError::DecodeIdError(_) => "DecodeIdError".to_owned(),
            ClientError::RDCodeFormatError => "DNS message RDCode format error".to_owned(),
            ClientError::RDCodeServerFailure => "DNS message RDCode server failure error".to_owned(),
            ClientError::RDCodeNameError => "DNS message RDCode name error".to_owned(),
            ClientError::RDCodeNotImplemented => {
                "DNS message RDCode not implemented server error".to_owned()
            },
            ClientError::RDCodeRefused => "DNS message RDCode server refused error".to_owned(),
        }
    }
}

/// The text that names each kind of failure.
pub open spec fn description_text(error: ErrorView) -> Seq<char> {
    match error {
        ErrorView::ParseError(_) => "ParseError"@,
        ErrorView::BindError(_) => "BindError"@,
        ErrorView::ConnectError(_) => "ConnectError"@,
        ErrorView::SendError(_) => "SendError"@,
        ErrorView::RecvError(_) => "RecvError"@,
        ErrorView::EncodeError(_) => "EncodeError"@,
        ErrorView::DecodeError(_) => "DecodeError"@,
        ErrorView::DecodeIdError(_) => "DecodeIdError"@,
        ErrorView::RDCodeFormatError => "DNS message RDCode format error"@,
        ErrorView::RDCodeServerFailure => "DNS message RDCode server failure error"@,
        ErrorView::RDCodeNameError => "DNS message RDCode name error"@,
        ErrorView::RDCodeNotImplemented => "DNS message RDCode not implemented server error"@,
        ErrorView::RDCodeRefused => "DNS message RDCode server refused error"@,
    }
}

/// The view of a result: that of its value or of its failure.
pub open spec fn result_view<T: View>(result: Result<T, ClientError>) -> Result<T::V, ErrorView> {
    match result {
        Ok(value) => Ok(value@),
        Err(error) => Err(error@),
    }
}

/// Numbers written in the given base and joined by a comma and a space.
pub open spec fn items_text(values: Seq<u8>, base: nat) -> Seq<char>
    decreases values.len(),
{
    if values.len() == 0 {
        Seq::empty()
    } else if values.len() == 1 {
        numeral(values[0] as nat, base)
    } else {
        items_text(values.drop_last(), base) + seq![',', ' '] + numeral(values.last() as nat, base)
    }
}

/// Bytes as a list in square brackets, each written in the given base.
pub open spec fn list_text(values: Seq<u8>, base: nat) -> Seq<char> {
    seq!['['] + items_text(values, base) + seq![']']
}

/// Appends bytes as a list in square brackets.
pub(crate) fn push_list(out: &mut String, values: &[u8], base: u16)
    requires
        2 <= base <= 16,
    ensures
        final(out)@ == old(out)@ + list_text(values@, base as nat),
{
    out.push('[');
    let n = values.len();
    let mut i: usize = 0;
    assert(values@.take(0) =~= Seq::<u8>::empty());
    assert(out@ =~= old(out)@ + seq!['['] + items_text(values@.take(0), base as nat));
    while i < n
        invariant
            n == values@.len(),
            i <= n,
            2 <= base <= 16,
            out@ == old(out)@ + seq!['['] + items_text(values@.take(i as int), base as nat),
        decreases n - i,
    {
        let ghost before = values@.take(i as int);
        let ghost after = values@.take(i + 1);
        if i > 0 {
            out.push(',');
            out.push(' ');
        }
        push_numeral(out, values[i] as u16, base);
        proof {
            assert(after.drop_last() =~= before);
            assert(after.last() == values@[i as int]);
            assert(out@ =~= old(out)@ + seq!['['] + items_text(after, base as nat));
        }
        i = i + 1;
    }
    out.push(']');
    assert(values@.take(n as int) =~= values@);
    assert(out@ =~= old(out)@ + list_text(values@, base as nat));
}

/// The message for bytes that stand for no known record type, the bytes in
/// hexadecimal.
pub open spec fn type_error_text(values: Seq<u8>) -> Seq<char> {
    "Failed to decode query type "@ + list_text(values, 16)
}

/// The failure to read a record type from the given bytes.
pub fn type_error(values: &[u8]) -> (e: ClientError)
    ensures
        e@ == ErrorView::DecodeError(type_error_text(values@)),
{
    let mut m = "Failed to decode query type ".to_owned();
    push_list(&mut m, values, 16);
    ClientError::DecodeError(m)
}

/// The message for bytes that stand for no known class, the bytes in
/// hexadecimal.
pub open spec fn class_error_text(values: Seq<u8>) -> Seq<char> {
    "Failed to decode class type "@ + list_text(values, 16)
}

/// The failure to read a class from the given bytes.
pub fn class_error(values: &[u8]) -> (e: ClientError)
    ensures
        e@ == ErrorView::DecodeError(class_error_text(values@)),
{
    let mut m = "Failed to decode class type ".to_owned();
    push_list(&mut m, values, 16);
    ClientError::DecodeError(m)
}

/// The message for a record that does not start with a compression pointer,
/// with the byte found in its place in hexadecimal.
pub open spec fn pointer_error_text(found: u8) -> Seq<char> {
    "Expected 0xc0 on decoded response, found "@ + numeral(found as nat, 16) + " instead"@
}

/// The failure to find a compression pointer at the start of a record.
pub fn pointer_error(found: u8) -> (e: ClientError)
    ensures
        e@ == ErrorView::DecodeError(pointer_error_text(found)),
{
    let mut m = "Expected 0xc0 on decoded response, found ".to_owned();
    push_numeral(&mut m, found as u16, 16);
    m.append(" instead");
    assert(m@ =~= pointer_error_text(found));
    ClientError::DecodeError(m)
}

/// The message for a response to another query, with both transaction ids as
/// pairs of bytes in decimal.
pub open spec fn id_error_text(sent: u16, received: u16) -> Seq<char> {
    "Sent Query ID: "@ + list_text(seq![(sent / 256) as u8, (sent % 256) as u8], 10)
        + ", but received Response ID: "@ + list_text(
        seq![(received / 256) as u8, (received % 256) as u8],
        10,
    )
}

/// The failure of a response to carry the transaction id of the query.
pub fn id_error(sent: u16, received: u16) -> (e: ClientError)
    ensures
        e@ == ErrorView::DecodeIdError(id_error_text(sent, received)),
{
    let mut ours: Vec<u8> = Vec::new();
    ours.push((sent / 256) as u8);
    ours.push((sent % 256) as u8);
    let mut theirs: Vec<u8> = Vec::new();
    theirs.push((received / 256) as u8);
    theirs.push((received % 256) as u8);
    assert(ours@ =~= seq![(sent / 256) as u8, (sent % 256) as u8]);
    assert(theirs@ =~= seq![(received / 256) as u8, (received % 256) as u8]);
    let mut m = "Sent Query ID: ".to_owned();
    push_list(&mut m, ours.as_slice(), 10);
    m.append(", but received Response ID: ");
    push_list(&mut m, theirs.as_slice(), 10);
    assert(m@ =~= id_error_text(sent, received));
    ClientError::DecodeIdError(m)
}

/// The message for a message that ends before its header does.
pub open spec fn short_header_text() -> Seq<char> {
    "DNS message is shorter than its header"@
}

/// The failure to find a whole header.
pub fn short_header_error() -> (e: ClientError)
    ensures
        e@ == ErrorView::DecodeError(short_header_text()),
{
    ClientError::DecodeError("DNS message is shorter than its header".to_owned())
}

/// The message for a message that does not announce exactly one question,
/// with the number it announces in decimal.
pub open spec fn question_count_text(count: u16) -> Seq<char> {
    "Expected one question in DNS message, found "@ + numeral(count as nat, 10)
}

/// The failure of a message to carry exactly one question.
pub fn question_count_error(count: u16) -> (e: ClientError)
    ensures
        e@ == ErrorView::DecodeError(question_count_text(count)),
{
    let mut m = "Expected one question in DNS message, found ".to_owned();
    push_numeral(&mut m, count, 10);
    ClientError::DecodeError(m)
}

/// The message for a message that ends inside its question.
pub open spec fn truncated_question_text() -> Seq<char> {
    "DNS message ends inside its question"@
}

/// The failure to find a whole question.
pub fn truncated_question_error() -> (e: ClientError)
    ensures
        e@ == ErrorView::DecodeError(truncated_question_text()),
{
    ClientError::DecodeError("DNS message ends inside its question".to_owned())
}

/// The message for a message that ends inside the address of a record.
pub open spec fn truncated_record_text() -> Seq<char> {
    "DNS message ends inside an address record"@
}

/// The failure to find the whole address of a record.
pub fn truncated_record_error() -> (e: ClientError)
    ensures
        e@ == ErrorView::DecodeError(truncated_record_text()),
{
    ClientError::DecodeError("DNS message ends inside an address record".to_owned())
}

/// The message for a host name with a label that no length byte can announce.
pub open spec fn long_label_text() -> Seq<char> {
    "Host name has a label of more than 255 bytes"@
}

/// The failure to encode a host name with an over-long label.
pub fn long_label_error() -> (e: ClientError)
    ensures
        e@ == ErrorView::EncodeError(long_label_text()),
{
    ClientError::EncodeError("Host name has a label of more than 255 bytes".to_owned())
}

} // verus!
