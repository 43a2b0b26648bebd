//! The resolver client without its socket: what is to be done next to set a
//! client up and to run one query, and what each outcome leads to. The caller
//! owns the socket, does what a state asks for, and reports how it went.

pub use crate::error::ClientError;
pub use crate::record::QueryAnswer;
pub use crate::record::QueryType;

use crate::answer::ipv4_answer;
use crate::answer::ipv6_answer;
use crate::answer::lemma_one_a_record;
use crate::answer::lemma_one_aaaa_record;
use crate::answer::outcome_view;
use crate::answer::record_wire;
use crate::answer::walk;
use crate::answer::IPV4_SIZE;
use crate::answer::IPV6_SIZE;
use crate::answer::RECORD_PREFIX;
use crate::error::id_error;
use crate::error::id_error_text;
use crate::error::long_label_error;
use crate::error::long_label_text;
use crate::error::ErrorView;
use crate::name::encodable_host;
use crate::name::is_encodable;
use crate::name::valid_host;
use crate::record::AnswerView;
use crate::wire::lemma_parse_wire;
use crate::wire::message_wire;
use crate::wire::parse_message;
use crate::wire::query_message;
use crate::wire::question_wire;
use crate::wire::response_code;
use crate::wire::status_error;
use crate::wire::DNSMessage;
use crate::wire::MessageView;
use vstd::prelude::*;
use vstd::slice::slice_subrange;
use vstd::utf8::encode_utf8;

verus! {

/// The largest payload of a UDP datagram, and the size of the buffer that a
/// response is received in.
pub const MAX_DATAGRAM_SIZE: usize = 65_507;

/// The family of an IP address.
#[derive(Debug, Clone, Copy, PartialEq, Eq, Structural)]
pub enum Family {
    V4,
    V6,
}

/// A client whose socket is bound and connected to its resolver.
#[derive(Debug, Clone, Copy, PartialEq, Eq, Structural)]
pub struct Client {
    /// The largest response that the client receives.
    pub max_datagram_size: usize,
}

/// The local address that a client binds to: the wildcard address of the
/// family of its resolver, with a port that the system chooses.
pub open spec fn wildcard_text(family: Family) -> Seq<char> {
    match family {
        Family::V4 => "0.0.0.0:0"@,
        Family::V6 => "[::]:0"@,
    }
}

/// The local address for a resolver of the given family.
pub fn wildcard(family: Family) -> (text: String)
    ensures
        text@ == wildcard_text(family),
{
    match family {
        Family::V4 => "0.0.0.0:0".to_owned(),
        Family::V6 => "[::]:0".to_owned(),
    }
}

/// The state of setting a client up: what the caller is to do next, or how
/// the setup ended.
#[derive(Debug, PartialEq, Eq)]
pub enum Setup {
    /// The text is to be parsed as the socket address of the resolver.
    ParseRemote(String),
    /// The text is to be parsed as the local socket address.
    ParseLocal(String),
    /// A UDP socket is to be bound to the local address.
    Bind,
    /// The socket is to be connected to the resolver.
    Connect,
    /// Nothing is left to do.
    Done(Result<Client, ClientError>),
}

/// The state of a setup with its texts as sequences of characters.
pub enum SetupView {
    ParseRemote(Seq<char>),
    ParseLocal(Seq<char>),
    Bind,
    Connect,
    Done(Result<Client, ErrorView>),
}

impl View for Setup {
    type V = SetupView;

    open spec fn view(&self) -> SetupView {
        match self {
            Setup::ParseRemote(text) => SetupView::ParseRemote(text@),
            Setup::ParseLocal(text) => SetupView::ParseLocal(text@),
            Setup::Bind => SetupView::Bind,
            Setup::Connect => SetupView::Connect,
            Setup::Done(Ok(client)) => SetupView::Done(Ok(*client)),
            Setup::Done(Err(e)) => SetupView::Done(Err(e@)),
        }
    }
}

/// How a step of the setup went. A failure carries its message.
#[derive(Debug, PartialEq, Eq)]
pub enum SetupEvent {
    /// An address was parsed, and is of the given family.
    Parsed(Result<Family, String>),
    /// The socket was bound.
    Bound(Result<(), String>),
    /// The socket was connected.
    Connected(Result<(), String>),
}

/// An outcome of a setup step with its message as a sequence of characters.
pub enum SetupEventView {
    Parsed(Result<Family, Seq<char>>),
    Bound(Result<(), Seq<char>>),
    Connected(Result<(), Seq<char>>),
}

impl View for SetupEvent {
    type V = SetupEventView;

    open spec fn view(&self) -> SetupEventView {
        match self {
            SetupEvent::Parsed(Ok(family)) => SetupEventView::Parsed(Ok(*family)),
            SetupEvent::Parsed(Err(m)) => SetupEventView::Parsed(Err(m@)),
            SetupEvent::Bound(Ok(_)) => SetupEventView::Bound(Ok(())),
            SetupEvent::Bound(Err(m)) => SetupEventView::Bound(Err(m@)),
            SetupEvent::Connected(Ok(_)) => SetupEventView::Connected(Ok(())),
            SetupEvent::Connected(Err(m)) => SetupEventView::Connected(Err(m@)),
        }
    }
}

/// The client that a finished setup yields.
pub open spec fn ready_client() -> Client {
    Client { max_datagram_size: MAX_DATAGRAM_SIZE }
}

/// The state that follows `state` when `event` is reported.
///
/// The address of the resolver is parsed first, then the wildcard address of
/// its family, then the socket is bound, then connected. The first failure
/// ends the setup: a parse failure as `ParseError`, a bind failure as
/// `BindError`, a connect failure as `ConnectError`, each with the message
/// reported. An event that does not answer what the state asks for changes
/// nothing.
pub open spec fn setup_next(state: SetupView, event: SetupEventView) -> SetupView {
    match (state, event) {
        (SetupView::ParseRemote(_), SetupEventView::Parsed(Ok(family))) => SetupView::ParseLocal(
            wildcard_text(family),
        ),
        (SetupView::ParseRemote(_), SetupEventView::Parsed(Err(m))) => SetupView::Done(
            Err(ErrorView::ParseError(m)),
        ),
        (SetupView::ParseLocal(_), SetupEventView::Parsed(Ok(_))) => SetupView::Bind,
        (SetupView::ParseLocal(_), SetupEventView::Parsed(Err(m))) => SetupView::Done(
            Err(ErrorView::ParseError(m)),
        ),
        (SetupView::Bind, SetupEventView::Bound(Ok(_))) => SetupView::Connect,
        (SetupView::Bind, SetupEventView::Bound(Err(m))) => SetupView::Done(
            Err(ErrorView::BindError(m)),
        ),
        (SetupView::Connect, SetupEventView::Connected(Ok(_))) => SetupView::Done(
            Ok(ready_client()),
        ),
        (SetupView::Connect, SetupEventView::Connected(Err(m))) => SetupView::Done(
            Err(ErrorView::ConnectError(m)),
        ),
        (state, _) => state,
    }
}

impl Setup {
    /// Takes the outcome of what the state asked for and moves on.
    pub fn step(self, event: SetupEvent) -> (next: Setup)
        ensures
            next@ == setup_next(self@, event@),
    {
        match self {
            Setup::ParseRemote(text) => match event {
                SetupEvent::Parsed(Ok(family)) => Setup::ParseLocal(wildcard(family)),
                SetupEvent::Parsed(Err(m)) => Setup::Done(Err(ClientError::ParseError(m))),
                _ => Setup::ParseRemote(text),
            },
            Setup::ParseLocal(text) => match event {
                SetupEvent::Parsed(Ok(_)) => Setup::Bind,
                SetupEvent::Parsed(Err(m)) => Setup::Done(Err(ClientError::ParseError(m))),
                _ => Setup::ParseLocal(text),
            },
            Setup::Bind => match event {
                SetupEvent::Bound(Ok(_)) => Setup::Connect,
                SetupEvent::Bound(Err(m)) => Setup::Done(Err(ClientError::BindError(m))),
                _ => Setup::Bind,
            },
            Setup::Connect => match event {
                SetupEvent::Connected(Ok(_)) => Setup::Done(
                    Ok(Client { max_datagram_size: MAX_DATAGRAM_SIZE }),
                ),
                SetupEvent::Connected(Err(m)) => Setup::Done(Err(ClientError::ConnectError(m))),
                _ => Setup::Connect,
            },
            Setup::Done(result) => Setup::Done(result),
        }
    }
}

/// What a response to the query with transaction id `id` about `host` yields.
///
/// The response is read as a message first, and a failure to read it is the
/// outcome. Then its transaction id must be that of the query. Then a status
/// that stands for a failure is the outcome. Only then are the records after
/// the question walked for addresses.
pub open spec fn response_outcome(id: u16, host: Seq<char>, data: Seq<u8>) -> Result<
    Seq<AnswerView>,
    ErrorView,
> {
    match parse_message(data) {
        Err(e) => Err(e),
        Ok(m) => {
            if m.id != id {
                Err(ErrorView::DecodeIdError(id_error_text(id, m.id)))
            } else {
                match status_error(m.flags) {
                    Some(e) => Err(e),
                    None => walk(host, m.answers, 0),
                }
            }
        },
    }
}

/// Reads the response to the query with transaction id `id` about `host`.
pub fn read_response(id: u16, host: &String, data: &[u8]) -> (r: Result<
    Vec<QueryAnswer>,
    ClientError,
>)
    ensures
        outcome_view(r) == response_outcome(id, host@, data@),
{
    let message = match DNSMessage::decode(data) {
        Ok(m) => m,
        Err(e) => {
            return Err(e);
        },
    };
    if message.id != id {
        return Err(id_error(id, message.id));
    }
    match message.rd_code() {
        Ok(_) => message.decode_query_answers(host),
        Err(e) => Err(e),
    }
}

/// The state of one query: what the caller is to do next, or how the query
/// ended.
#[derive(Debug, PartialEq, Eq)]
pub enum Exchange {
    /// The datagram is to be sent to the resolver.
    Send { id: u16, host: String, datagram: Vec<u8>, limit: usize },
    /// One datagram of at most `limit` bytes is to be received.
    Receive { id: u16, host: String, limit: usize },
    /// Nothing is left to do.
    Done(Result<Vec<QueryAnswer>, ClientError>),
}

/// The state of a query with its texts and bytes as sequences.
pub enum ExchangeView {
    Send { id: u16, host: Seq<char>, datagram: Seq<u8>, limit: usize },
    Receive { id: u16, host: Seq<char>, limit: usize },
    Done(Result<Seq<AnswerView>, ErrorView>),
}

impl View for Exchange {
    type V = ExchangeView;

    open spec fn view(&self) -> ExchangeView {
        match self {
            Exchange::Send { id, host, datagram, limit } => ExchangeView::Send {
                id: *id,
                host: host@,
                datagram: datagram@,
                limit: *limit,
            },
            Exchange::Receive { id, host, limit } => ExchangeView::Receive {
                id: *id,
                host: host@,
                limit: *limit,
            },
            Exchange::Done(outcome) => ExchangeView::Done(outcome_view(*outcome)),
        }
    }
}

/// How a step of a query went. A failure carries its message.
#[derive(Debug, PartialEq, Eq)]
pub enum Event {
    /// The datagram was sent.
    Sent(Result<(), String>),
    /// A datagram was received, and these are its bytes.
    Received(Result<Vec<u8>, String>),
}

/// An outcome of a query step with its message or bytes as a sequence.
pub enum EventView {
    Sent(Result<(), Seq<char>>),
    Received(Result<Seq<u8>, Seq<char>>),
}

impl View for Event {
    type V = EventView;

    open spec fn view(&self) -> EventView {
        match self {
            Event::Sent(Ok(_)) => EventView::Sent(Ok(())),
            Event::Sent(Err(m)) => EventView::Sent(Err(m@)),
            Event::Received(Ok(data)) => EventView::Received(Ok(data@)),
            Event::Received(Err(m)) => EventView::Received(Err(m@)),
        }
    }
}

/// The first `limit` bytes of `data`, or all of it where it has no more.
pub open spec fn truncated(data: Seq<u8>, limit: usize) -> Seq<u8> {
    if data.len() > limit {
        data.take(limit as int)
    } else {
        data
    }
}

/// The state in which a client with the given limit starts a query about
/// `host` with transaction id `id`: the query is to be sent, unless the host
/// name has a label of more than 255 bytes, which no query can carry.
pub open spec fn exchange_start(limit: usize, host: Seq<char>, query_type: QueryType, id: u16)
    -> ExchangeView {
    if encodable_host(encode_utf8(host)) {
        ExchangeView::Send {
            id,
            host,
            datagram: message_wire(
                query_message(id, question_wire(encode_utf8(host), query_type)),
            ),
            limit,
        }
    } else {
        ExchangeView::Done(Err(ErrorView::EncodeError(long_label_text())))
    }
}

/// The state that follows `state` when `event` is reported.
///
/// Once the datagram is sent, one datagram is to be received, and what it
/// yields as a response is the outcome of the query; of a datagram longer
/// than the limit only the bytes up to the limit count. A failure to send ends
/// the query as `SendError`, a failure to receive as `RecvError`, each with the
/// message reported. An event that does not answer what the state asks for
/// changes nothing.
pub open spec fn exchange_next(state: ExchangeView, event: EventView) -> ExchangeView {
    match (state, event) {
        (ExchangeView::Send { id, host, datagram, limit }, EventView::Sent(Ok(_))) => {
            ExchangeView::Receive { id, host, limit }
        },
        (ExchangeView::Send { .. }, EventView::Sent(Err(m))) => ExchangeView::Done(
            Err(ErrorView::SendError(m)),
        ),
        (ExchangeView::Receive { id, host, limit }, EventView::Received(Ok(data))) => {
            ExchangeView::Done(response_outcome(id, host, truncated(data, limit)))
        },
        (ExchangeView::Receive { .. }, EventView::Received(Err(m))) => ExchangeView::Done(
            Err(ErrorView::RecvError(m)),
        ),
        (state, _) => state,
    }
}

impl Client {
    /// Begins the setup of a client for the resolver at `remote_addr`:
    /// nothing is done yet, and the address is to be parsed first. The setup
    /// ends with the client, or with the failure of one of its steps.
    pub fn new(remote_addr: String) -> (setup: Setup)
        ensures
            setup@ == SetupView::ParseRemote(remote_addr@),
    {
        Setup::ParseRemote(remote_addr)
    }

    /// Starts a query for the records of the given type about `host`, under
    /// a transaction id drawn at random.
    pub fn query(&self, host: String, query_type: QueryType) -> (exchange: Exchange)
        ensures
            exists|id: u16|
                exchange@ == #[trigger] exchange_start(
                    self.max_datagram_size,
                    host@,
                    query_type,
                    id,
                ),
    {
        if !is_encodable(host.as_str().as_bytes()) {
            let exchange = Exchange::Done(Err(long_label_error()));
            assert(exchange@ == exchange_start(self.max_datagram_size, host@, query_type, 0));
            return exchange;
        }
        let queries = DNSMessage::encode_host(&host, &query_type);
        let message = DNSMessage::new(queries);
        let datagram = message.encode();
        let id = message.id;
        let exchange = Exchange::Send { id, host, datagram, limit: self.max_datagram_size };
        assert(exchange@ == exchange_start(self.max_datagram_size, host@, query_type, id));
        exchange
    }

    /// Starts a query for the records of the given type about `host`, under
    /// the given transaction id.
    pub fn query_with_id(&self, host: String, query_type: QueryType, id: u16) -> (exchange:
        Exchange)
        ensures
            exchange@ == exchange_start(self.max_datagram_size, host@, query_type, id),
    {
        if !is_encodable(host.as_str().as_bytes()) {
            return Exchange::Done(Err(long_label_error()));
        }
        let queries = DNSMessage::encode_host(&host, &query_type);
        let message = DNSMessage::with_id(id, queries);
        let datagram = message.encode();
        Exchange::Send { id, host, datagram, limit: self.max_datagram_size }
    }
}

impl Exchange {
    /// Takes the outcome of what the state asked for and moves on.
    pub fn step(self, event: Event) -> (next: Exchange)
        ensures
            next@ == exchange_next(self@, event@),
    {
        match self {
            Exchange::Send { id, host, datagram, limit } => match event {
                Event::Sent(Ok(_)) => Exchange::Receive { id, host, limit },
                Event::Sent(Err(m)) => Exchange::Done(Err(ClientError::SendError(m))),
                _ => Exchange::Send { id, host, datagram, limit },
            },
            Exchange::Receive { id, host, limit } => match event {
                Event::Received(Ok(data)) => {
                    let outcome = if data.len() > limit {
                        read_response(id, &host, slice_subrange(data.as_slice(), 0, limit))
                    } else {
                        read_response(id, &host, data.as_slice())
                    };
                    Exchange::Done(outcome)
                },
                Event::Received(Err(m)) => Exchange::Done(Err(ClientError::RecvError(m))),
                _ => Exchange::Receive { id, host, limit },
            },
            Exchange::Done(outcome) => Exchange::Done(outcome),
        }
    }
}

/// What a response yields that is the wire form of a message with one
/// question about a valid host name: a failure for another transaction id
/// than that of the query, else the failure that its status stands for, else
/// the answers in its records. Such a response is never a failure to decode
/// the message itself.
pub proof fn lemma_response_of_message(
    id: u16,
    host: Seq<char>,
    m: MessageView,
    asked: Seq<u8>,
    query_type: QueryType,
)
    requires
        m.questions == 1,
        m.queries == question_wire(asked, query_type),
        valid_host(asked),
    ensures
        response_outcome(id, host, message_wire(m)) == (if m.id != id {
            Err::<Seq<AnswerView>, ErrorView>(ErrorView::DecodeIdError(id_error_text(id, m.id)))
        } else {
            match status_error(m.flags) {
                Some(e) => Err(e),
                None => walk(host, m.answers, 0),
            }
        }),
{
    lemma_parse_wire(m, asked, query_type);
}

/// A response with the transaction id of the query, a status of success and
/// one `A` record after its question yields one answer: the host that was
/// asked for with the IPv4 address that the four bytes of the record spell.
/// With one `AAAA` record it yields the IPv6 address that sixteen bytes spell.
pub proof fn lemma_one_address_in_response(
    host: Seq<char>,
    m: MessageView,
    asked: Seq<u8>,
    query_type: QueryType,
    offset: u8,
    ttl: Seq<u8>,
    address: Seq<u8>,
)
    requires
        m.questions == 1,
        m.queries == question_wire(asked, query_type),
        valid_host(asked),
        status_error(m.flags) is None,
        ttl.len() == 4,
    ensures
        address.len() == IPV4_SIZE && m.answers == record_wire(offset, QueryType::A, ttl, address)
            ==> response_outcome(m.id, host, message_wire(m)) == Ok::<
            Seq<AnswerView>,
            ErrorView,
        >(seq![ipv4_answer(host, address)]),
        address.len() == IPV6_SIZE && m.answers == record_wire(
            offset,
            QueryType::AAAA,
            ttl,
            address,
        ) ==> response_outcome(m.id, host, message_wire(m)) == Ok::<Seq<AnswerView>, ErrorView>(
            seq![ipv6_answer(host, address)],
        ),
{
    lemma_response_of_message(m.id, host, m, asked, query_type);
    if address.len() == IPV4_SIZE {
        lemma_one_a_record(host, offset, ttl, address);
    }
    if address.len() == IPV6_SIZE {
        lemma_one_aaaa_record(host, offset, ttl, address);
    }
}

/// A response that carries another transaction id than the query is refused
/// for that, whatever its status and its records are.
pub proof fn lemma_other_id_is_refused(id: u16, host: Seq<char>, data: Seq<u8>, m: MessageView)
    requires
        parse_message(data) == Ok::<MessageView, ErrorView>(m),
        m.id != id,
    ensures
        response_outcome(id, host, data) == Err::<Seq<AnswerView>, ErrorView>(
            ErrorView::DecodeIdError(id_error_text(id, m.id)),
        ),
{
}

/// A response with the transaction id of the query and the status of a name
/// error yields that failure, whatever its records are.
pub proof fn lemma_name_error_is_reported(id: u16, host: Seq<char>, data: Seq<u8>, m: MessageView)
    requires
        parse_message(data) == Ok::<MessageView, ErrorView>(m),
        m.id == id,
        response_code(m.flags) == 3,
    ensures
        response_outcome(id, host, data) == Err::<Seq<AnswerView>, ErrorView>(
            ErrorView::RDCodeNameError,
        ),
{
}

/// A response with the transaction id of the query and a status of success
/// that holds no whole record after its question yields no answer, and no
/// failure.
pub proof fn lemma_no_record_no_answer(id: u16, host: Seq<char>, data: Seq<u8>, m: MessageView)
    requires
        parse_message(data) == Ok::<MessageView, ErrorView>(m),
        m.id == id,
        status_error(m.flags) is None,
        m.answers.len() < RECORD_PREFIX,
    ensures
        response_outcome(id, host, data) == Ok::<Seq<AnswerView>, ErrorView>(Seq::empty()),
{
}

/// A query that is sent and answered ends with what the response yields; one
/// that cannot be sent ends as `SendError`, one that gets no response as
/// `RecvError`.
pub proof fn lemma_exchange_runs(
    limit: usize,
    host: Seq<char>,
    query_type: QueryType,
    id: u16,
    sent: Result<(), Seq<char>>,
    received: Result<Seq<u8>, Seq<char>>,
)
    requires
        encodable_host(encode_utf8(host)),
    ensures
        exchange_next(
            exchange_next(exchange_start(limit, host, query_type, id), EventView::Sent(sent)),
            EventView::Received(received),
        ) == ExchangeView::Done(
            match sent {
                Err(m) => Err(ErrorView::SendError(m)),
                Ok(_) => match received {
                    Err(m) => Err(ErrorView::RecvError(m)),
                    Ok(data) => response_outcome(id, host, truncated(data, limit)),
                },
            },
        ),
{
}

/// A setup whose steps all succeed ends with a client that receives up to
/// the largest datagram; otherwise it ends with the failure of the first step
/// that failed, and later outcomes change nothing.
pub proof fn lemma_setup_runs(
    remote_addr: Seq<char>,
    remote: Result<Family, Seq<char>>,
    local: Result<Family, Seq<char>>,
    bound: Result<(), Seq<char>>,
    connected: Result<(), Seq<char>>,
)
    ensures
        setup_next(
            setup_next(
                setup_next(
                    setup_next(SetupView::ParseRemote(remote_addr), SetupEventView::Parsed(remote)),
                    SetupEventView::Parsed(local),
                ),
                SetupEventView::Bound(bound),
            ),
            SetupEventView::Connected(connected),
        ) == SetupView::Done(
            match remote {
                Err(m) => Err(ErrorView::ParseError(m)),
                Ok(_) => match local {
                    Err(m) => Err(ErrorView::ParseError(m)),
                    Ok(_) => match bound {
                        Err(m) => Err(ErrorView::BindError(m)),
                        Ok(_) => match connected {
                            Err(m) => Err(ErrorView::ConnectError(m)),
                            Ok(_) => Ok(ready_client()),
                        },
                    },
                },
            },
        ),
        remote matches Ok(family) ==> setup_next(
            SetupView::ParseRemote(remote_addr),
            SetupEventView::Parsed(remote),
        ) == SetupView::ParseLocal(wildcard_text(family)),
{
}

/// A setup or a query that has ended stays as it ended, whatever is reported.
pub proof fn lemma_done_is_final(
    client: Result<Client, ErrorView>,
    outcome: Result<Seq<AnswerView>, ErrorView>,
    setup_event: SetupEventView,
    event: EventView,
)
    ensures
        setup_next(SetupView::Done(client), setup_event) == SetupView::Done(client),
        exchange_next(ExchangeView::Done(outcome), event) == ExchangeView::Done(outcome),
{
}

} // verus!
