//! A DNS stub resolver core: the wire codec for queries and responses and the
//! single-exchange protocol built on it, written without any I/O of its own.
//!
//! - [`wire`], [`name`] and [`record`] hold the codec: messages, host names,
//!   record types and classes, to bytes and back.
//! - [`answer`] walks the records of a response for addresses, and [`text`]
//!   writes the addresses as text.
//! - [`client`] holds the protocol of a client: the steps that set it up, and
//!   the steps of one query. The caller owns the socket and does the steps.
//! - [`resolve`] holds what resolving several hosts at once takes: the
//!   resolver to ask, the queries to run, and what their outcomes add up to.
//! - [`nsconfig`] finds the name servers in the lines of a resolver
//!   configuration.
//! - [`error`] holds the failures.

pub mod answer;
pub mod client;
pub mod error;
pub mod name;
pub mod nsconfig;
pub mod record;
pub mod resolve;
pub mod text;
pub mod wire;
