//! Error types for replication.

use crate::common;
use crate::common::decimal_text;
use crate::ext::time;
use crate::ext::time::duration_text;
use std::time::Duration;
use vstd::prelude::*;

verus! {

/// Errors that can occur during replication operations.
#[derive(Debug)]
pub enum Error {
    /// Failed to create or configure the endpoint
    Endpoint(String),
    /// Discovery operation failed
    Discovery(String),
    /// Failed to establish connection to peer
    Connection(String),
    /// Connection was closed or reset
    ConnectionClosed(String),
    /// Invalid ticket format
    InvalidTicket(String),
    /// Sync protocol error
    Sync(String),
    /// Change encoding/decoding error
    Encoding(String),
    /// State machine error
    State(String),
    /// Shutdown was requested
    Shutdown,
    /// Channel send failed (receiver dropped)
    ChannelClosed,
    /// Peer not found or not connected
    PeerNotFound(String),
    /// Maximum peers reached
    MaxPeersReached(usize),
    /// Timeout during operation
    Timeout(Duration),
    /// Any other error
    Other(String),
}

/// Result type alias for replication operations.
pub type Result<T> = std::result::Result<T, Error>;

/// What an error says.
pub enum ErrorModel {
    Endpoint(Seq<char>),
    Discovery(Seq<char>),
    Connection(Seq<char>),
    ConnectionClosed(Seq<char>),
    InvalidTicket(Seq<char>),
    Sync(Seq<char>),
    Encoding(Seq<char>),
    State(Seq<char>),
    Shutdown,
    ChannelClosed,
    PeerNotFound(Seq<char>),
    MaxPeersReached(usize),
    Timeout(u128),
    Other(Seq<char>),
}

impl View for Error {
    type V = ErrorModel;

    open spec fn view(&self) -> ErrorModel {
        match self {
            Error::Endpoint(s) => ErrorModel::Endpoint(s@),
            Error::Discovery(s) => ErrorModel::Discovery(s@),
            Error::Connection(s) => ErrorModel::Connection(s@),
            Error::ConnectionClosed(s) => ErrorModel::ConnectionClosed(s@),
            Error::InvalidTicket(s) => ErrorModel::InvalidTicket(s@),
            Error::Sync(s) => ErrorModel::Sync(s@),
            Error::Encoding(s) => ErrorModel::Encoding(s@),
            Error::State(s) => ErrorModel::State(s@),
            Error::Shutdown => ErrorModel::Shutdown,
            Error::ChannelClosed => ErrorModel::ChannelClosed,
            Error::PeerNotFound(s) => ErrorModel::PeerNotFound(s@),
            Error::MaxPeersReached(n) => ErrorModel::MaxPeersReached(*n),
            Error::Timeout(d) => ErrorModel::Timeout(time::duration_nanos(*d)),
            Error::Other(s) => ErrorModel::Other(s@),
        }
    }
}

/// The text of an error for a reader.
pub open spec fn error_text(e: ErrorModel) -> Seq<char> {
    match e {
        ErrorModel::Endpoint(s) => "failed to create endpoint: "@ + s,
        ErrorModel::Discovery(s) => "discovery failed: "@ + s,
        ErrorModel::Connection(s) => "connection failed: "@ + s,
        ErrorModel::ConnectionClosed(s) => "connection closed: "@ + s,
        ErrorModel::InvalidTicket(s) => "invalid ticket: "@ + s,
        ErrorModel::Sync(s) => "sync error: "@ + s,
        ErrorModel::Encoding(s) => "encoding error: "@ + s,
        ErrorModel::State(s) => "state error: "@ + s,
        ErrorModel::Shutdown => "shutdown requested"@,
        ErrorModel::ChannelClosed => "channel closed"@,
        ErrorModel::PeerNotFound(s) => "peer not found: "@ + s,
        ErrorModel::MaxPeersReached(n) => "maximum peers ("@ + common::decimal(n as nat) + ") reached"@,
        ErrorModel::Timeout(nanos) => "operation timed out after "@ + time::duration_debug(nanos),
        ErrorModel::Other(s) => "error: "@ + s,
    }
}

impl Error {
    /// Write the error out for a reader.
    pub fn message(&self) -> (s: String)
        ensures
            s@ == error_text(self@),
    {
        match self {
            Error::Endpoint(s) => "failed to create endpoint: ".to_owned().concat(s.as_str()),
            Error::Discovery(s) => "discovery failed: ".to_owned().concat(s.as_str()),
            Error::Connection(s) => "connection failed: ".to_owned().concat(s.as_str()),
            Error::ConnectionClosed(s) => "connection closed: ".to_owned().concat(s.as_str()),
            Error::InvalidTicket(s) => "invalid ticket: ".to_owned().concat(s.as_str()),
            Error::Sync(s) => "sync error: ".to_owned().concat(s.as_str()),
            Error::Encoding(s) => "encoding error: ".to_owned().concat(s.as_str()),
            Error::State(s) => "state error: ".to_owned().concat(s.as_str()),
            Error::Shutdown => "shutdown requested".to_owned(),
            Error::ChannelClosed => "channel closed".to_owned(),
            Error::PeerNotFound(s) => "peer not found: ".to_owned().concat(s.as_str()),
            Error::MaxPeersReached(n) => "maximum peers (".to_owned().concat(
                decimal_text(*n).as_str(),
            ).concat(") reached"),
            Error::Timeout(d) => "operation timed out after ".to_owned().concat(
                duration_text(d).as_str(),
            ),
            Error::Other(s) => "error: ".to_owned().concat(s.as_str()),
        }
    }
}

/// Each error says what failed, followed by its reason.
pub proof fn errors_say_what_failed(e: Error, s: String)
    requires
        call_ensures(Error::message, (&e,), s),
    ensures
        e is Endpoint ==> s@ == "failed to create endpoint: "@ + e->Endpoint_0@,
        e is Discovery ==> s@ == "discovery failed: "@ + e->Discovery_0@,
        e is Connection ==> s@ == "connection failed: "@ + e->Connection_0@,
        e is ConnectionClosed ==> s@ == "connection closed: "@ + e->ConnectionClosed_0@,
        e is InvalidTicket ==> s@ == "invalid ticket: "@ + e->InvalidTicket_0@,
        e is Sync ==> s@ == "sync error: "@ + e->Sync_0@,
        e is Encoding ==> s@ == "encoding error: "@ + e->Encoding_0@,
        e is State ==> s@ == "state error: "@ + e->State_0@,
        e is Shutdown ==> s@ == "shutdown requested"@,
        e is ChannelClosed ==> s@ == "channel closed"@,
        e is PeerNotFound ==> s@ == "peer not found: "@ + e->PeerNotFound_0@,
        e is MaxPeersReached ==> s@ == "maximum peers ("@ + common::decimal(
            e->MaxPeersReached_0 as nat,
        ) + ") reached"@,
        e is Other ==> s@ == "error: "@ + e->Other_0@,
{
}

}
