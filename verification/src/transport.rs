//! The transport client: where each message kind is sent, and how every way
//! an exchange can end is reported to the caller.
//!
//! A client is bound to one remote node. The embedding program performs the
//! exchange itself and reports what came of it; the client decides what that
//! means. There is no retry here: the caller owns that policy.

use crate::types::NodeId;
use vstd::prelude::*;

verus! {

/// The three message kinds, each with a route of its own on the remote node.
#[derive(Clone, Copy, Debug, PartialEq, Eq, Structural)]
pub enum Route {
    /// A request for a vote.
    Vote,
    /// Replication of log entries.
    Append,
    /// Installation of a full snapshot.
    Snapshot,
}

impl Route {
    /// The path of the route below the remote node's address.
    pub open spec fn spec_path(&self) -> Seq<char> {
        match self {
            Route::Vote => "vote"@,
            Route::Append => "append"@,
            Route::Snapshot => "snapshot"@,
        }
    }

    /// The path of the route below the remote node's address.
    pub fn path(&self) -> (path: &'static str)
        ensures
            path@ == self.spec_path(),
    {
        match self {
            Route::Vote => "vote",
            Route::Append => "append",
            Route::Snapshot => "snapshot",
        }
    }
}

/// The address to which a message for `path` on the node at `addr` is posted.
pub open spec fn url_of(addr: Seq<char>, path: Seq<char>) -> Seq<char> {
    "http://"@ + addr + "/"@ + path
}

/// Puts the address of a node and a path together.
///
/// Trusted: the body is `format!` of the standard library with two `{}`
/// places, each filled by a string slice, which is written out unchanged.
#[verifier::external_body]
fn format_url(addr: &str, path: &str) -> (url: String)
    ensures
        url@ == url_of(addr@, path@),
{
    format!("http://{}/{}", addr, path)
}

/// Makes the clients, one for each remote node.
#[derive(Clone, Copy, Debug, Default)]
pub struct NetworkFactory {}

/// A client bound to one remote node.
#[derive(Clone, Debug, PartialEq, Eq)]
pub struct Network {
    addr: String,
    target: NodeId,
}

/// A client as a mathematical value.
pub struct NetworkView {
    pub addr: Seq<char>,
    pub target: NodeId,
}

impl View for Network {
    type V = NetworkView;

    closed spec fn view(&self) -> NetworkView {
        NetworkView { addr: self.addr@, target: self.target }
    }
}

/// How the sending of a request and the reading of its response ended.
#[derive(Clone, Debug, PartialEq, Eq)]
pub enum Exchange {
    /// The request was not answered. `connect` says whether the failure came
    /// while the connection was being established, before any byte was
    /// exchanged.
    SendFailed { connect: bool, message: String },
    /// A response came, but its body could not be obtained or parsed.
    BodyFailed { message: String },
    /// A response came and its body was parsed.
    Replied,
}

/// Failure of a vote or append exchange.
#[derive(Clone, Debug, PartialEq, Eq)]
pub enum RpcError {
    /// The remote node could not be contacted at all: backing off is in order.
    Unreachable(String),
    /// The request failed after a connection was there, or the response could
    /// not be read.
    Network(String),
}

/// How the sending of a snapshot ended.
#[derive(Clone, Debug, PartialEq, Eq)]
pub enum Transfer {
    /// The replication session was superseded before the transfer ended.
    Cancelled,
    /// The snapshot could not be read in full before it was sent.
    ReadFailed { message: String },
    /// The snapshot was read in full and sent as one message.
    Sent(Exchange),
}

/// Failure of a snapshot transfer.
#[derive(Clone, Debug, PartialEq, Eq)]
pub enum StreamingError {
    /// The transfer was abandoned because its session was superseded.
    Cancelled,
    /// Reading the snapshot from local storage failed.
    IoFailure(String),
    /// The remote node could not be contacted at all.
    Unreachable(String),
    /// The request failed after a connection was there, or the response could
    /// not be read.
    Network(String),
}

/// What an exchange means to the caller.
pub open spec fn exchange_result(exchange: Exchange) -> Result<(), RpcError> {
    match exchange {
        Exchange::SendFailed { connect, message } => if connect {
            Err(RpcError::Unreachable(message))
        } else {
            Err(RpcError::Network(message))
        },
        Exchange::BodyFailed { message } => Err(RpcError::Network(message)),
        Exchange::Replied => Ok(()),
    }
}

/// The failure of a snapshot transfer that stands for the failure of its exchange.
pub open spec fn streaming_error_of(error: RpcError) -> StreamingError {
    match error {
        RpcError::Unreachable(message) => StreamingError::Unreachable(message),
        RpcError::Network(message) => StreamingError::Network(message),
    }
}

/// What a snapshot transfer means to the caller.
pub open spec fn transfer_result(transfer: Transfer) -> Result<(), StreamingError> {
    match transfer {
        Transfer::Cancelled => Err(StreamingError::Cancelled),
        Transfer::ReadFailed { message } => Err(StreamingError::IoFailure(message)),
        Transfer::Sent(exchange) => match exchange_result(exchange) {
            Ok(()) => Ok(()),
            Err(error) => Err(streaming_error_of(error)),
        },
    }
}

impl NetworkFactory {
    /// Makes the client for the node `target` that listens at `addr`.
    pub fn new_client(&mut self, target: NodeId, addr: &str) -> (network: Network)
        ensures
            network@.addr == addr@,
            network@.target == target,
    {
        Network { addr: addr.to_owned(), target }
    }
}

impl Network {
    /// The address of the remote node.
    pub fn addr(&self) -> (addr: &str)
        ensures
            addr@ == self@.addr,
    {
        self.addr.as_str()
    }

    /// The identity of the remote node.
    pub fn target(&self) -> (target: NodeId)
        ensures
            target == self@.target,
    {
        self.target
    }

    /// The address to which a message of the given kind is posted.
    pub fn url(&self, route: Route) -> (url: String)
        ensures
            url@ == url_of(self@.addr, route.spec_path()),
    {
        format_url(self.addr.as_str(), route.path())
    }

    /// Classifies the end of a vote or append exchange.
    pub fn request(exchange: Exchange) -> (r: Result<(), RpcError>)
        ensures
            r == exchange_result(exchange),
    {
        match exchange {
            Exchange::SendFailed { connect, message } => if connect {
                Err(RpcError::Unreachable(message))
            } else {
                Err(RpcError::Network(message))
            },
            Exchange::BodyFailed { message } => Err(RpcError::Network(message)),
            Exchange::Replied => Ok(()),
        }
    }

    /// Classifies the end of a snapshot transfer.
    pub fn full_snapshot(transfer: Transfer) -> (r: Result<(), StreamingError>)
        ensures
            r == transfer_result(transfer),
    {
        match transfer {
            Transfer::Cancelled => Err(StreamingError::Cancelled),
            Transfer::ReadFailed { message } => Err(StreamingError::IoFailure(message)),
            Transfer::Sent(exchange) => match Network::request(exchange) {
                Ok(()) => Ok(()),
                Err(error) => Err(StreamingError::from_rpc(error)),
            },
        }
    }
}

impl StreamingError {
    /// The failure of a snapshot transfer that stands for the failure of its exchange.
    pub fn from_rpc(error: RpcError) -> (e: StreamingError)
        ensures
            e == streaming_error_of(error),
    {
        match error {
            RpcError::Unreachable(message) => StreamingError::Unreachable(message),
            RpcError::Network(message) => StreamingError::Network(message),
        }
    }
}

/// A failure to connect and a failure after the connection are told apart:
/// the first is reported as unreachable, every other failure of an exchange as
/// a network error, and only an exchange that was answered and parsed succeeds.
pub proof fn lemma_classification(exchange: Exchange)
    ensures
        exchange_result(exchange) is Ok <==> exchange is Replied,
        exchange_result(exchange) matches Err(RpcError::Unreachable(_)) <==> exchange matches Exchange::SendFailed {
            connect: true,
            ..
        },
        exchange_result(exchange) matches Err(RpcError::Network(_)) <==> exchange is BodyFailed
            || exchange matches Exchange::SendFailed { connect: false, .. },
{
}

} // verus!
