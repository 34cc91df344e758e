//! Error taxonomy of the node.
//!
//! Bootstrap errors are fatal and end the process; transport errors are
//! logged by the runtime loop; protocol and domain errors are recovered at
//! the dispatcher boundary and turned into failure replies.

use vstd::prelude::*;

verus! {

/// Fatal errors raised while bringing a service up.
#[derive(Debug)]
pub enum BootstrapError {
    TorNotYetSupported,
    IoError(String),
    ArgParseError(String),
    ZmqSocketError(String),
    MultithreadError(String),
    MonitorSocketError(String),
    MessageBusError(String),
    ElectrumError(String),
    StorageError,
    CacheError,
    Other,
}

/// Error parsing numeric or outpoint arguments.
#[derive(Clone, Copy, PartialEq, Eq, Structural, Debug)]
pub struct ParseError;

/// The four socket roles a service runtime opens.
#[derive(Clone, Copy, PartialEq, Eq, Structural, Debug)]
pub enum ServiceSocketType {
    Request,
    Reply,
    Publish,
    Subscribe,
}

/// Errors of a running service loop.
#[derive(Debug)]
pub enum RuntimeError {
    Io,
    Zmq(ServiceSocketType, String, String),
    Lnp(String),
    BrokenTransport,
    Internal(String),
}

impl RuntimeError {
    /// A transport error on the request socket.
    pub fn zmq_request(socket: String, err: String) -> (r: RuntimeError)
        ensures
            r matches RuntimeError::Zmq(role, s, e) && role == ServiceSocketType::Request && s@
                == socket@ && e@ == err@,
    {
        RuntimeError::Zmq(ServiceSocketType::Request, socket, err)
    }

    /// A transport error on the reply socket.
    pub fn zmq_reply(socket: String, err: String) -> (r: RuntimeError)
        ensures
            r matches RuntimeError::Zmq(role, s, e) && role == ServiceSocketType::Reply && s@
                == socket@ && e@ == err@,
    {
        RuntimeError::Zmq(ServiceSocketType::Reply, socket, err)
    }

    /// A transport error on the publishing socket.
    pub fn zmq_publish(socket: String, err: String) -> (r: RuntimeError)
        ensures
            r matches RuntimeError::Zmq(role, s, e) && role == ServiceSocketType::Publish && s@
                == socket@ && e@ == err@,
    {
        RuntimeError::Zmq(ServiceSocketType::Publish, socket, err)
    }

    /// A transport error on the subscription socket.
    pub fn zmq_subscribe(socket: String, err: String) -> (r: RuntimeError)
        ensures
            r matches RuntimeError::Zmq(role, s, e) && role == ServiceSocketType::Subscribe && s@
                == socket@ && e@ == err@,
    {
        RuntimeError::Zmq(ServiceSocketType::Subscribe, socket, err)
    }
}

/// Domain-level failures reported to clients.
#[derive(Debug)]
pub enum ServiceErrorDomain {
    Io,
    Stash,
    Storage(String),
    Index,
    Cache,
    Multithreading,
    P2pwire,
    LnpRpc(String),
    LnpTransport(String),
    Api(ApiErrorType),
    Monitoring,
    Bifrost,
    BpNode,
    LnpNode,
    Bitcoin,
    Lightning,
    Schema(String),
    Anchor(String),
    Internal(String),
}

/// Which service produced an error.
#[derive(Debug)]
pub enum ServiceErrorSource {
    Broker,
    Stash,
    Contract(String),
}

/// Protocol-level API errors.
#[derive(Debug)]
pub enum ApiErrorType {
    MalformedRequest { request: String },
    UnknownCommand { command: String },
    UnimplementedCommand,
    MissedArgument { request: String, argument: String },
    UnknownArgument { request: String, argument: String },
    MalformedArgument { request: String, argument: String },
    UnexpectedReply,
}

/// A domain error together with its source.
#[derive(Debug)]
pub struct ServiceError {
    pub domain: ServiceErrorDomain,
    pub service: ServiceErrorSource,
}

impl ServiceError {
    /// Wraps a domain error as coming from a named contract runtime.
    pub fn contract(domain: ServiceErrorDomain, contract_name: String) -> (r: ServiceError)
        ensures
            r.domain == domain,
            r.service matches ServiceErrorSource::Contract(n) && n@ == contract_name@,
    {
        ServiceError { domain, service: ServiceErrorSource::Contract(contract_name) }
    }

    /// Wraps an RPC unmarshalling error from the given source.
    pub fn from_rpc(service: ServiceErrorSource, err: String) -> (r: ServiceError)
        ensures
            r.domain matches ServiceErrorDomain::LnpRpc(e) && e@ == err@,
            r.service == service,
    {
        ServiceError { domain: ServiceErrorDomain::LnpRpc(err), service }
    }
}

/// Either a global runtime error or one tied to a single request.
#[derive(Debug)]
pub enum RoutedError {
    Global(RuntimeError),
    RequestSpecific(ServiceError),
}

/// A client-facing rendering of a service error.
#[derive(Debug)]
pub struct ServiceErrorRepresentation {
    pub domain: String,
    pub service: String,
    pub name: String,
    pub description: String,
    pub info: Vec<(String, String)>,
}

} // verus!
