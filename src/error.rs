//! Error taxonomy of the gateway and its GraphQL error envelope.
use vstd::prelude::*;
use vstd::string::StringExecFns;

verus! {

/// Every failure the gateway can report. Each kind carries the text of the
/// failure and maps to one `extensions.code` of the GraphQL error envelope.
pub enum Error {
    /// Status returned by an upstream gRPC call.
    Grpc(String),
    /// Failure to open or connect a transport channel.
    Transport(String),
    /// Missing extensions, unknown types, schema build failures.
    Schema(String),
    /// Argument shape mismatch or malformed input.
    InvalidRequest(String),
    /// Rejected by an authorisation middleware.
    Unauthorized(String),
    /// Any other middleware failure.
    Middleware(String),
    /// JSON or protobuf encode/decode failure.
    Serialization(String),
    /// Endpoint parse, TLS configuration, lazy-connect bookkeeping.
    Connection(String),
    /// Subscription transport failure.
    WebSocket(String),
    /// Last-resort failure.
    Internal(String),
    /// Failure reading descriptors or uploads.
    Io(String),
    /// Anything that fits no other kind.
    Other(String),
}

/// The `extensions.code` of each error kind.
pub open spec fn code_of(e: Error) -> Seq<char> {
    match e {
        Error::Grpc(_) => "GRPC_ERROR"@,
        Error::Transport(_) => "TRANSPORT_ERROR"@,
        Error::Schema(_) => "SCHEMA_ERROR"@,
        Error::InvalidRequest(_) => "INVALID_REQUEST"@,
        Error::Unauthorized(_) => "UNAUTHORIZED"@,
        Error::Middleware(_) => "MIDDLEWARE_ERROR"@,
        Error::Serialization(_) => "SERIALIZATION_ERROR"@,
        Error::Connection(_) => "CONNECTION_ERROR"@,
        Error::WebSocket(_) => "WEBSOCKET_ERROR"@,
        Error::Internal(_) => "INTERNAL_ERROR"@,
        Error::Io(_) => "IO_ERROR"@,
        Error::Other(_) => "UNKNOWN_ERROR"@,
    }
}

/// The text that prefixes the detail of each error kind in its message.
pub open spec fn prefix_of(e: Error) -> Seq<char> {
    match e {
        Error::Grpc(_) => "gRPC error: "@,
        Error::Transport(_) => "gRPC transport error: "@,
        Error::Schema(_) => "GraphQL schema error: "@,
        Error::InvalidRequest(_) => "Invalid request: "@,
        Error::Unauthorized(_) => "Unauthorized: "@,
        Error::Middleware(_) => "Middleware error: "@,
        Error::Serialization(_) => "Serialization error: "@,
        Error::Connection(_) => "Connection error: "@,
        Error::WebSocket(_) => "WebSocket error: "@,
        Error::Internal(_) => "Internal error: "@,
        Error::Io(_) => "IO error: "@,
        Error::Other(_) => "Error: "@,
    }
}

/// The detail text an error carries.
pub open spec fn detail_of(e: Error) -> Seq<char> {
    match e {
        Error::Grpc(s) => s@,
        Error::Transport(s) => s@,
        Error::Schema(s) => s@,
        Error::InvalidRequest(s) => s@,
        Error::Unauthorized(s) => s@,
        Error::Middleware(s) => s@,
        Error::Serialization(s) => s@,
        Error::Connection(s) => s@,
        Error::WebSocket(s) => s@,
        Error::Internal(s) => s@,
        Error::Io(s) => s@,
        Error::Other(s) => s@,
    }
}

/// The full human-readable message of an error.
pub open spec fn message_of(e: Error) -> Seq<char> {
    prefix_of(e) + detail_of(e)
}

/// An error as it appears in a GraphQL response: `message` and the
/// `extensions.code` that classifies it.
pub struct GraphQLError {
    pub message: String,
    pub code: String,
}

impl Error {
    /// The `extensions.code` of this error.
    pub fn code(&self) -> (r: &'static str)
        ensures
            r@ == code_of(*self),
    {
        match self {
            Error::Grpc(_) => "GRPC_ERROR",
            Error::Transport(_) => "TRANSPORT_ERROR",
            Error::Schema(_) => "SCHEMA_ERROR",
            Error::InvalidRequest(_) => "INVALID_REQUEST",
            Error::Unauthorized(_) => "UNAUTHORIZED",
            Error::Middleware(_) => "MIDDLEWARE_ERROR",
            Error::Serialization(_) => "SERIALIZATION_ERROR",
            Error::Connection(_) => "CONNECTION_ERROR",
            Error::WebSocket(_) => "WEBSOCKET_ERROR",
            Error::Internal(_) => "INTERNAL_ERROR",
            Error::Io(_) => "IO_ERROR",
            Error::Other(_) => "UNKNOWN_ERROR",
        }
    }

    /// The detail text of this error.
    pub fn detail(&self) -> (r: &String)
        ensures
            r@ == detail_of(*self),
    {
        match self {
            Error::Grpc(s) => s,
            Error::Transport(s) => s,
            Error::Schema(s) => s,
            Error::InvalidRequest(s) => s,
            Error::Unauthorized(s) => s,
            Error::Middleware(s) => s,
            Error::Serialization(s) => s,
            Error::Connection(s) => s,
            Error::WebSocket(s) => s,
            Error::Internal(s) => s,
            Error::Io(s) => s,
            Error::Other(s) => s,
        }
    }

    fn prefix(&self) -> (r: &'static str)
        ensures
            r@ == prefix_of(*self),
    {
        match self {
            Error::Grpc(_) => "gRPC error: ",
            Error::Transport(_) => "gRPC transport error: ",
            Error::Schema(_) => "GraphQL schema error: ",
            Error::InvalidRequest(_) => "Invalid request: ",
            Error::Unauthorized(_) => "Unauthorized: ",
            Error::Middleware(_) => "Middleware error: ",
            Error::Serialization(_) => "Serialization error: ",
            Error::Connection(_) => "Connection error: ",
            Error::WebSocket(_) => "WebSocket error: ",
            Error::Internal(_) => "Internal error: ",
            Error::Io(_) => "IO error: ",
            Error::Other(_) => "Error: ",
        }
    }

    /// The full message: the kind's prefix followed by the detail.
    pub fn message(&self) -> (r: String)
        ensures
            r@ == message_of(*self),
    {
        let mut s = String::from_str(self.prefix());
        s.append(self.detail().as_str());
        s
    }

    /// This error in the GraphQL error envelope.
    pub fn to_graphql_error(&self) -> (r: GraphQLError)
        ensures
            r.message@ == message_of(*self),
            r.code@ == code_of(*self),
    {
        GraphQLError { message: self.message(), code: String::from_str(self.code()) }
    }
}

} // verus!
