//! SDK application runtime interface: the request and reply framing
//! shared by the runtime and its client-side shims.

use vstd::prelude::*;

verus! {

/// Size of the buffer used to pass serialized request data: half of the
/// single page that carries a request and its reply.
pub const SDKRUNTIME_REQUEST_DATA_SIZE: usize = 2048;

/// Application identity derived from the endpoint badge set up when the
/// application is started.
pub type SDKAppId = usize;

/// Status carried in every RPC reply.
#[derive(Clone, Copy, Debug, PartialEq, Eq, Structural)]
pub enum SDKRuntimeError {
    SDKSuccess,
    SDKSerializeFailed,
    SDKDeserializeFailed,
    SDKUnknownRequest,
}

/// Errors the runtime's own implementation reports to its callers.
#[derive(Clone, Copy, Debug, PartialEq, Eq, Structural)]
pub enum SDKError {
    AppIdInvalid,
    SerializeFailed,
    DeserializeFailed,
}

#[derive(Clone, Copy, Debug, PartialEq, Eq, Structural)]
pub enum SDKRuntimeRequest {
    // Check runtime is alive.
    Ping,
    // Log message: [msg: &str]
    Log,
}

/// All RPC requests have an SDKRequestHeader at the front.
pub struct SDKRequestHeader {
    pub request: SDKRuntimeRequest,
}

impl SDKRequestHeader {
    pub fn new(request: SDKRuntimeRequest) -> (r: Self)
        ensures
            r.request == request,
    {
        Self { request }
    }
}

/// All RPC responses have an SDKReplyHeader at the front.
pub struct SDKReplyHeader {
    pub status: SDKRuntimeError,
}

impl SDKReplyHeader {
    pub fn new(status: SDKRuntimeError) -> (r: Self)
        ensures
            r.status == status,
    {
        Self { status }
    }

    /// A reply is an error exactly when its status is not success.
    pub fn into_result(self) -> (r: Result<(), SDKRuntimeError>)
        ensures
            r == Ok::<(), SDKRuntimeError>(()) <==> self.status == SDKRuntimeError::SDKSuccess,
            r matches Err(e) ==> e == self.status,
    {
        if self.status == SDKRuntimeError::SDKSuccess {
            Ok(())
        } else {
            Err(self.status)
        }
    }
}

/// `SDKRuntimeRequest::Ping` carries no arguments.
pub struct PingRequest {}

/// `SDKRuntimeRequest::Log` carries the message bytes.
pub struct LogRequest<'a> {
    pub msg: &'a [u8],
}

/// Interface to the SDK runtime, implemented by the server and mirrored
/// by the client-side shims.
pub trait SDKRuntimeInterface {
    /// Pings the SDK runtime, going from client to server and back.
    fn ping(&self, app_id: SDKAppId) -> Result<(), SDKError>;

    /// Logs `msg` through the system logger.
    fn log(&self, app_id: SDKAppId, msg: &str) -> Result<(), SDKError>;
}

} // verus!
