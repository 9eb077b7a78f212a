//! Security coordinator interface: the request vocabulary spoken between
//! the security core and its callers, and the coordinator's dispatch
//! outcome.  Serialization of these requests and the IPC transport live
//! with the embedding, not here.

use vstd::prelude::*;

verus! {

/// Size of the buffer used to pass serialized reply data.
pub const SECURITY_REPLY_DATA_SIZE: usize = 2048;

pub type SecurityReplyData = [u8; SECURITY_REPLY_DATA_SIZE];

/// SecurityRequestEcho
pub struct EchoRequest<'a> {
    pub value: &'a [u8],
}

pub struct InstallResponse<'a> {
    pub bundle_id: &'a str,
}

/// SecurityRequestUninstall
pub struct UninstallRequest<'a> {
    pub bundle_id: &'a str,
}

/// SecurityRequestSizeBuffer
pub struct SizeBufferRequest<'a> {
    pub bundle_id: &'a str,
}

pub struct SizeBufferResponse {
    pub buffer_size: usize,
}

/// SecurityRequestGetManifest
pub struct GetManifestRequest<'a> {
    pub bundle_id: &'a str,
}

pub struct GetManifestResponse<'a> {
    pub manifest: &'a str,
}

/// SecurityRequestLoadApplication
pub struct LoadApplicationRequest<'a> {
    pub bundle_id: &'a str,
}

/// SecurityRequestLoadModel
pub struct LoadModelRequest<'a> {
    pub bundle_id: &'a str,
    pub model_id: &'a str,
}

/// SecurityRequestReadKey
pub struct ReadKeyRequest<'a> {
    pub bundle_id: &'a str,
    pub key: &'a str,
}

pub struct ReadKeyResponse<'a> {
    pub value: &'a [u8],
}

/// SecurityRequestWriteKey
pub struct WriteKeyRequest<'a> {
    pub bundle_id: &'a str,
    pub key: &'a str,
    pub value: &'a [u8],
}

/// SecurityRequestDeleteKey
pub struct DeleteKeyRequest<'a> {
    pub bundle_id: &'a str,
    pub key: &'a str,
}

/// SecurityRequestTestMailbox
pub struct TestMailboxRequest {}

/// SecurityRequestCapScan
pub struct CapScanRequest {}

#[derive(Clone, Copy, Debug, PartialEq, Eq, Structural)]
pub enum SecurityRequestError {
    SreSuccess,
    SreBundleIdInvalid,
    SreBundleDataInvalid,
    SreBundleNotFound,
    SreDeleteFirst,
    SreKeyNotFound,
    SrePackageBufferLenInvalid,
    SreValueInvalid,
    SreKeyInvalid,
    SreDeserializeFailed,
    SreSerializeFailed,
    SreCapAllocFailed,
    SreCapMoveFailed,
    SreObjCapInvalid,
    // Generic errors, mostly used in unit tests.
    SreEchoFailed,
    SreInstallFailed,
    SreUninstallFailed,
    SreSizeBufferFailed,
    SreGetManifestFailed,
    SreLoadApplicationFailed,
    SreLoadModelFailed,
    SreReadFailed,
    SreWriteFailed,
    SreDeleteFailed,
    SreTestFailed,
}

#[derive(Clone, Copy, Debug, PartialEq, Eq, Structural)]
pub enum SecurityRequest {
    SrEcho,  // Security core replies with request payload
    SrInstall,  // Install package [pkg_buffer] -> bundle_id
    SrUninstall,  // Uninstall package [bundle_id]
    SrSizeBuffer,  // Size application image [bundle_id] -> u32
    SrGetManifest,  // Return application manifest [bundle_id] -> String
    SrLoadApplication,  // Load application [bundle_id]
    SrLoadModel,  // Load ML model [bundle_id, model_id]
    SrReadKey,  // Read key value [bundle_id, key] -> value
    SrWriteKey,  // Write key value [bundle_id, key, value]
    SrDeleteKey,  // Delete key [bundle_id, key]
    SrTestMailbox,  // Run mailbox tests
    SrCapScan,  // Dump contents of CNode to console
}

/// The error each still-unimplemented security operation answers with.
pub open spec fn spec_request_outcome(
    request_id: SecurityRequest,
    args_decoded: bool,
) -> SecurityRequestError {
    match request_id {
        SecurityRequest::SrEcho => SecurityRequestError::SreEchoFailed,
        SecurityRequest::SrInstall => SecurityRequestError::SreInstallFailed,
        SecurityRequest::SrUninstall => if args_decoded {
            SecurityRequestError::SreUninstallFailed
        } else {
            SecurityRequestError::SreBundleDataInvalid
        },
        SecurityRequest::SrSizeBuffer => if args_decoded {
            SecurityRequestError::SreSizeBufferFailed
        } else {
            SecurityRequestError::SreBundleDataInvalid
        },
        SecurityRequest::SrGetManifest => if args_decoded {
            SecurityRequestError::SreGetManifestFailed
        } else {
            SecurityRequestError::SreBundleDataInvalid
        },
        SecurityRequest::SrLoadApplication => if args_decoded {
            SecurityRequestError::SreLoadApplicationFailed
        } else {
            SecurityRequestError::SreBundleDataInvalid
        },
        SecurityRequest::SrLoadModel => if args_decoded {
            SecurityRequestError::SreLoadModelFailed
        } else {
            SecurityRequestError::SreBundleDataInvalid
        },
        SecurityRequest::SrReadKey => if args_decoded {
            SecurityRequestError::SreReadFailed
        } else {
            SecurityRequestError::SreBundleDataInvalid
        },
        SecurityRequest::SrWriteKey => if args_decoded {
            SecurityRequestError::SreWriteFailed
        } else {
            SecurityRequestError::SreBundleDataInvalid
        },
        SecurityRequest::SrDeleteKey => if args_decoded {
            SecurityRequestError::SreDeleteFailed
        } else {
            SecurityRequestError::SreBundleDataInvalid
        },
        SecurityRequest::SrTestMailbox => SecurityRequestError::SreTestFailed,
        SecurityRequest::SrCapScan => SecurityRequestError::SreTestFailed,
    }
}

/// The seL4-hosted security coordinator.  Its operations are not yet
/// backed by the mailbox transport, so every request is answered with
/// the operation's failure code; decoding of request arguments happens
/// at the IPC boundary, which reports whether it succeeded.
pub struct SeL4SecurityCoordinator {}

impl SeL4SecurityCoordinator {
    pub fn new() -> (r: Self)
        ensures
            true,
    {
        SeL4SecurityCoordinator {}
    }

    /// Outcome of dispatching `request_id` whose arguments did or did
    /// not decode: a request whose arguments could not be decoded is
    /// `SreBundleDataInvalid`; every decodable request is answered with
    /// its operation's failure code.
    pub fn request_outcome(
        &self,
        request_id: SecurityRequest,
        args_decoded: bool,
    ) -> (r: SecurityRequestError)
        ensures
            r == spec_request_outcome(request_id, args_decoded),
            r != SecurityRequestError::SreSuccess,
    {
        match request_id {
            SecurityRequest::SrEcho => SecurityRequestError::SreEchoFailed,
            SecurityRequest::SrInstall => SecurityRequestError::SreInstallFailed,
            SecurityRequest::SrUninstall => {
                if args_decoded {
                    SecurityRequestError::SreUninstallFailed
                } else {
                    SecurityRequestError::SreBundleDataInvalid
                }
            },
            SecurityRequest::SrSizeBuffer => {
                if args_decoded {
                    SecurityRequestError::SreSizeBufferFailed
                } else {
                    SecurityRequestError::SreBundleDataInvalid
                }
            },
            SecurityRequest::SrGetManifest => {
                if args_decoded {
                    SecurityRequestError::SreGetManifestFailed
                } else {
                    SecurityRequestError::SreBundleDataInvalid
                }
            },
            SecurityRequest::SrLoadApplication => {
                if args_decoded {
                    SecurityRequestError::SreLoadApplicationFailed
                } else {
                    SecurityRequestError::SreBundleDataInvalid
                }
            },
            SecurityRequest::SrLoadModel => {
                if args_decoded {
                    SecurityRequestError::SreLoadModelFailed
                } else {
                    SecurityRequestError::SreBundleDataInvalid
                }
            },
            SecurityRequest::SrReadKey => {
                if args_decoded {
                    SecurityRequestError::SreReadFailed
                } else {
                    SecurityRequestError::SreBundleDataInvalid
                }
            },
            SecurityRequest::SrWriteKey => {
                if args_decoded {
                    SecurityRequestError::SreWriteFailed
                } else {
                    SecurityRequestError::SreBundleDataInvalid
                }
            },
            SecurityRequest::SrDeleteKey => {
                if args_decoded {
                    SecurityRequestError::SreDeleteFailed
                } else {
                    SecurityRequestError::SreBundleDataInvalid
                }
            },
            SecurityRequest::SrTestMailbox => SecurityRequestError::SreTestFailed,
            SecurityRequest::SrCapScan => SecurityRequestError::SreTestFailed,
        }
    }
}

} // verus!
