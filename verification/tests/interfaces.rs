//! Tests for the boundary interfaces: error mappings, RPC framing, and
//! the stubbed vector core.

use kata_core::sdk_interface::{SDKReplyHeader, SDKRequestHeader, SDKRuntimeError, SDKRuntimeRequest};
use kata_core::security_interface::{SeL4SecurityCoordinator, SecurityRequest, SecurityRequestError};
use kata_core::storage_interface::{StorageError, StorageManagerError};
use kata_core::vec_core;

#[test]
fn test_storage_error_from_security_error() {
    assert_eq!(
        StorageError::from(SecurityRequestError::SreBundleNotFound),
        StorageError::BundleNotFound
    );
    assert_eq!(
        StorageError::from(SecurityRequestError::SreKeyNotFound),
        StorageError::KeyNotFound
    );
    assert_eq!(
        StorageError::from(SecurityRequestError::SreValueInvalid),
        StorageError::ValueInvalid
    );
    assert_eq!(StorageError::from(SecurityRequestError::SreKeyInvalid), StorageError::KeyInvalid);
    assert_eq!(
        StorageError::from(SecurityRequestError::SreSerializeFailed),
        StorageError::SerializeFailed
    );
    assert_eq!(StorageError::from(SecurityRequestError::SreReadFailed), StorageError::ReadFailed);
    assert_eq!(StorageError::from(SecurityRequestError::SreWriteFailed), StorageError::WriteFailed);
    assert_eq!(
        StorageError::from(SecurityRequestError::SreDeleteFailed),
        StorageError::DeleteFailed
    );
    // Anything else cannot happen and maps to the catch-all.
    assert_eq!(
        StorageError::from(SecurityRequestError::SreEchoFailed),
        StorageError::UnknownSecurityError
    );
}

#[test]
fn test_manager_error_from_storage_error() {
    assert_eq!(
        StorageManagerError::from(StorageError::BundleNotFound),
        StorageManagerError::SmeBundleNotFound
    );
    assert_eq!(
        StorageManagerError::from(StorageError::KeyNotFound),
        StorageManagerError::SmeKeyNotFound
    );
    assert_eq!(
        StorageManagerError::from(StorageError::KeyInvalid),
        StorageManagerError::SmeKeyInvalid
    );
    assert_eq!(
        StorageManagerError::from(StorageError::ValueInvalid),
        StorageManagerError::SmeValueInvalid
    );
    assert_eq!(
        StorageManagerError::from(StorageError::ReadFailed),
        StorageManagerError::SmeReadFailed
    );
    assert_eq!(
        StorageManagerError::from(StorageError::WriteFailed),
        StorageManagerError::SmeWriteFailed
    );
    assert_eq!(
        StorageManagerError::from(StorageError::DeleteFailed),
        StorageManagerError::SmeDeleteFailed
    );
    assert_eq!(
        StorageManagerError::from(StorageError::UnknownSecurityError),
        StorageManagerError::SmeUnknownError
    );
}

#[test]
fn test_security_request_outcome() {
    let coordinator = SeL4SecurityCoordinator::new();
    assert_eq!(
        coordinator.request_outcome(SecurityRequest::SrEcho, true),
        SecurityRequestError::SreEchoFailed
    );
    assert_eq!(
        coordinator.request_outcome(SecurityRequest::SrInstall, true),
        SecurityRequestError::SreInstallFailed
    );
    assert_eq!(
        coordinator.request_outcome(SecurityRequest::SrUninstall, true),
        SecurityRequestError::SreUninstallFailed
    );
    assert_eq!(
        coordinator.request_outcome(SecurityRequest::SrSizeBuffer, true),
        SecurityRequestError::SreSizeBufferFailed
    );
    assert_eq!(
        coordinator.request_outcome(SecurityRequest::SrGetManifest, true),
        SecurityRequestError::SreGetManifestFailed
    );
    assert_eq!(
        coordinator.request_outcome(SecurityRequest::SrLoadApplication, true),
        SecurityRequestError::SreLoadApplicationFailed
    );
    assert_eq!(
        coordinator.request_outcome(SecurityRequest::SrLoadModel, true),
        SecurityRequestError::SreLoadModelFailed
    );
    assert_eq!(
        coordinator.request_outcome(SecurityRequest::SrReadKey, true),
        SecurityRequestError::SreReadFailed
    );
    assert_eq!(
        coordinator.request_outcome(SecurityRequest::SrWriteKey, true),
        SecurityRequestError::SreWriteFailed
    );
    assert_eq!(
        coordinator.request_outcome(SecurityRequest::SrDeleteKey, true),
        SecurityRequestError::SreDeleteFailed
    );
    // Arguments that failed to decode surface as bad bundle data.
    assert_eq!(
        coordinator.request_outcome(SecurityRequest::SrWriteKey, false),
        SecurityRequestError::SreBundleDataInvalid
    );
    assert_eq!(
        coordinator.request_outcome(SecurityRequest::SrEcho, false),
        SecurityRequestError::SreEchoFailed
    );
}

#[test]
fn test_sdk_reply_header_into_result() {
    let ok = SDKReplyHeader::new(SDKRuntimeError::SDKSuccess);
    assert_eq!(ok.into_result(), Ok(()));
    let err = SDKReplyHeader::new(SDKRuntimeError::SDKDeserializeFailed);
    assert_eq!(err.into_result(), Err(SDKRuntimeError::SDKDeserializeFailed));
}

#[test]
fn test_sdk_request_header() {
    let header = SDKRequestHeader::new(SDKRuntimeRequest::Log);
    assert_eq!(header.request, SDKRuntimeRequest::Log);
}

#[test]
fn test_vec_core_stub_reports_idle() {
    vec_core::enable_interrupts(true);
    vec_core::run();
    vec_core::clear_host_req();
    vec_core::clear_finish();
    vec_core::clear_instruction_fault();
    vec_core::clear_data_fault();
    vec_core::clear_tcm(0, 16);
    vec_core::tcm_move(0, 4, 8);
    vec_core::wait_for_clear_to_finish();
    assert_eq!(vec_core::get_return_code(), 0);
    assert_eq!(vec_core::get_fault_register(), 0);
}
