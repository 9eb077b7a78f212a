//! Storage management interface: the key-value error vocabulary, its
//! mapping from security-core errors, and the manager that fronts the
//! security core's key-value store.

use vstd::prelude::*;

use crate::security_interface::SecurityRequestError;

verus! {

/// Bound on the value part of key-value pairs.
pub const KEY_VALUE_DATA_SIZE: usize = 100;

pub type KeyValueData = [u8; KEY_VALUE_DATA_SIZE];

#[derive(Clone, Copy, Debug, PartialEq, Eq, Structural)]
pub enum StorageError {
    BundleNotFound,
    KeyNotFound,
    KeyInvalid,
    ValueInvalid,
    SerializeFailed,
    UnknownSecurityError,
    // Generic errors.
    ReadFailed,
    WriteFailed,
    DeleteFailed,
}

/// How a security-core error surfaces to storage callers.
pub open spec fn spec_storage_error_of(err: SecurityRequestError) -> StorageError {
    match err {
        SecurityRequestError::SreBundleNotFound => StorageError::BundleNotFound,
        SecurityRequestError::SreKeyNotFound => StorageError::KeyNotFound,
        SecurityRequestError::SreValueInvalid => StorageError::ValueInvalid,
        SecurityRequestError::SreKeyInvalid => StorageError::KeyInvalid,
        SecurityRequestError::SreSerializeFailed => StorageError::SerializeFailed,
        SecurityRequestError::SreReadFailed => StorageError::ReadFailed,
        SecurityRequestError::SreWriteFailed => StorageError::WriteFailed,
        SecurityRequestError::SreDeleteFailed => StorageError::DeleteFailed,
        _ => StorageError::UnknownSecurityError,
    }
}

impl From<SecurityRequestError> for StorageError {
    fn from(err: SecurityRequestError) -> (r: StorageError) {
        match err {
            SecurityRequestError::SreBundleNotFound => StorageError::BundleNotFound,
            SecurityRequestError::SreKeyNotFound => StorageError::KeyNotFound,
            SecurityRequestError::SreValueInvalid => StorageError::ValueInvalid,
            SecurityRequestError::SreKeyInvalid => StorageError::KeyInvalid,
            SecurityRequestError::SreSerializeFailed => StorageError::SerializeFailed,
            SecurityRequestError::SreReadFailed => StorageError::ReadFailed,
            SecurityRequestError::SreWriteFailed => StorageError::WriteFailed,
            SecurityRequestError::SreDeleteFailed => StorageError::DeleteFailed,
            _ => StorageError::UnknownSecurityError,
        }
    }
}

impl vstd::std_specs::convert::FromSpecImpl<SecurityRequestError> for StorageError {
    open spec fn obeys_from_spec() -> bool {
        true
    }

    open spec fn from_spec(err: SecurityRequestError) -> Self {
        spec_storage_error_of(err)
    }
}

/// Interface to the storage manager.
pub trait StorageManagerInterface {
    fn read(&self, bundle_id: &str, key: &str) -> Result<KeyValueData, StorageError>;

    fn write(&self, bundle_id: &str, key: &str, value: &[u8]) -> Result<(), StorageError>;

    fn delete(&self, bundle_id: &str, key: &str) -> Result<(), StorageError>;
}

/// Public version of `StorageError` presented over the RPC interface.
#[derive(Clone, Copy, Debug, PartialEq, Eq, Structural)]
pub enum StorageManagerError {
    SmeSuccess,
    SmeBundleIdInvalid,
    SmeBundleNotFound,
    SmeKeyNotFound,
    SmeValueInvalid,
    SmeKeyInvalid,
    // Generic errors.
    SmeReadFailed,
    SmeWriteFailed,
    SmeDeleteFailed,
    SmeUnknownError,
}

/// How a storage error surfaces over the RPC interface.
pub open spec fn spec_manager_error_of(err: StorageError) -> StorageManagerError {
    match err {
        StorageError::BundleNotFound => StorageManagerError::SmeBundleNotFound,
        StorageError::KeyNotFound => StorageManagerError::SmeKeyNotFound,
        StorageError::KeyInvalid => StorageManagerError::SmeKeyInvalid,
        StorageError::ValueInvalid => StorageManagerError::SmeValueInvalid,
        StorageError::ReadFailed => StorageManagerError::SmeReadFailed,
        StorageError::WriteFailed => StorageManagerError::SmeWriteFailed,
        StorageError::DeleteFailed => StorageManagerError::SmeDeleteFailed,
        _ => StorageManagerError::SmeUnknownError,
    }
}

impl From<StorageError> for StorageManagerError {
    fn from(err: StorageError) -> (r: StorageManagerError) {
        match err {
            StorageError::BundleNotFound => StorageManagerError::SmeBundleNotFound,
            StorageError::KeyNotFound => StorageManagerError::SmeKeyNotFound,
            StorageError::KeyInvalid => StorageManagerError::SmeKeyInvalid,
            StorageError::ValueInvalid => StorageManagerError::SmeValueInvalid,
            StorageError::ReadFailed => StorageManagerError::SmeReadFailed,
            StorageError::WriteFailed => StorageManagerError::SmeWriteFailed,
            StorageError::DeleteFailed => StorageManagerError::SmeDeleteFailed,
            _ => StorageManagerError::SmeUnknownError,
        }
    }
}

impl vstd::std_specs::convert::FromSpecImpl<StorageError> for StorageManagerError {
    open spec fn obeys_from_spec() -> bool {
        true
    }

    open spec fn from_spec(err: StorageError) -> Self {
        spec_manager_error_of(err)
    }
}

/// The storage manager fronting the security core's key-value store.
/// Its `StorageManagerInterface` impl speaks to the security core over
/// IPC and so lives with the embedding, not here.
pub struct KataStorageManager {}

} // verus!
