//! The library's error type.

use vstd::prelude::*;

verus! {

/// Why an operation on a storage device failed.
#[derive(Debug, Clone, PartialEq, Eq)]
pub enum StorageError {
    /// The block-device registry could not be read.
    RegistryAccess,
    /// The given path does not resolve to a file; carries the path.
    PathResolution(String),
    /// The resolved path has no usable leaf name; carries the path.
    InvalidDeviceName(String),
    /// A registry attribute of the device could not be read; carries the device name.
    AttributeRead(String),
    /// The device is neither removable nor a loop device; carries the device name.
    UnsafeDevice(String),
    /// No device node exists for the partition of this index.
    PartitionNotFound(u8),
    /// The mount table could not be read.
    MountTableRead,
}

}
