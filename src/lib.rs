//! Safety layer for picking a removable block device as a write target.
//!
//! The library decides; the caller reads the kernel's files and performs the
//! unmounts. Every decision is made from plain values handed in by the caller.

pub mod error;
pub mod mounts;
pub mod partition;
pub mod removable_devices;
pub mod storage_device;
pub mod text;

pub use removable_devices::{
    device_from_entry, get_storage_devices, is_removable_flag, size_from_sectors, size_from_text,
    Device, RegistryEntry, SECTOR_SIZE,
};
pub use error::StorageError;
pub use mounts::{mounts_for, MountConfig};
pub use partition::Partition;
pub use storage_device::{device_name, StorageDevice};
pub use text::{char_vec, parse_u128, trimmed};
