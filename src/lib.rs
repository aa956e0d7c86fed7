//! Provisioning of local block storage for an operating-system install:
//! listing devices, resolving a device's partitions, the commands of each
//! filesystem backend, and the run that partitions, wipes and formats the
//! target device.
pub mod command;
pub mod device;
pub mod error;
pub mod filesystem;
pub mod install;
pub mod mirrors;
pub mod path;
pub mod text;
pub mod topology;
