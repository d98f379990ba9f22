//! An emulation layer for named virtual block storage devices.
//!
//! The crate models fixed-size data blocks, the immutable descriptor of a
//! device, an in-memory reference device with block-level read and write,
//! a persistence codec with a proved round-trip law, an in-memory backing
//! store that stands for stable storage, and the registry that owns device
//! creation, deletion, lookup and enumeration.

pub mod backing_store;
pub mod codec;
pub mod data_type;
pub mod device_info;
pub mod device_manager;
pub mod simple_fake_device;
