//! The immutable descriptor of a device, and the error taxonomy every
//! operation of the crate reports through.

use vstd::prelude::*;

use crate::data_type::BLOCK_SIZE;

verus! {

/// The kind of a device. Today one reference implementation exists; the
/// closed set is meant to grow.
#[derive(Clone, Copy, PartialEq, Eq, Structural, Debug)]
pub enum BlockDeviceType {
    SimpleFakeDevice,
}

/// Structured failure reasons of every core operation.
#[derive(Clone, Copy, PartialEq, Eq, Structural, Debug)]
pub enum DeviceError {
    /// Malformed size, zero-length I/O, or a buffer/length mismatch.
    InvalidArgument,
    /// The requested block range exceeds the device bounds.
    OutOfRange,
    /// A device of that name is already registered.
    DuplicateName,
    /// No such device, or no persisted image for this device identity.
    NotFound,
    /// The persisted image cannot be produced or decoded.
    PersistenceError,
}

/// Immutable metadata describing one device: kind, unique name, block size
/// and block count. Created once, at device-creation time, and never
/// mutated thereafter.
pub struct DeviceInfo {
    pub device_type: BlockDeviceType,
    pub name: String,
    pub block_size: u64,
    pub block_count: u64,
}

/// A requested total byte size is acceptable: positive, block-aligned, and
/// with a block count the address space can index.
pub open spec fn size_valid(size: u64) -> bool {
    &&& size > 0
    &&& size % (BLOCK_SIZE as u64) == 0
    &&& size / (BLOCK_SIZE as u64) <= usize::MAX as u64
}

impl DeviceInfo {
    /// The descriptor is internally consistent: the fixed block size, a
    /// positive block count that fits the address space, and a total byte
    /// size representable in 64 bits.
    pub open spec fn wf(&self) -> bool {
        &&& self.block_size == BLOCK_SIZE as u64
        &&& self.block_count > 0
        &&& self.block_count <= usize::MAX as u64
        &&& self.block_count * self.block_size <= u64::MAX
    }

    /// Total byte size described by the descriptor.
    pub open spec fn total_size_spec(&self) -> int {
        self.block_count * self.block_size
    }

    /// Validates a requested total byte size once, at construction.
    /// Fails `InvalidArgument` if the size is zero, not block-aligned, or
    /// yields a block count beyond what the address space can index.
    pub fn new(device_type: BlockDeviceType, name: String, size: u64) -> (r: Result<
        DeviceInfo,
        DeviceError,
    >)
        ensures
            r is Ok <==> size_valid(size),
            r matches Err(e) ==> e == DeviceError::InvalidArgument,
            r matches Ok(info) ==> {
                &&& info.wf()
                &&& info.device_type == device_type
                &&& info.name@ == name@
                &&& info.block_size == BLOCK_SIZE as u64
                &&& info.block_count == size / (BLOCK_SIZE as u64)
                &&& info.total_size_spec() == size
            },
    {
        let bs: u64 = BLOCK_SIZE as u64;
        if size == 0 || size % bs != 0 || size / bs > usize::MAX as u64 {
            return Err(DeviceError::InvalidArgument);
        }
        let block_count: u64 = size / bs;
        Ok(DeviceInfo { device_type, name, block_size: bs, block_count })
    }

    /// The device kind.
    pub fn device_type(&self) -> (r: BlockDeviceType)
        ensures
            r == self.device_type,
    {
        self.device_type
    }

    /// The unique name; it doubles as the persistence key.
    pub fn name(&self) -> (r: &String)
        ensures
            r@ == self.name@,
    {
        &self.name
    }

    /// Bytes per block.
    pub fn block_size(&self) -> (r: u64)
        ensures
            r == self.block_size,
    {
        self.block_size
    }

    /// Number of addressable blocks.
    pub fn block_count(&self) -> (r: u64)
        ensures
            r == self.block_count,
    {
        self.block_count
    }

    /// Total byte size: block size times block count.
    pub fn total_size(&self) -> (r: u64)
        requires
            self.wf(),
        ensures
            r == self.total_size_spec(),
    {
        self.block_count * self.block_size
    }
}

impl Clone for DeviceInfo {
    fn clone(&self) -> (r: Self)
        ensures
            r == *self,
    {
        DeviceInfo {
            device_type: self.device_type,
            name: self.name.clone(),
            block_size: self.block_size,
            block_count: self.block_count,
        }
    }
}

} // verus!
