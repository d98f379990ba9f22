//! The in-memory reference device: a dense array of fixed-size blocks with
//! block-level read and write, persisted through the backing store.

use vstd::prelude::*;

use crate::backing_store::BackingStore;
use crate::codec::{
    decode_image, decoded_image, encode_image, image_fits, image_of, lemma_image_round_trip,
};
use crate::data_type::{block_views, blocks_wf, unmap_block, Data, DataBlock, BLOCK_SIZE};
use crate::device_info::{size_valid, BlockDeviceType, DeviceError, DeviceInfo};

verus! {

/// The outcome of validating a read request of `count` blocks at `lba`
/// against a device of `block_count` blocks: zero-length I/O is an invalid
/// argument, a range past the end of the device is out of range.
pub open spec fn check_read(block_count: u64, lba: u64, count: u64) -> Result<(), DeviceError> {
    if count == 0 {
        Err(DeviceError::InvalidArgument)
    } else if lba + count > block_count {
        Err(DeviceError::OutOfRange)
    } else {
        Ok(())
    }
}

/// The outcome of validating a write request: the range checks of a read,
/// and additionally the buffer must hold exactly `count` well-formed blocks.
pub open spec fn check_write(block_count: u64, lba: u64, count: u64, buf: Seq<Seq<u8>>) -> Result<
    (),
    DeviceError,
> {
    if count == 0 {
        Err(DeviceError::InvalidArgument)
    } else if lba + count > block_count {
        Err(DeviceError::OutOfRange)
    } else if buf.len() != count || !blocks_wf(buf) {
        Err(DeviceError::InvalidArgument)
    } else {
        Ok(())
    }
}

/// The blocks a successful read returns: blocks `[lba, lba + count)`, copied,
/// in ascending LBA order.
pub open spec fn read_result(data: Seq<Seq<u8>>, lba: int, count: nat) -> Seq<Seq<u8>> {
    Seq::new(count, |i: int| data[lba + i])
}

/// The device contents after a successful write: blocks `[lba, lba +
/// buf.len())` replaced by the buffer, all others unchanged.
pub open spec fn write_result(data: Seq<Seq<u8>>, lba: int, buf: Seq<Seq<u8>>) -> Seq<Seq<u8>> {
    Seq::new(
        data.len(),
        |i: int|
            if lba <= i < lba + buf.len() {
                buf[i - lba]
            } else {
                data[i]
            },
    )
}

/// A write followed by a read of the identical range returns exactly the
/// written buffer, on every device state and every in-bounds range.
pub proof fn lemma_write_then_read(data: Seq<Seq<u8>>, lba: int, buf: Seq<Seq<u8>>)
    requires
        0 <= lba,
        lba + buf.len() <= data.len(),
    ensures
        read_result(write_result(data, lba, buf), lba, buf.len()) == buf,
{
    assert(read_result(write_result(data, lba, buf), lba, buf.len()) =~= buf);
}

/// Zero-length reads and writes are invalid arguments, whatever the device
/// bounds, the address and the buffer.
pub proof fn lemma_zero_count_invalid(block_count: u64, lba: u64, buf: Seq<Seq<u8>>)
    ensures
        check_read(block_count, lba, 0) == Err::<(), DeviceError>(DeviceError::InvalidArgument),
        check_write(block_count, lba, 0, buf) == Err::<(), DeviceError>(
            DeviceError::InvalidArgument,
        ),
{
}

/// A non-empty range that reaches past the last block is out of range, for
/// reads and writes alike, whatever the buffer.
pub proof fn lemma_out_of_range(block_count: u64, lba: u64, count: u64, buf: Seq<Seq<u8>>)
    requires
        count > 0,
        lba + count > block_count,
    ensures
        check_read(block_count, lba, count) == Err::<(), DeviceError>(DeviceError::OutOfRange),
        check_write(block_count, lba, count, buf) == Err::<(), DeviceError>(
            DeviceError::OutOfRange,
        ),
{
}

/// One virtual block device: an immutable descriptor and its block contents.
pub struct SimpleFakeDevice {
    pub device_info: DeviceInfo,
    pub data: Data,
}

impl SimpleFakeDevice {
    /// The descriptor is consistent and the device holds exactly one
    /// well-formed block per logical block address.
    pub open spec fn wf(&self) -> bool {
        &&& self.device_info.wf()
        &&& self.data@.len() == self.device_info.block_count
        &&& self.data.wf()
    }

    /// The byte contents of the device, block by block.
    pub open spec fn blocks(&self) -> Seq<Seq<u8>> {
        self.data@
    }

    /// The device's name, its identity in the registry and the store.
    pub open spec fn name_spec(&self) -> Seq<char> {
        self.device_info.name@
    }

    /// A fresh device of `size` total bytes, every block unmapped. The
    /// device is not persisted until its first explicit `flush`. Fails
    /// `InvalidArgument` exactly when the size fails descriptor validation.
    pub fn new(name: String, size: u64) -> (r: Result<SimpleFakeDevice, DeviceError>)
        ensures
            r is Ok <==> size_valid(size),
            r matches Err(e) ==> e == DeviceError::InvalidArgument,
            r matches Ok(d) ==> {
                &&& d.wf()
                &&& d.device_info.device_type == BlockDeviceType::SimpleFakeDevice
                &&& d.name_spec() == name@
                &&& d.device_info.total_size_spec() == size
                &&& d.device_info.block_count == size / (BLOCK_SIZE as u64)
                &&& forall|i: int| 0 <= i < d.blocks().len() ==> d.blocks()[i] == unmap_block()
            },
    {
        let device_info = match DeviceInfo::new(BlockDeviceType::SimpleFakeDevice, name, size) {
            Ok(info) => info,
            Err(e) => {
                return Err(e);
            },
        };
        let data = Data::new(device_info.block_count() as usize);
        Ok(SimpleFakeDevice { device_info, data })
    }

    /// The immutable descriptor of the device. Never fails, no side effects.
    pub fn info(&self) -> (r: &DeviceInfo)
        ensures
            r == self.device_info,
    {
        &self.device_info
    }

    /// Reads `num_blocks` blocks starting at `lba`, as copies in ascending
    /// LBA order. Fails `InvalidArgument` on a zero count and `OutOfRange`
    /// when the range exceeds the device, and succeeds otherwise.
    pub fn read(&self, lba: u64, num_blocks: u64) -> (r: Result<Vec<DataBlock>, DeviceError>)
        requires
            self.wf(),
        ensures
            r is Ok <==> check_read(self.device_info.block_count, lba, num_blocks) is Ok,
            r matches Err(e) ==> check_read(self.device_info.block_count, lba, num_blocks) == Err::<
                (),
                DeviceError,
            >(e),
            r matches Ok(v) ==> block_views(v@) == read_result(
                self.blocks(),
                lba as int,
                num_blocks as nat,
            ),
    {
        let block_count: u64 = self.device_info.block_count;
        if num_blocks == 0 {
            return Err(DeviceError::InvalidArgument);
        }
        if lba > block_count || num_blocks > block_count - lba {
            return Err(DeviceError::OutOfRange);
        }
        let mut out: Vec<DataBlock> = Vec::new();
        let n: usize = num_blocks as usize;
        let base: usize = lba as usize;
        let mut i: usize = 0;
        while i < n
            invariant
                i <= n,
                self.wf(),
                base == lba,
                n == num_blocks,
                base + n <= self.blocks().len(),
                out@.len() == i,
                forall|k: int| 0 <= k < i ==> (#[trigger] out@[k])@ == self.blocks()[base + k],
            decreases n - i,
        {
            out.push(self.data.0[base + i].clone());
            i = i + 1;
        }
        proof {
            assert(block_views(out@) =~= read_result(self.blocks(), lba as int, num_blocks as nat));
        }
        Ok(out)
    }

    /// Overwrites blocks `[lba, lba + num_blocks)` from the buffer. Fails
    /// `InvalidArgument` on a zero count or a buffer that does not hold
    /// exactly `num_blocks` well-formed blocks, `OutOfRange` when the range
    /// exceeds the device; on failure the device is unchanged.
    #[verifier::loop_isolation(false)]
    pub fn write(&mut self, lba: u64, num_blocks: u64, buffer: Vec<DataBlock>) -> (r: Result<
        (),
        DeviceError,
    >)
        requires
            old(self).wf(),
        ensures
            final(self).wf(),
            final(self).device_info == old(self).device_info,
            r == check_write(old(self).device_info.block_count, lba, num_blocks, block_views(
                buffer@,
            )),
            r is Ok ==> final(self).blocks() == write_result(
                old(self).blocks(),
                lba as int,
                block_views(buffer@),
            ),
            r is Err ==> final(self).blocks() == old(self).blocks(),
    {
        let block_count: u64 = self.device_info.block_count;
        if num_blocks == 0 {
            return Err(DeviceError::InvalidArgument);
        }
        if lba > block_count || num_blocks > block_count - lba {
            return Err(DeviceError::OutOfRange);
        }
        if buffer.len() as u64 != num_blocks {
            return Err(DeviceError::InvalidArgument);
        }
        let n: usize = num_blocks as usize;
        let mut i: usize = 0;
        while i < n
            invariant
                i <= n,
                self == old(self),
                forall|k: int| 0 <= k < i ==> (#[trigger] buffer@[k])@.len() == BLOCK_SIZE,
            decreases n - i,
        {
            if buffer[i].0.len() != BLOCK_SIZE {
                proof {
                    assert(block_views(buffer@)[i as int].len() != BLOCK_SIZE);
                }
                return Err(DeviceError::InvalidArgument);
            }
            i = i + 1;
        }
        proof {
            assert(blocks_wf(block_views(buffer@)));
        }
        let base: usize = lba as usize;
        let mut i: usize = 0;
        while i < n
            invariant
                i <= n,
                self.device_info == old(self).device_info,
                self.data.0@.len() == old(self).data.0@.len(),
                forall|k: int|
                    0 <= k < self.data.0@.len() ==> (#[trigger] self.data.0@[k])@ == (if base <= k
                        < base + i {
                        buffer@[k - base]@
                    } else {
                        old(self).data.0@[k]@
                    }),
            decreases n - i,
        {
            self.data.0[base + i] = buffer[i].clone();
            i = i + 1;
        }
        proof {
            assert(self.blocks() =~= write_result(
                old(self).blocks(),
                lba as int,
                block_views(buffer@),
            ));
        }
        Ok(())
    }

    /// Persists the full current block sequence to the store, keyed by the
    /// device's name, creating the image if absent. Fails `PersistenceError`
    /// exactly when the image would exceed the address space, in which case
    /// the store is unchanged.
    pub fn flush(&self, store: &mut BackingStore) -> (r: Result<(), DeviceError>)
        requires
            self.wf(),
        ensures
            r is Ok <==> image_fits(self.blocks().len()),
            r matches Err(e) ==> e == DeviceError::PersistenceError && final(store)@ == old(
                store,
            )@,
            r is Ok ==> final(store)@ == old(store)@.insert(
                self.name_spec(),
                image_of(self.blocks()),
            ),
    {
        let block_count: u64 = self.device_info.block_count;
        if block_count > (usize::MAX / BLOCK_SIZE) as u64 {
            proof {
                assert(!image_fits(self.blocks().len())) by (nonlinear_arith)
                    requires
                        block_count > usize::MAX / BLOCK_SIZE,
                        self.blocks().len() == block_count,
                        BLOCK_SIZE == 4096,
                ;
            }
            return Err(DeviceError::PersistenceError);
        }
        proof {
            assert(image_fits(self.blocks().len())) by (nonlinear_arith)
                requires
                    block_count <= usize::MAX / BLOCK_SIZE,
                    self.blocks().len() == block_count,
                    BLOCK_SIZE == 4096,
            ;
        }
        let image = encode_image(&self.data);
        store.put(&self.device_info.name, image);
        Ok(())
    }

    /// Replaces the entire in-memory block sequence with the persisted image
    /// for this device's identity, discarding unflushed writes. Fails
    /// `NotFound` if no image exists for the name, and `PersistenceError` if
    /// the image does not match the descriptor; on failure the device is
    /// unchanged.
    pub fn load(&mut self, store: &BackingStore) -> (r: Result<(), DeviceError>)
        requires
            old(self).wf(),
        ensures
            final(self).wf(),
            final(self).device_info == old(self).device_info,
            r is Err ==> final(self).blocks() == old(self).blocks(),
            !store@.contains_key(old(self).name_spec()) <==> r == Err::<(), DeviceError>(
                DeviceError::NotFound,
            ),
            store@.contains_key(old(self).name_spec()) && store@[old(self).name_spec()].len()
                != old(self).device_info.block_count * BLOCK_SIZE <==> r == Err::<(), DeviceError>(
                DeviceError::PersistenceError,
            ),
            r is Ok <==> store@.contains_key(old(self).name_spec()) && store@[old(
                self,
            ).name_spec()].len() == old(self).device_info.block_count * BLOCK_SIZE,
            r is Ok ==> final(self).blocks() == decoded_image(
                store@[old(self).name_spec()],
                old(self).device_info.block_count as nat,
            ),
    {
        let image = match store.get(&self.device_info.name) {
            Some(image) => image,
            None => {
                return Err(DeviceError::NotFound);
            },
        };
        match decode_image(image, self.device_info.block_count) {
            Ok(data) => {
                self.data = data;
                Ok(())
            },
            Err(e) => Err(e),
        }
    }
}

/// Round-trip law of persistence: after a `flush`, a `load` against the
/// resulting store by any device instance with the same identity and
/// descriptor succeeds and reproduces byte-identical block content.
pub proof fn lemma_flush_then_load(
    store: Map<Seq<char>, Seq<u8>>,
    name: Seq<char>,
    data: Seq<Seq<u8>>,
)
    requires
        blocks_wf(data),
    ensures
        store.insert(name, image_of(data)).contains_key(name),
        store.insert(name, image_of(data))[name].len() == data.len() * BLOCK_SIZE,
        decoded_image(store.insert(name, image_of(data))[name], data.len()) == data,
{
    lemma_image_round_trip(data);
}

} // verus!
