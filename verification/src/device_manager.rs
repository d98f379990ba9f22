//! The device registry: the single authoritative table from device name to
//! live device instance, in insertion order. It is the only component that
//! creates or destroys devices; I/O and persistence calls are dispatched
//! through it by name.
//!
//! The registry itself is sequential. A program that serves concurrent
//! callers wraps one registry in a mutual-exclusion region, so that table
//! mutations and each dispatched call are linearized; the contracts here
//! then decide every interleaving (see `lemma_second_create_fails`).

use vstd::prelude::*;

use crate::backing_store::BackingStore;
use crate::codec::{decoded_image, image_fits, image_of};
use crate::data_type::{block_views, unmap_block, DataBlock, BLOCK_SIZE};
use crate::device_info::{size_valid, BlockDeviceType, DeviceError, DeviceInfo};
use crate::simple_fake_device::{check_read, check_write, read_result, write_result,
    SimpleFakeDevice};

verus! {

/// `n` is among the names of `s`.
pub open spec fn has_name(s: Seq<Seq<char>>, n: Seq<char>) -> bool {
    exists|i: int| 0 <= i < s.len() && s[i] == n
}

/// The registry of live devices, in insertion order.
pub struct DeviceManager {
    pub devices: Vec<SimpleFakeDevice>,
}

impl DeviceManager {
    /// The registered names, in insertion order.
    pub open spec fn names(&self) -> Seq<Seq<char>> {
        Seq::new(self.devices@.len(), |i: int| self.devices@[i].name_spec())
    }

    /// Every device is well-formed and no name occurs twice.
    pub open spec fn wf(&self) -> bool {
        &&& forall|i: int|
            0 <= i < self.devices@.len() ==> (#[trigger] self.devices@[i]).wf()
        &&& forall|i: int, j: int|
            0 <= i < j < self.devices@.len() ==> self.names()[i] != self.names()[j]
    }

    /// The position of `n` in the registry.
    pub open spec fn index_of(&self, n: Seq<char>) -> int {
        choose|i: int| 0 <= i < self.names().len() && self.names()[i] == n
    }

    /// An empty registry.
    pub fn new() -> (r: DeviceManager)
        ensures
            r.wf(),
            r.names() == Seq::<Seq<char>>::empty(),
    {
        let r = DeviceManager { devices: Vec::new() };
        proof {
            assert(r.names() =~= Seq::<Seq<char>>::empty());
        }
        r
    }

    /// The position of the device named `name`, if one is registered.
    fn find(&self, name: &String) -> (r: Option<usize>)
        ensures
            r is Some <==> has_name(self.names(), name@),
            r matches Some(i) ==> 0 <= i < self.names().len() && self.names()[i as int] == name@,
    {
        let n: usize = self.devices.len();
        let mut i: usize = 0;
        while i < n
            invariant
                i <= n,
                n == self.devices@.len(),
                forall|k: int| 0 <= k < i ==> self.names()[k] != name@,
            decreases n - i,
        {
            if self.devices[i].device_info.name == *name {
                proof {
                    assert(self.names()[i as int] == name@);
                }
                return Some(i);
            }
            i = i + 1;
        }
        None
    }

    /// Creates and registers a device. Fails `DuplicateName` if the name is
    /// already registered, `InvalidArgument` if the size fails descriptor
    /// validation; on failure the registry is unchanged. On success the new
    /// device is appended, every block unmapped, and its descriptor is
    /// returned. The new device is not persisted until its first `flush`.
    pub fn create(&mut self, name: String, size: u64, device_type: BlockDeviceType) -> (r: Result<
        DeviceInfo,
        DeviceError,
    >)
        requires
            old(self).wf(),
        ensures
            final(self).wf(),
            r == Err::<DeviceInfo, DeviceError>(DeviceError::DuplicateName) <==> has_name(
                old(self).names(),
                name@,
            ),
            r == Err::<DeviceInfo, DeviceError>(DeviceError::InvalidArgument) <==> !has_name(
                old(self).names(),
                name@,
            ) && !size_valid(size),
            r is Ok <==> !has_name(old(self).names(), name@) && size_valid(size),
            r is Err ==> *final(self) == *old(self),
            r matches Ok(info) ==> {
                &&& info.wf()
                &&& info.device_type == device_type
                &&& info.name@ == name@
                &&& info.total_size_spec() == size
                &&& info.block_count == size / (BLOCK_SIZE as u64)
                &&& final(self).names() == old(self).names().push(name@)
                &&& final(self).devices@.len() == old(self).devices@.len() + 1
                &&& forall|i: int|
                    0 <= i < old(self).devices@.len() ==> old(self).devices@[i]
                        == #[trigger] final(self).devices@[i]
                &&& final(self).devices@.last().device_info == info
                &&& forall|i: int|
                    0 <= i < final(self).devices@.last().blocks().len()
                        ==> final(self).devices@.last().blocks()[i] == unmap_block()
            },
    {
        if self.find(&name).is_some() {
            return Err(DeviceError::DuplicateName);
        }
        let device = match device_type {
            BlockDeviceType::SimpleFakeDevice => match SimpleFakeDevice::new(name, size) {
                Ok(d) => d,
                Err(e) => {
                    return Err(e);
                },
            },
        };
        let info = device.info().clone();
        self.devices.push(device);
        proof {
            assert(self.names() =~= old(self).names().push(info.name@));
            assert forall|i: int, j: int|
                0 <= i < j < self.devices@.len() implies self.names()[i] != self.names()[j] by {
                if j < self.devices@.len() - 1 {
                    assert(old(self).names()[i] != old(self).names()[j]);
                } else {
                    assert(!has_name(old(self).names(), self.names()[j]));
                }
            };
        }
        Ok(info)
    }

    /// Removes the device named `name` from the registry. Fails `NotFound`
    /// if absent, leaving the registry unchanged. Removal does not touch any
    /// persisted image: discarding a backing image is a separate, explicit
    /// decision of the caller.
    pub fn delete(&mut self, name: &String) -> (r: Result<(), DeviceError>)
        requires
            old(self).wf(),
        ensures
            final(self).wf(),
            r is Ok <==> has_name(old(self).names(), name@),
            r matches Err(e) ==> e == DeviceError::NotFound && *final(self) == *old(self),
            r is Ok ==> {
                &&& final(self).devices@ == old(self).devices@.remove(old(self).index_of(name@))
                &&& final(self).names() == old(self).names().remove(old(self).index_of(name@))
                &&& !has_name(final(self).names(), name@)
            },
    {
        let i = match self.find(name) {
            Some(i) => i,
            None => {
                return Err(DeviceError::NotFound);
            },
        };
        self.devices.remove(i);
        proof {
            let ghost pre = old(self);
            let ghost idx = pre.index_of(name@);
            assert(pre.names()[i as int] == name@);
            assert(0 <= idx < pre.names().len() && pre.names()[idx] == name@);
            assert(idx == i);
            assert(self.names() =~= pre.names().remove(i as int));
            assert forall|k: int| 0 <= k < self.names().len() implies self.names()[k] != name@ by {
                if k < i {
                    assert(pre.names()[k] != pre.names()[i as int]);
                } else {
                    assert(pre.names()[k + 1] != pre.names()[i as int]);
                }
            };
        }
        Ok(())
    }

    /// A consistent snapshot of the descriptors of all registered devices,
    /// in insertion order.
    pub fn list(&self) -> (r: Vec<DeviceInfo>)
        requires
            self.wf(),
        ensures
            r@.len() == self.devices@.len(),
            forall|i: int|
                0 <= i < r@.len() ==> #[trigger] r@[i] == self.devices@[i].device_info,
    {
        let n: usize = self.devices.len();
        let mut out: Vec<DeviceInfo> = Vec::new();
        let mut i: usize = 0;
        while i < n
            invariant
                i <= n,
                n == self.devices@.len(),
                out@.len() == i,
                forall|k: int| 0 <= k < i ==> #[trigger] out@[k] == self.devices@[k].device_info,
            decreases n - i,
        {
            out.push(self.devices[i].device_info.clone());
            i = i + 1;
        }
        out
    }

    /// A handle to the device named `name`, for descriptor queries and
    /// reads; mutation is dispatched through the registry. Fails `NotFound`
    /// if absent.
    pub fn get(&self, name: &String) -> (r: Result<&SimpleFakeDevice, DeviceError>)
        requires
            self.wf(),
        ensures
            r is Ok <==> has_name(self.names(), name@),
            r matches Err(e) ==> e == DeviceError::NotFound,
            r matches Ok(d) ==> *d == self.devices@[self.index_of(name@)] && d.name_spec()
                == name@ && d.wf(),
    {
        let i = match self.find(name) {
            Some(i) => i,
            None => {
                return Err(DeviceError::NotFound);
            },
        };
        proof {
            assert(0 <= self.index_of(name@) < self.names().len() && self.names()[self.index_of(
                name@,
            )] == name@);
            assert(self.index_of(name@) == i);
        }
        Ok(&self.devices[i])
    }

    /// Reads `num_blocks` blocks at `lba` from the device named `name`.
    /// Fails `NotFound` for an unregistered name; otherwise validates and
    /// reads exactly as the device itself does.
    pub fn read(&self, name: &String, lba: u64, num_blocks: u64) -> (r: Result<
        Vec<DataBlock>,
        DeviceError,
    >)
        requires
            self.wf(),
        ensures
            !has_name(self.names(), name@) ==> r == Err::<Vec<DataBlock>, DeviceError>(
                DeviceError::NotFound,
            ),
            has_name(self.names(), name@) ==> {
                let d = self.devices@[self.index_of(name@)];
                &&& (r is Ok <==> check_read(d.device_info.block_count, lba, num_blocks) is Ok)
                &&& (r matches Err(e) ==> check_read(d.device_info.block_count, lba, num_blocks)
                    == Err::<(), DeviceError>(e))
                &&& (r matches Ok(v) ==> block_views(v@) == read_result(
                    d.blocks(),
                    lba as int,
                    num_blocks as nat,
                ))
            },
    {
        match self.get(name) {
            Ok(device) => device.read(lba, num_blocks),
            Err(e) => Err(e),
        }
    }

    /// Writes `num_blocks` blocks at `lba` to the device named `name`.
    /// Fails `NotFound` for an unregistered name; otherwise validates and
    /// writes exactly as the device itself does, leaving every other device
    /// untouched.
    pub fn write(&mut self, name: &String, lba: u64, num_blocks: u64, buffer: Vec<DataBlock>) -> (r:
        Result<(), DeviceError>)
        requires
            old(self).wf(),
        ensures
            final(self).wf(),
            final(self).names() == old(self).names(),
            !has_name(old(self).names(), name@) ==> r == Err::<(), DeviceError>(
                DeviceError::NotFound,
            ) && *final(self) == *old(self),
            has_name(old(self).names(), name@) ==> {
                let idx = old(self).index_of(name@);
                let d = old(self).devices@[idx];
                &&& r == check_write(d.device_info.block_count, lba, num_blocks, block_views(
                    buffer@,
                ))
                &&& forall|i: int|
                    0 <= i < old(self).devices@.len() && i != idx
                        ==> #[trigger] final(self).devices@[i] == old(self).devices@[i]
                &&& final(self).devices@[idx].device_info == d.device_info
                &&& (r is Ok ==> final(self).devices@[idx].blocks() == write_result(
                    d.blocks(),
                    lba as int,
                    block_views(buffer@),
                ))
                &&& (r is Err ==> final(self).devices@[idx].blocks() == d.blocks())
            },
    {
        let i = match self.find(name) {
            Some(i) => i,
            None => {
                return Err(DeviceError::NotFound);
            },
        };
        proof {
            assert(0 <= old(self).index_of(name@) < old(self).names().len() && old(
                self,
            ).names()[old(self).index_of(name@)] == name@);
            assert(old(self).index_of(name@) == i);
        }
        let mut device = self.devices.remove(i);
        let r = device.write(lba, num_blocks, buffer);
        self.devices.insert(i, device);
        proof {
            assert(self.devices@ =~= old(self).devices@.update(i as int, device));
            assert(self.names() =~= old(self).names());
        }
        r
    }

    /// Persists the device named `name` into the store. Fails `NotFound` for
    /// an unregistered name; otherwise exactly as the device's own `flush`.
    pub fn flush(&self, name: &String, store: &mut BackingStore) -> (r: Result<(), DeviceError>)
        requires
            self.wf(),
        ensures
            !has_name(self.names(), name@) ==> r == Err::<(), DeviceError>(DeviceError::NotFound)
                && final(store)@ == old(store)@,
            has_name(self.names(), name@) ==> {
                let d = self.devices@[self.index_of(name@)];
                &&& (r is Ok <==> image_fits(d.blocks().len()))
                &&& (r matches Err(e) ==> e == DeviceError::PersistenceError && final(store)@
                    == old(store)@)
                &&& (r is Ok ==> final(store)@ == old(store)@.insert(name@, image_of(d.blocks())))
            },
    {
        match self.get(name) {
            Ok(device) => device.flush(store),
            Err(e) => Err(e),
        }
    }

    /// Replaces the in-memory content of the device named `name` with its
    /// persisted image. Fails `NotFound` for an unregistered name; otherwise
    /// exactly as the device's own `load`.
    pub fn load(&mut self, name: &String, store: &BackingStore) -> (r: Result<(), DeviceError>)
        requires
            old(self).wf(),
        ensures
            final(self).wf(),
            final(self).names() == old(self).names(),
            !has_name(old(self).names(), name@) ==> r == Err::<(), DeviceError>(
                DeviceError::NotFound,
            ) && *final(self) == *old(self),
            has_name(old(self).names(), name@) ==> {
                let idx = old(self).index_of(name@);
                let d = old(self).devices@[idx];
                &&& forall|i: int|
                    0 <= i < old(self).devices@.len() && i != idx
                        ==> #[trigger] final(self).devices@[i] == old(self).devices@[i]
                &&& final(self).devices@[idx].device_info == d.device_info
                &&& (!store@.contains_key(name@) ==> r == Err::<(), DeviceError>(
                    DeviceError::NotFound,
                ))
                &&& (r is Ok <==> store@.contains_key(name@) && store@[name@].len()
                    == d.device_info.block_count * BLOCK_SIZE)
                &&& (r is Err ==> final(self).devices@[idx].blocks() == d.blocks())
                &&& (r is Ok ==> final(self).devices@[idx].blocks() == decoded_image(
                    store@[name@],
                    d.device_info.block_count as nat,
                ))
            },
    {
        let i = match self.find(name) {
            Some(i) => i,
            None => {
                return Err(DeviceError::NotFound);
            },
        };
        proof {
            assert(0 <= old(self).index_of(name@) < old(self).names().len() && old(
                self,
            ).names()[old(self).index_of(name@)] == name@);
            assert(old(self).index_of(name@) == i);
        }
        let mut device = self.devices.remove(i);
        let r = device.load(store);
        self.devices.insert(i, device);
        proof {
            assert(self.devices@ =~= old(self).devices@.update(i as int, device));
            assert(self.names() =~= old(self).names());
        }
        r
    }
}

/// Of two `create` calls with the same name, only the first can succeed:
/// once a create has appended `name`, the name is registered, so by
/// `create`'s contract the second call reports `DuplicateName` and leaves
/// the registry unchanged. Two callers racing on one name are linearized by
/// the exclusion region around the registry, so exactly one of them observes
/// success and the table afterwards holds exactly one entry for the name.
pub proof fn lemma_second_create_fails(names: Seq<Seq<char>>, name: Seq<char>)
    ensures
        has_name(names.push(name), name),
{
    assert(names.push(name)[names.len() as int] == name);
}

} // verus!
