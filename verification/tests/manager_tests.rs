use ministore::backing_store::BackingStore;
use ministore::data_type::{DataBlock, BLOCK_SIZE};
use ministore::device_info::{BlockDeviceType, DeviceError};
use ministore::device_manager::DeviceManager;

const ONE_MIB: u64 = 1048576;

#[test]
fn create_then_list_shows_one_entry() {
    let mut manager = DeviceManager::new();
    let info = manager
        .create("disk0".to_string(), ONE_MIB, BlockDeviceType::SimpleFakeDevice)
        .expect("create of a fresh name must succeed");
    assert_eq!(info.name().as_str(), "disk0");
    assert_eq!(info.total_size(), ONE_MIB);
    assert_eq!(info.device_type(), BlockDeviceType::SimpleFakeDevice);

    let listing = manager.list();
    assert_eq!(listing.len(), 1);
    assert_eq!(listing[0].name().as_str(), "disk0");
    assert_eq!(listing[0].total_size(), ONE_MIB);
    assert_eq!(listing[0].device_type(), BlockDeviceType::SimpleFakeDevice);
}

#[test]
fn duplicate_create_fails_and_keeps_one_entry() {
    let mut manager = DeviceManager::new();
    manager
        .create("disk0".to_string(), ONE_MIB, BlockDeviceType::SimpleFakeDevice)
        .unwrap();
    let second = manager.create(
        "disk0".to_string(),
        ONE_MIB,
        BlockDeviceType::SimpleFakeDevice,
    );
    assert_eq!(second.err(), Some(DeviceError::DuplicateName));

    let listing = manager.list();
    assert_eq!(listing.len(), 1);
    assert_eq!(listing[0].name().as_str(), "disk0");
}

#[test]
fn serialized_racing_creates_let_exactly_one_succeed() {
    // Two callers racing on an identical name are linearized by the
    // exclusion region around the registry; whichever runs second observes
    // DuplicateName, in either order.
    let mut manager = DeviceManager::new();
    let first = manager.create(
        "shared".to_string(),
        ONE_MIB,
        BlockDeviceType::SimpleFakeDevice,
    );
    let second = manager.create(
        "shared".to_string(),
        ONE_MIB,
        BlockDeviceType::SimpleFakeDevice,
    );
    assert_eq!(
        [first.is_ok(), second.is_ok()].iter().filter(|ok| **ok).count(),
        1
    );
    assert_eq!(manager.list().len(), 1);
}

#[test]
fn create_with_invalid_size_changes_nothing() {
    let mut manager = DeviceManager::new();
    let r = manager.create("disk0".to_string(), 17, BlockDeviceType::SimpleFakeDevice);
    assert_eq!(r.err(), Some(DeviceError::InvalidArgument));
    assert!(manager.list().is_empty());
}

#[test]
fn delete_of_unregistered_name_is_not_found() {
    let mut manager = DeviceManager::new();
    assert_eq!(
        manager.delete(&"ghost".to_string()),
        Err(DeviceError::NotFound)
    );
}

#[test]
fn delete_then_list_is_empty() {
    let mut manager = DeviceManager::new();
    manager
        .create("disk0".to_string(), ONE_MIB, BlockDeviceType::SimpleFakeDevice)
        .unwrap();
    manager.delete(&"disk0".to_string()).expect("delete must succeed");
    assert!(manager.list().is_empty());
    // Deleting again reports the absence.
    assert_eq!(
        manager.delete(&"disk0".to_string()),
        Err(DeviceError::NotFound)
    );
}

#[test]
fn write_then_read_through_the_registry() {
    let mut manager = DeviceManager::new();
    manager
        .create("disk0".to_string(), ONE_MIB, BlockDeviceType::SimpleFakeDevice)
        .unwrap();
    let name = "disk0".to_string();
    manager
        .write(&name, 0, 1, vec![DataBlock::filled(0xB7)])
        .expect("write through the registry must succeed");
    let blocks = manager.read(&name, 0, 1).unwrap();
    assert_eq!(blocks.len(), 1);
    assert_eq!(blocks[0].0, vec![0xB7u8; BLOCK_SIZE]);
}

#[test]
fn io_on_unknown_device_is_not_found() {
    let mut manager = DeviceManager::new();
    let name = "ghost".to_string();
    assert_eq!(manager.read(&name, 0, 1).err(), Some(DeviceError::NotFound));
    assert_eq!(
        manager.write(&name, 0, 1, vec![DataBlock::filled(1)]).err(),
        Some(DeviceError::NotFound)
    );
    let mut store = BackingStore::new();
    assert_eq!(
        manager.flush(&name, &mut store).err(),
        Some(DeviceError::NotFound)
    );
    assert_eq!(
        manager.load(&name, &store).err(),
        Some(DeviceError::NotFound)
    );
}

#[test]
fn registry_io_touches_only_the_named_device() {
    let mut manager = DeviceManager::new();
    let a = "alpha".to_string();
    let b = "beta".to_string();
    manager
        .create(a.clone(), ONE_MIB, BlockDeviceType::SimpleFakeDevice)
        .unwrap();
    manager
        .create(b.clone(), ONE_MIB, BlockDeviceType::SimpleFakeDevice)
        .unwrap();
    manager.write(&a, 0, 1, vec![DataBlock::filled(1)]).unwrap();
    assert_eq!(manager.read(&b, 0, 1).unwrap()[0].0, vec![0u8; BLOCK_SIZE]);
    assert_eq!(manager.read(&a, 0, 1).unwrap()[0].0, vec![1u8; BLOCK_SIZE]);
}

#[test]
fn flush_and_load_round_trip_through_the_registry() {
    let mut manager = DeviceManager::new();
    let mut store = BackingStore::new();
    let name = "disk0".to_string();
    manager
        .create(name.clone(), ONE_MIB, BlockDeviceType::SimpleFakeDevice)
        .unwrap();
    manager.write(&name, 2, 1, vec![DataBlock::filled(0x42)]).unwrap();
    manager.flush(&name, &mut store).expect("flush must succeed");
    manager.write(&name, 2, 1, vec![DataBlock::filled(0x99)]).unwrap();
    manager.load(&name, &store).expect("load after flush must succeed");
    assert_eq!(
        manager.read(&name, 2, 1).unwrap()[0].0,
        vec![0x42u8; BLOCK_SIZE]
    );
}

#[test]
fn get_returns_a_handle_to_the_named_device() {
    let mut manager = DeviceManager::new();
    manager
        .create("disk0".to_string(), ONE_MIB, BlockDeviceType::SimpleFakeDevice)
        .unwrap();
    let device = manager.get(&"disk0".to_string()).expect("device must exist");
    assert_eq!(device.info().name().as_str(), "disk0");
    assert_eq!(device.info().block_count(), ONE_MIB / BLOCK_SIZE as u64);
    assert_eq!(
        manager.get(&"other".to_string()).err(),
        Some(DeviceError::NotFound)
    );
}

#[test]
fn list_preserves_insertion_order() {
    let mut manager = DeviceManager::new();
    let names = ["one", "two", "three"];
    for n in names {
        manager
            .create(n.to_string(), ONE_MIB, BlockDeviceType::SimpleFakeDevice)
            .unwrap();
    }
    let listing = manager.list();
    assert_eq!(listing.len(), 3);
    for (info, expected) in listing.iter().zip(names.iter()) {
        assert_eq!(info.name().as_str(), *expected);
    }
    manager.delete(&"two".to_string()).unwrap();
    let listing = manager.list();
    assert_eq!(listing.len(), 2);
    assert_eq!(listing[0].name().as_str(), "one");
    assert_eq!(listing[1].name().as_str(), "three");
}
