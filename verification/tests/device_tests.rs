use ministore::backing_store::BackingStore;
use ministore::codec::{decode_image, encode_image};
use ministore::data_type::{Data, DataBlock, BLOCK_SIZE};
use ministore::device_info::{BlockDeviceType, DeviceError, DeviceInfo};
use ministore::simple_fake_device::SimpleFakeDevice;

const TWO_BLOCKS: u64 = 2 * BLOCK_SIZE as u64;
const FOUR_BLOCKS: u64 = 4 * BLOCK_SIZE as u64;

#[test]
fn descriptor_is_validated_once() {
    let info = DeviceInfo::new(
        BlockDeviceType::SimpleFakeDevice,
        "disk0".to_string(),
        FOUR_BLOCKS,
    )
    .expect("aligned positive size must be accepted");
    assert_eq!(info.block_size(), BLOCK_SIZE as u64);
    assert_eq!(info.block_count(), 4);
    assert_eq!(info.total_size(), FOUR_BLOCKS);
    assert_eq!(info.name().as_str(), "disk0");
    assert_eq!(info.device_type(), BlockDeviceType::SimpleFakeDevice);

    let zero = DeviceInfo::new(BlockDeviceType::SimpleFakeDevice, "z".to_string(), 0);
    assert_eq!(zero.err(), Some(DeviceError::InvalidArgument));
    let unaligned = DeviceInfo::new(
        BlockDeviceType::SimpleFakeDevice,
        "u".to_string(),
        FOUR_BLOCKS + 1,
    );
    assert_eq!(unaligned.err(), Some(DeviceError::InvalidArgument));
}

#[test]
fn fresh_device_is_all_unmapped() {
    let device = SimpleFakeDevice::new("fresh".to_string(), TWO_BLOCKS).unwrap();
    let blocks = device.read(0, 2).expect("whole-device read must succeed");
    assert_eq!(blocks.len(), 2);
    for block in &blocks {
        assert_eq!(block.0, vec![0u8; BLOCK_SIZE]);
    }
    assert_eq!(DataBlock::unmapped().0, vec![0u8; BLOCK_SIZE]);
}

#[test]
fn write_then_read_returns_written_buffer() {
    let mut device = SimpleFakeDevice::new("wr".to_string(), FOUR_BLOCKS).unwrap();
    let buffer = vec![DataBlock::filled(7), DataBlock::filled(9)];
    device.write(1, 2, buffer).expect("in-range write must succeed");
    let blocks = device.read(1, 2).unwrap();
    assert_eq!(blocks[0].0, vec![7u8; BLOCK_SIZE]);
    assert_eq!(blocks[1].0, vec![9u8; BLOCK_SIZE]);
    // Neighbouring blocks stay unmapped.
    assert_eq!(device.read(0, 1).unwrap()[0].0, vec![0u8; BLOCK_SIZE]);
    assert_eq!(device.read(3, 1).unwrap()[0].0, vec![0u8; BLOCK_SIZE]);
}

#[test]
fn zero_count_io_is_invalid_argument() {
    let mut device = SimpleFakeDevice::new("zc".to_string(), TWO_BLOCKS).unwrap();
    assert_eq!(device.read(0, 0).err(), Some(DeviceError::InvalidArgument));
    assert_eq!(
        device.write(0, 0, Vec::new()).err(),
        Some(DeviceError::InvalidArgument)
    );
}

#[test]
fn out_of_range_io_is_rejected_at_the_boundary() {
    let mut device = SimpleFakeDevice::new("oor".to_string(), FOUR_BLOCKS).unwrap();
    // block_count = 4: the boundary case lba = block_count - 1, count = 2.
    assert_eq!(device.read(3, 2).err(), Some(DeviceError::OutOfRange));
    let buffer = vec![DataBlock::filled(1), DataBlock::filled(2)];
    assert_eq!(
        device.write(3, 2, buffer).err(),
        Some(DeviceError::OutOfRange)
    );
    assert_eq!(device.read(0, 5).err(), Some(DeviceError::OutOfRange));
    assert_eq!(device.read(4, 1).err(), Some(DeviceError::OutOfRange));
    // The last full range is still valid.
    assert!(device.read(3, 1).is_ok());
}

#[test]
fn buffer_length_mismatch_is_invalid_argument() {
    let mut device = SimpleFakeDevice::new("mm".to_string(), FOUR_BLOCKS).unwrap();
    let buffer = vec![DataBlock::filled(1)];
    assert_eq!(
        device.write(0, 2, buffer).err(),
        Some(DeviceError::InvalidArgument)
    );
    let short = DataBlock::from_bytes(vec![1u8; 3]);
    assert!(short.is_none());
}

#[test]
fn flush_then_load_reproduces_content() {
    let mut store = BackingStore::new();
    let mut device = SimpleFakeDevice::new("rt".to_string(), FOUR_BLOCKS).unwrap();
    let buffer = vec![DataBlock::filled(0xAB), DataBlock::filled(0xCD)];
    device.write(1, 2, buffer).unwrap();
    device.flush(&mut store).expect("flush must succeed");

    // A fresh instance with the same identity and descriptor.
    let mut twin = SimpleFakeDevice::new("rt".to_string(), FOUR_BLOCKS).unwrap();
    twin.load(&store).expect("load after flush must succeed");
    let written = device.read(0, 4).unwrap();
    let reloaded = twin.read(0, 4).unwrap();
    for (a, b) in written.iter().zip(reloaded.iter()) {
        assert_eq!(a.0, b.0);
    }
}

#[test]
fn load_discards_unflushed_writes() {
    let mut store = BackingStore::new();
    let mut device = SimpleFakeDevice::new("dw".to_string(), TWO_BLOCKS).unwrap();
    device.write(0, 1, vec![DataBlock::filled(1)]).unwrap();
    device.flush(&mut store).unwrap();
    device.write(0, 1, vec![DataBlock::filled(2)]).unwrap();
    device.load(&store).unwrap();
    assert_eq!(device.read(0, 1).unwrap()[0].0, vec![1u8; BLOCK_SIZE]);
}

#[test]
fn load_without_flush_is_not_found() {
    let store = BackingStore::new();
    let mut device = SimpleFakeDevice::new("missing".to_string(), TWO_BLOCKS).unwrap();
    assert_eq!(device.load(&store).err(), Some(DeviceError::NotFound));
}

#[test]
fn load_of_mismatched_image_is_persistence_error() {
    let mut store = BackingStore::new();
    store.put(&"bad".to_string(), vec![1u8, 2, 3]);
    let mut device = SimpleFakeDevice::new("bad".to_string(), TWO_BLOCKS).unwrap();
    assert_eq!(device.load(&store).err(), Some(DeviceError::PersistenceError));
    // The device is unchanged by the failed load.
    assert_eq!(device.read(0, 1).unwrap()[0].0, vec![0u8; BLOCK_SIZE]);
}

#[test]
fn invalid_sizes_are_rejected_at_creation() {
    assert_eq!(
        SimpleFakeDevice::new("a".to_string(), 0).err(),
        Some(DeviceError::InvalidArgument)
    );
    assert_eq!(
        SimpleFakeDevice::new("b".to_string(), BLOCK_SIZE as u64 - 1).err(),
        Some(DeviceError::InvalidArgument)
    );
    assert!(SimpleFakeDevice::new("c".to_string(), BLOCK_SIZE as u64).is_ok());
}

#[test]
fn encode_decode_round_trip_exact_bytes() {
    let data = Data(vec![DataBlock::filled(0x5A), DataBlock::filled(0x33)]);
    let image = encode_image(&data);
    assert_eq!(image.len(), 2 * BLOCK_SIZE);
    assert!(image[..BLOCK_SIZE].iter().all(|b| *b == 0x5A));
    assert!(image[BLOCK_SIZE..].iter().all(|b| *b == 0x33));
    let decoded = decode_image(&image, 2).expect("a matching image must decode");
    assert_eq!(decoded.0.len(), 2);
    assert_eq!(decoded.0[0].0, vec![0x5Au8; BLOCK_SIZE]);
    assert_eq!(decoded.0[1].0, vec![0x33u8; BLOCK_SIZE]);
    assert_eq!(
        decode_image(&image, 3).err(),
        Some(DeviceError::PersistenceError)
    );
}

#[test]
fn data_new_builds_unmapped_blocks() {
    let data = Data::new(3);
    assert_eq!(data.0.len(), 3);
    for block in &data.0 {
        assert_eq!(block.0, vec![0u8; BLOCK_SIZE]);
    }
}
