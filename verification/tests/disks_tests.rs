//! Disk model behaviour: name classification, record construction, mock
//! devices and the block-device front.

use provisioning::device::BlockDevice;
use provisioning::disk::{
    name_matches_loop, name_matches_mmc, name_matches_mock, name_matches_nvme, name_matches_scsi,
    name_matches_virtio, BasicDisk, Disk,
};
use provisioning::loopback::Device;
use provisioning::mock::MockDisk;
use provisioning::partition::Partition;

#[test]
fn scsi_names() {
    assert!(name_matches_scsi("sda"));
    assert!(name_matches_scsi("sdzz"));
    assert!(!name_matches_scsi("sd"));
    assert!(!name_matches_scsi("sda1"));
    assert!(!name_matches_scsi("sdA"));
    assert!(!name_matches_scsi("nvme0n1"));
}

#[test]
fn nvme_names() {
    assert!(name_matches_nvme("nvme0n1"));
    assert!(name_matches_nvme("nvme12n34"));
    assert!(!name_matches_nvme("nvme0n1p1"));
    assert!(!name_matches_nvme("nvme0n"));
    assert!(!name_matches_nvme("nvmen1"));
    assert!(!name_matches_nvme("nvme0"));
}

#[test]
fn mmc_virtio_loop_mock_names() {
    assert!(name_matches_mmc("mmcblk0"));
    assert!(!name_matches_mmc("mmcblk"));
    assert!(!name_matches_mmc("mmcblk0p1"));
    assert!(name_matches_virtio("vda"));
    assert!(!name_matches_virtio("vd1"));
    assert!(name_matches_loop("loop0"));
    assert!(name_matches_loop("loop12"));
    assert!(!name_matches_loop("loop"));
    assert!(!name_matches_loop("loop1a"));
    assert!(name_matches_mock("mock0"));
    assert!(name_matches_mock("mockdisk"));
    assert!(!name_matches_mock("moc"));
}

fn partition(name: &str, number: u32, start: u64, size: u64) -> Partition {
    Partition::from_attributes(
        name.to_owned(),
        number,
        start,
        size,
        format!("/sys/class/block/{name}"),
        format!("/dev/{name}"),
    )
    .expect("a valid partition")
}

#[test]
fn partition_from_attributes() {
    let p = partition("sda1", 1, 2048, 2048);
    assert_eq!(p.number, 1);
    assert_eq!(p.start, 2048);
    assert_eq!(p.end, 4096);
    assert_eq!(p.size, 2048);

    // a zero partition number or size cannot form a partition
    assert!(Partition::from_attributes(
        "sda1".to_owned(),
        0,
        0,
        1,
        String::new(),
        String::new()
    )
    .is_none());
    assert!(Partition::from_attributes(
        "sda1".to_owned(),
        1,
        0,
        0,
        String::new(),
        String::new()
    )
    .is_none());
    // an end beyond 64 bits cannot form a partition
    assert!(Partition::from_attributes(
        "sda1".to_owned(),
        1,
        u64::MAX,
        2,
        String::new(),
        String::new()
    )
    .is_none());
}

#[test]
fn basic_disk_construction() {
    let parts = vec![partition("sda1", 1, 2048, 2048), partition("sda2", 2, 4096, 4096)];
    let disk = BasicDisk::from_attributes(
        "sda".to_owned(),
        1000000,
        "/dev/sda".to_owned(),
        Some("Test Model".to_owned()),
        None,
        parts,
    )
    .expect("a valid disk");
    assert_eq!(disk.name(), "sda");
    assert_eq!(disk.sectors(), 1000000);
    assert_eq!(disk.size(), 512000000);
    assert_eq!(disk.device_path(), "/dev/sda");
    assert_eq!(disk.model(), Some("Test Model"));
    assert_eq!(disk.vendor(), None);
    assert_eq!(disk.partitions().len(), 2);
}

#[test]
fn basic_disk_rejects_bad_data() {
    // partitions out of number order are refused
    let parts = vec![partition("sda2", 2, 4096, 4096), partition("sda1", 1, 2048, 2048)];
    assert!(BasicDisk::from_attributes(
        "sda".to_owned(),
        1000000,
        "/dev/sda".to_owned(),
        None,
        None,
        parts
    )
    .is_none());

    // a partition past the end of the disk is refused
    let parts = vec![partition("sda1", 1, 2048, 2048)];
    assert!(BasicDisk::from_attributes(
        "sda".to_owned(),
        1024,
        "/dev/sda".to_owned(),
        None,
        None,
        parts
    )
    .is_none());
}

#[test]
fn disk_classification_order() {
    let make = |name: &str| {
        BasicDisk::from_attributes(
            name.to_owned(),
            1000,
            format!("/dev/{name}"),
            None,
            None,
            Vec::new(),
        )
        .unwrap()
    };
    assert!(matches!(Disk::classify(make("sda")), Some(Disk::Scsi(_))));
    assert!(matches!(Disk::classify(make("nvme0n1")), Some(Disk::Nvme(_))));
    assert!(matches!(Disk::classify(make("mmcblk0")), Some(Disk::Mmc(_))));
    assert!(matches!(Disk::classify(make("vdb")), Some(Disk::Virtual(_))));
    assert!(matches!(Disk::classify(make("mock3")), Some(Disk::Mock(_))));
    assert!(Disk::classify(make("loop0")).is_none());
    assert!(Disk::classify(make("dm-0")).is_none());
}

#[test]
fn loopback_device_model() {
    let dev = Device::from_attributes(
        "loop0".to_owned(),
        "/dev/loop0".to_owned(),
        Some("/tmp/img".to_owned()),
        None,
    )
    .expect("a loop name");
    assert_eq!(dev.name(), "loop0");
    assert_eq!(dev.device_path(), "/dev/loop0");
    assert_eq!(dev.file_path(), Some("/tmp/img"));
    assert!(dev.disk().is_none());

    assert!(Device::from_attributes("sda".to_owned(), String::new(), None, None).is_none());
}

#[test]
fn mock_device_front() {
    let mut disk = MockDisk::new(1024 * 1024 * 1024);
    disk.add_partition(0, 512 * 1024 * 1024);
    let device = BlockDevice::mock_device(disk);
    assert_eq!(device.name(), "mock0");
    assert_eq!(device.device(), "/dev/mock0");
    assert_eq!(device.sectors(), 2 * 1024 * 1024);
    assert_eq!(device.size(), 1024 * 1024 * 1024);
    let parts = device.partitions();
    assert_eq!(parts.len(), 1);
    assert_eq!(parts[0].number, 1);
    assert_eq!(parts[0].start, 0);
    assert_eq!(parts[0].end, 1024 * 1024);
}

#[test]
fn loopback_block_device() {
    let dev = Device::from_attributes("loop1".to_owned(), "/dev/loop1".to_owned(), None, None)
        .unwrap();
    let device = BlockDevice::loopback_device(dev);
    assert_eq!(device.name(), "loop1");
    assert_eq!(device.sectors(), 0);
    assert_eq!(device.partitions().len(), 0);
}
