//! Human-readable rendering: sizes, positions, change and strategy
//! descriptions, and FAT boot-sector fields.

use provisioning::device::BlockDevice;
use provisioning::fat::{Fat, FatType};
use provisioning::mock::MockDisk;
use provisioning::planner::{format_position, format_size, Planner, Region};
use provisioning::strategy::{AllocationStrategy, PartitionRequest, SizeRequirement, Strategy};

const MB: u64 = 1024 * 1024;
const GB: u64 = 1024 * MB;

#[test]
fn sizes_render_with_binary_units() {
    assert_eq!(format_size(0), "0B");
    assert_eq!(format_size(512), "512B");
    assert_eq!(format_size(1024), "1.0KiB");
    assert_eq!(format_size(1500), "1.5KiB");
    assert_eq!(format_size(1500000), "1.4MiB");
    assert_eq!(format_size(512 * MB), "512.0MiB");
    assert_eq!(format_size(8 * GB), "8.0GiB");
    assert_eq!(format_size(1024 * GB + 512 * GB), "1.5TiB");
}

#[test]
fn positions_render_as_percentages() {
    assert_eq!(format_position(500, 1000), "50% (500B)");
    assert_eq!(format_position(0, 0), "0% (0B)");
    assert_eq!(format_position(250 * GB, 500 * GB), "50% (250.0GiB)");
}

#[test]
fn regions_render_with_bounds() {
    let r = Region::new(0, GB);
    assert_eq!(r.size(), GB);
    assert_eq!(r.describe(500 * GB), "1.0GiB at 0% (0B)..0% (1.0GiB)");
}

#[test]
fn pending_changes_render_numbered() {
    let disk = MockDisk::new(500 * GB);
    let mut planner = Planner::new(&BlockDevice::mock_device(disk));
    assert_eq!(planner.describe_changes(), "No pending changes");

    assert!(planner.plan_add_partition(0, GB).is_ok());
    let text = planner.describe_changes();
    assert!(text.starts_with("Pending changes:\n"));
    assert!(text.contains("  1: Add new partition: 1.0GiB"));
}

#[test]
fn delete_changes_render_one_based() {
    let mut disk = MockDisk::new(500 * GB);
    disk.add_partition(0, GB);
    let mut planner = Planner::new(&BlockDevice::mock_device(disk));
    assert!(planner.plan_delete_partition(0).is_ok());
    let text = planner.describe_changes();
    assert!(text.contains("  1: Delete partition #1"));
}

#[test]
fn strategies_render_policy_and_requests() {
    let mut strategy = Strategy::new(AllocationStrategy::InitializeWholeDisk);
    assert_eq!(
        strategy.describe(),
        "Initialize new partition layout on entire disk"
    );
    strategy.add_request(PartitionRequest {
        size: SizeRequirement::Exact(512 * MB),
    });
    strategy.add_request(PartitionRequest {
        size: SizeRequirement::Range { min: 4 * GB, max: 8 * GB },
    });
    strategy.add_request(PartitionRequest {
        size: SizeRequirement::AtLeast(20 * GB),
    });
    strategy.add_request(PartitionRequest {
        size: SizeRequirement::Remaining,
    });
    let text = strategy.describe();
    assert!(text.starts_with("Initialize new partition layout on entire disk\nRequested partitions:\n"));
    assert!(text.contains("  1: exactly 512.0MiB\n"));
    assert!(text.contains("  2: between 4.0GiB and 8.0GiB\n"));
    assert!(text.contains("  3: at least 20.0GiB\n"));
    assert!(text.contains("  4: remaining space\n"));

    assert_eq!(
        Strategy::new(AllocationStrategy::LargestFree).describe(),
        "Use largest free region"
    );
    assert_eq!(
        Strategy::new(AllocationStrategy::FirstFit).describe(),
        "Use first available region"
    );
}

fn fat_sector(fat16: bool) -> Vec<u8> {
    let mut img = vec![0u8; 512];
    img[510] = 0x55;
    img[511] = 0xAA;
    if fat16 {
        img[22..24].copy_from_slice(&32u16.to_le_bytes()); // fat_length
        img[39..43].copy_from_slice(&0xABCD1234u32.to_le_bytes()); // volume id
        img[43..54].copy_from_slice(b"BOOTDATA   ");
    } else {
        img[36..40].copy_from_slice(&64u32.to_le_bytes()); // fat32_length
        img[67..71].copy_from_slice(&0x00FF00FFu32.to_le_bytes()); // volume id
        img[71..82].copy_from_slice(b"ESP        ");
    }
    img
}

#[test]
fn fat16_fields() {
    let img = fat_sector(true);
    let fat = Fat::detect(&img).unwrap().unwrap();
    assert_eq!(fat.fat_type(), FatType::Fat16);
    assert_eq!(fat.uuid().unwrap(), "ABCD-1234");
    assert_eq!(fat.label().unwrap(), "BOOTDATA");
}

#[test]
fn fat32_fields() {
    let img = fat_sector(false);
    let fat = Fat::detect(&img).unwrap().unwrap();
    assert_eq!(fat.fat_type(), FatType::Fat32);
    assert_eq!(fat.uuid().unwrap(), "00FF-00FF");
    assert_eq!(fat.label().unwrap(), "ESP");
}

#[test]
fn fat_detection_edges() {
    // no boot magic: not a FAT sector
    let img = vec![0u8; 512];
    assert!(Fat::detect(&img).unwrap().is_none());
    // too short to probe
    let img = vec![0u8; 100];
    assert!(Fat::detect(&img).is_err());
}
