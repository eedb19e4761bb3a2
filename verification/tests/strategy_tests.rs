//! Strategy behaviour: whole-disk, largest-free and first-fit allocation
//! with fixed and flexible requests.

use provisioning::device::BlockDevice;
use provisioning::mock::MockDisk;
use provisioning::planner::{PlanError, Planner, Region};
use provisioning::strategy::{AllocationStrategy, PartitionRequest, SizeRequirement, Strategy};

const MB: u64 = 1024 * 1024;
const GB: u64 = 1024 * MB;

// Common partition sizes for Linux installations
const EFI_SIZE: u64 = 512 * MB; // Standard EFI partition size
const BOOT_SIZE: u64 = GB; // /boot partition size
const SWAP_MIN: u64 = 4 * GB; // Minimum swap size
const SWAP_MAX: u64 = 8 * GB; // Maximum swap size
const ROOT_MIN: u64 = 20 * GB; // Minimum root partition size
const ROOT_MAX: u64 = 100 * GB; // Maximum root partition size

/// Creates a root partition request that uses remaining space with a minimum size
fn root_partition() -> PartitionRequest {
    PartitionRequest {
        size: SizeRequirement::AtLeast(ROOT_MIN),
    }
}

/// Creates a root partition request capped at 100GB, suitable for layouts with home partition
fn capped_root_partition() -> PartitionRequest {
    PartitionRequest {
        size: SizeRequirement::Range {
            min: ROOT_MIN,
            max: ROOT_MAX,
        },
    }
}

/// Creates a standard EFI system partition request
fn efi_partition() -> PartitionRequest {
    PartitionRequest {
        size: SizeRequirement::Exact(EFI_SIZE),
    }
}

/// Creates a /boot partition request
fn boot_partition() -> PartitionRequest {
    PartitionRequest {
        size: SizeRequirement::Exact(BOOT_SIZE),
    }
}

/// Creates a swap partition request that scales with system RAM
fn swap_partition() -> PartitionRequest {
    PartitionRequest {
        size: SizeRequirement::Range {
            min: SWAP_MIN,
            max: SWAP_MAX,
        },
    }
}

/// Creates a home partition request that uses all remaining space
fn home_partition() -> PartitionRequest {
    PartitionRequest {
        size: SizeRequirement::Remaining,
    }
}

fn create_test_disk() -> MockDisk {
    MockDisk::new(500 * GB)
}

#[test]
fn test_uefi_clean_install() {
    // Test case: Clean UEFI installation with separate /home
    let disk = create_test_disk();
    let mut planner = Planner::new(&BlockDevice::mock_device(disk));
    let mut strategy = Strategy::new(AllocationStrategy::InitializeWholeDisk);

    // Standard UEFI layout with separate /home
    strategy.add_request(efi_partition());
    strategy.add_request(boot_partition());
    strategy.add_request(swap_partition());
    strategy.add_request(capped_root_partition());
    strategy.add_request(home_partition());

    assert!(strategy.apply(&mut planner).is_ok());

    let layout = planner.current_layout();
    assert_eq!(layout.len(), 5);
    // Verify partition order and basic size requirements
    assert!(layout[0].size() >= EFI_SIZE);
    assert!(layout[1].size() >= BOOT_SIZE);
    assert!(layout[2].size() >= SWAP_MIN);
    assert!(layout[3].size() >= ROOT_MIN);

    // no overlaps, and the final region ends within the disk
    for i in 0..layout.len() {
        for j in 0..layout.len() {
            if i != j {
                assert!(!layout[i].overlaps_with(&layout[j]));
            }
        }
    }
    assert!(layout[4].end <= 500 * GB);
}

#[test]
fn test_dual_boot_install() {
    // Test case: Installation alongside existing Windows
    let mut disk = create_test_disk();

    // Simulate existing Windows layout:
    // 100MB EFI + 16MB MSR + 200GB Windows + Free Space
    disk.add_partition(0, 100 * MB); // EFI
    disk.add_partition(100 * MB, 116 * MB); // MSR
    disk.add_partition(116 * MB, 200 * GB); // Windows

    let mut planner = Planner::new(&BlockDevice::mock_device(disk));
    let mut strategy = Strategy::new(AllocationStrategy::LargestFree);

    // Standard Linux layout using remaining space
    strategy.add_request(swap_partition());
    strategy.add_request(root_partition());

    assert!(strategy.apply(&mut planner).is_ok());

    let layout = planner.current_layout();
    assert_eq!(layout.len(), 5); // 3 Windows + 2 Linux partitions
}

#[test]
fn test_minimal_server_install() {
    // Test case: Minimal server installation with single root partition
    let disk = create_test_disk();
    let mut planner = Planner::new(&BlockDevice::mock_device(disk));
    let mut strategy = Strategy::new(AllocationStrategy::InitializeWholeDisk);

    // Simple layout - just boot and root
    strategy.add_request(boot_partition());
    strategy.add_request(PartitionRequest {
        size: SizeRequirement::Remaining,
    });

    assert!(strategy.apply(&mut planner).is_ok());

    let layout = planner.current_layout();
    assert_eq!(layout.len(), 2);
}

#[test]
fn whole_disk_uefi_layout_fills_disk() {
    // a full UEFI layout: the windows stay fixed, the home partition takes
    // the division leftover, and the last region ends at the window's end
    let disk = create_test_disk();
    let mut planner = Planner::new(&BlockDevice::mock_device(disk));
    let mut strategy = Strategy::new(AllocationStrategy::InitializeWholeDisk);
    strategy.add_request(efi_partition());
    strategy.add_request(boot_partition());
    strategy.add_request(swap_partition());
    strategy.add_request(capped_root_partition());
    strategy.add_request(home_partition());
    assert!(strategy.apply(&mut planner).is_ok());

    let layout = planner.current_layout();
    assert_eq!(layout.len(), 5);
    assert_eq!(layout[0].size(), EFI_SIZE);
    assert_eq!(layout[1].size(), BOOT_SIZE);
    assert_eq!(layout[2].size(), SWAP_MAX); // clipped to its maximum
    assert_eq!(layout[3].size(), ROOT_MAX); // clipped to its maximum
    assert_eq!(layout[4].end, 500 * GB); // leftover went to the last one
}

#[test]
fn dual_boot_new_partitions_after_windows() {
    // the two new partitions land strictly after the Windows regions
    let mut disk = create_test_disk();
    disk.add_partition(0, 100 * MB);
    disk.add_partition(100 * MB, 116 * MB);
    disk.add_partition(116 * MB, 200 * GB + 116 * MB);
    disk.add_partition(200 * GB + 116 * MB, 200 * GB + 616 * MB);

    let mut planner = Planner::new(&BlockDevice::mock_device(disk));
    let mut strategy = Strategy::new(AllocationStrategy::LargestFree);
    strategy.add_request(swap_partition());
    strategy.add_request(PartitionRequest {
        size: SizeRequirement::Remaining,
    });
    assert!(strategy.apply(&mut planner).is_ok());

    let layout = planner.current_layout();
    assert_eq!(layout.len(), 6);
    // the original four regions are unchanged
    assert_eq!(layout[0].start, 0);
    assert_eq!(layout[0].end, 100 * MB);
    assert_eq!(layout[3].end, 200 * GB + 616 * MB);
    // the new ones lie strictly after the last Windows byte
    assert!(layout[4].start >= 200 * GB + 616 * MB);
    assert!(layout[5].start >= 200 * GB + 616 * MB);
}

#[test]
fn applying_twice_gives_identical_layouts() {
    // two planners in the same state end in the same layout
    let build = || {
        let disk = create_test_disk();
        Planner::new(&BlockDevice::mock_device(disk))
    };
    let mut a = build();
    let mut b = build();
    let mut strategy = Strategy::new(AllocationStrategy::InitializeWholeDisk);
    strategy.add_request(efi_partition());
    strategy.add_request(swap_partition());
    strategy.add_request(home_partition());

    assert!(strategy.apply(&mut a).is_ok());
    assert!(strategy.apply(&mut b).is_ok());

    let la = a.current_layout();
    let lb = b.current_layout();
    assert_eq!(la.len(), lb.len());
    for i in 0..la.len() {
        assert_eq!(la[i].start, lb[i].start);
        assert_eq!(la[i].end, lb[i].end);
    }
}

#[test]
fn add_then_undo_is_a_no_op() {
    let disk = create_test_disk();
    let mut planner = Planner::new(&BlockDevice::mock_device(disk));
    assert!(planner.plan_add_partition(0, GB).is_ok());
    let before = planner.current_layout();
    assert!(planner.plan_add_partition(GB, 2 * GB).is_ok());
    assert!(planner.undo());
    let after = planner.current_layout();
    assert_eq!(before.len(), after.len());
    for i in 0..before.len() {
        assert_eq!(before[i].start, after[i].start);
        assert_eq!(before[i].end, after[i].end);
    }
}

#[test]
fn first_fit_uses_earliest_gap() {
    let mut disk = create_test_disk();
    // leave a 10GB gap at the front and the rest at the back
    disk.add_partition(10 * GB, 400 * GB);

    let mut planner = Planner::new(&BlockDevice::mock_device(disk));
    let mut strategy = Strategy::new(AllocationStrategy::FirstFit);
    strategy.add_request(PartitionRequest {
        size: SizeRequirement::Exact(2 * GB),
    });
    assert!(strategy.apply(&mut planner).is_ok());
    let layout = planner.current_layout();
    assert_eq!(layout.len(), 2);
    // planned inside the first gap, before the existing partition
    assert_eq!(layout[1].start, 0);
    assert_eq!(layout[1].end, 2 * GB);
}

#[test]
fn specific_region_is_used_verbatim() {
    let disk = create_test_disk();
    let mut planner = Planner::new(&BlockDevice::mock_device(disk));
    let mut strategy = Strategy::new(AllocationStrategy::SpecificRegion(Region::new(
        10 * GB,
        20 * GB,
    )));
    strategy.add_request(PartitionRequest {
        size: SizeRequirement::Exact(4 * GB),
    });
    assert!(strategy.apply(&mut planner).is_ok());
    let layout = planner.current_layout();
    assert_eq!(layout.len(), 1);
    assert_eq!(layout[0].start, 10 * GB);
    assert_eq!(layout[0].end, 14 * GB);
}

#[test]
fn infeasible_minimums_fail_without_free_space_error() {
    // minimum sizes beyond the window fail with an out-of-bounds error
    let disk = MockDisk::new(10 * GB);
    let mut planner = Planner::new(&BlockDevice::mock_device(disk));
    let mut strategy = Strategy::new(AllocationStrategy::InitializeWholeDisk);
    strategy.add_request(PartitionRequest {
        size: SizeRequirement::Exact(20 * GB),
    });
    assert!(matches!(
        strategy.apply(&mut planner),
        Err(PlanError::RegionOutOfBounds { .. })
    ));
}

#[test]
fn full_disk_has_no_free_regions() {
    let mut disk = create_test_disk();
    disk.add_partition(0, 500 * GB);
    let mut planner = Planner::new(&BlockDevice::mock_device(disk));
    let mut strategy = Strategy::new(AllocationStrategy::LargestFree);
    strategy.add_request(PartitionRequest {
        size: SizeRequirement::Remaining,
    });
    assert!(matches!(
        strategy.apply(&mut planner),
        Err(PlanError::NoFreeRegions)
    ));
}
