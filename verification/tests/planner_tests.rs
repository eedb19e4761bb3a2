//! Planner behaviour: layout building, validation, undo and alignment.

use provisioning::device::BlockDevice;
use provisioning::mock::MockDisk;
use provisioning::planner::{align_down, align_up, PlanError, Planner, PARTITION_ALIGNMENT};

const MB: u64 = 1024 * 1024;
const GB: u64 = 1024 * MB;

/// Creates a mock disk with a typical size of 500GB
fn create_mock_disk() -> MockDisk {
    MockDisk::new(500 * GB)
}

/// Creates a mock disk with an existing Windows installation
/// Layout:
/// - EFI System Partition (ESP): 100MB
/// - Microsoft Reserved: 16MB
/// - Windows C: Drive: 200GB
/// - Recovery: 500MB
fn create_windows_disk() -> MockDisk {
    let mut disk = MockDisk::new(500 * GB);
    // All positions are absolute start/end, not sizes
    disk.add_partition(0, 100 * MB); // ESP: 0 -> 100MB
    disk.add_partition(100 * MB, 116 * MB); // MSR: 100MB -> 116MB
    disk.add_partition(116 * MB, 200 * GB + 116 * MB); // Windows: 116MB -> 200.116GB
    disk.add_partition(200 * GB + 116 * MB, 200 * GB + 616 * MB); // Recovery
    disk
}

#[test]
fn test_fresh_installation() {
    let disk = create_mock_disk();
    let mut planner = Planner::new(&BlockDevice::mock_device(disk));

    // Create typical Linux partition layout with absolute positions
    // - 0 -> 512MB: EFI System Partition
    // - 512MB -> 4.5GB: Swap
    // - 4.5GB -> 500GB: Root
    assert!(planner.plan_add_partition(0, 512 * MB).is_ok());
    assert!(planner.plan_add_partition(512 * MB, 4 * GB + 512 * MB).is_ok());
    assert!(planner.plan_add_partition(4 * GB + 512 * MB, 500 * GB).is_ok());

    let layout = planner.current_layout();
    assert_eq!(layout.len(), 3);
    assert_eq!(layout[0].size(), 512 * MB);
    assert_eq!(layout[1].size(), 4 * GB);
}

#[test]
fn test_dual_boot_with_windows() {
    let disk = create_windows_disk();
    let mut planner = Planner::new(&BlockDevice::mock_device(disk));

    // Available space starts after Windows partitions (~ 200.6GB)
    let start = 200 * GB + 616 * MB;

    // Create Linux partitions in remaining space
    // - 4GB swap
    // - Rest for root
    assert!(planner.plan_add_partition(start, start + 4 * GB).is_ok());
    assert!(planner.plan_add_partition(start + 4 * GB, 500 * GB).is_ok());

    let layout = planner.current_layout();
    assert_eq!(layout.len(), 6); // 4 Windows + 2 Linux partitions
}

#[test]
fn test_replace_linux() {
    let mut disk = create_mock_disk();
    // Simulate existing Linux installation
    // All positions are absolute start/end
    disk.add_partition(0, 512 * MB); // ESP: 0 -> 512MB
    disk.add_partition(512 * MB, 4 * GB + 512 * MB); // Swap: 512MB -> 4.5GB
    disk.add_partition(4 * GB + 512 * MB, 500 * GB); // Root: 4.5GB -> 500GB

    let mut planner = Planner::new(&BlockDevice::mock_device(disk));

    // Delete old Linux partitions
    assert!(planner.plan_delete_partition(1).is_ok()); // Delete swap
    assert!(planner.plan_delete_partition(2).is_ok()); // Delete root

    // Create new layout (keeping ESP)
    // - 8GB swap (larger than before)
    // - Rest for root
    assert!(planner.plan_add_partition(512 * MB, 8 * GB + 512 * MB).is_ok());
    assert!(planner.plan_add_partition(8 * GB + 512 * MB, 500 * GB).is_ok());

    let layout = planner.current_layout();
    assert_eq!(layout.len(), 3);
    assert_eq!(layout[1].size(), 8 * GB);
}

#[test]
fn test_region_validation() {
    let disk = create_mock_disk();
    let mut planner = Planner::new(&BlockDevice::mock_device(disk));

    // Test out of bounds
    assert!(matches!(
        planner.plan_add_partition(0, 600 * GB),
        Err(PlanError::RegionOutOfBounds { .. })
    ));

    // Add a partition and test overlap
    assert!(planner.plan_add_partition(0, 100 * GB).is_ok());
    assert!(matches!(
        planner.plan_add_partition(50 * GB, 150 * GB),
        Err(PlanError::RegionOverlap { .. })
    ));
}

#[test]
fn test_undo_operations() {
    let disk = create_mock_disk();
    let mut planner = Planner::new(&BlockDevice::mock_device(disk));

    // Add some partitions
    assert!(planner.plan_add_partition(0, 100 * GB).is_ok());
    assert!(planner.plan_add_partition(100 * GB, 200 * GB).is_ok());
    assert_eq!(planner.current_layout().len(), 2);

    // Undo last addition
    assert!(planner.undo());
    assert_eq!(planner.current_layout().len(), 1);

    // Undo first addition
    assert!(planner.undo());
    assert_eq!(planner.current_layout().len(), 0);

    // Verify no more changes to undo
    assert!(!planner.undo());
}

#[test]
fn test_partition_boundaries() {
    let disk = create_mock_disk();
    let mut planner = Planner::new(&BlockDevice::mock_device(disk));

    // Add first partition from 0 to 100GB
    assert!(planner.plan_add_partition(0, 100 * GB).is_ok());

    // Next partition should be able to start exactly where previous one ended
    assert!(planner.plan_add_partition(100 * GB, 200 * GB).is_ok());

    // Verify partitions are properly adjacent
    let layout = planner.current_layout();
    assert_eq!(layout.len(), 2);
    assert_eq!(layout[0].end, layout[1].start);

    // Attempting to create partition overlapping either boundary should fail
    assert!(matches!(
        planner.plan_add_partition(99 * GB, 150 * GB),
        Err(PlanError::RegionOverlap { .. })
    ));
    assert!(matches!(
        planner.plan_add_partition(150 * GB, 201 * GB),
        Err(PlanError::RegionOverlap { .. })
    ));
}

#[test]
fn test_alignment() {
    let disk = create_mock_disk();
    let mut planner = Planner::new(&BlockDevice::mock_device(disk));

    // Already aligned values should not be re-aligned
    let aligned_start = PARTITION_ALIGNMENT;
    let aligned_end = 2 * PARTITION_ALIGNMENT;
    assert!(planner.plan_add_partition(aligned_start, aligned_end).is_ok());

    // Test that non-aligned values get properly aligned
    let unaligned_start = (2 * PARTITION_ALIGNMENT) + 100;
    let unaligned_end = (3 * PARTITION_ALIGNMENT) - 100;
    assert!(planner.plan_add_partition(unaligned_start, unaligned_end).is_ok());

    let layout = planner.current_layout();
    assert_eq!(layout[0].start, aligned_start);
    assert_eq!(layout[0].end, aligned_end);

    assert_eq!(layout[1].start, 2 * PARTITION_ALIGNMENT); // Aligned up
    assert_eq!(layout[1].end, 3 * PARTITION_ALIGNMENT); // Aligned down
}

#[test]
fn test_alignment_functions() {
    let mb = 1024 * 1024;
    let kb = 1024;

    // Test align_up
    assert_eq!(align_up(2 * mb + 100, mb), 2 * mb);
    assert_eq!(align_up(2 * mb, mb), 2 * mb); // Already aligned

    // Test align_up past boundary
    assert_eq!(align_up(2 * mb + (600 * kb), mb), 3 * mb);

    // Test align_down
    assert_eq!(align_down(4 * mb - 100, mb), 4 * mb);
    assert_eq!(align_down(4 * mb, mb), 4 * mb); // Already aligned

    // Test align_down past boundary
    assert_eq!(align_down(4 * mb + (600 * kb), mb), 5 * mb);
}

#[test]
fn alignment_coercion_then_overlap() {
    // an unaligned request is stored aligned, and the aligned region then
    // blocks the equivalent aligned request
    let disk = create_mock_disk();
    let mut planner = Planner::new(&BlockDevice::mock_device(disk));

    assert!(planner.plan_add_partition(2 * MB + 100, 3 * MB - 100).is_ok());
    let layout = planner.current_layout();
    assert_eq!(layout.len(), 1);
    assert_eq!(layout[0].start, 2 * MB);
    assert_eq!(layout[0].end, 3 * MB);

    assert!(matches!(
        planner.plan_add_partition(2 * MB, 3 * MB),
        Err(PlanError::RegionOverlap { .. })
    ));
}

#[test]
fn zero_size_after_alignment_rejected() {
    let disk = create_mock_disk();
    let mut planner = Planner::new(&BlockDevice::mock_device(disk));

    // collapses to an empty region once both ends land on the same boundary
    assert!(matches!(
        planner.plan_add_partition(4 * MB + 1, 4 * MB + 2),
        Err(PlanError::RegionOutOfBounds { .. })
    ));
}

#[test]
fn aligned_input_is_not_moved() {
    let disk = create_mock_disk();
    let mut planner = Planner::new(&BlockDevice::mock_device(disk))
        .with_start_offset(2 * MB);

    // an aligned start below the window start would have to move: rejected
    assert!(matches!(
        planner.plan_add_partition(MB, 10 * MB),
        Err(PlanError::RegionOutOfBounds { .. })
    ));

    // an aligned start inside the window is stored untouched
    assert!(planner.plan_add_partition(4 * MB, 10 * MB).is_ok());
    let layout = planner.current_layout();
    assert_eq!(layout[0].start, 4 * MB);
    assert_eq!(layout[0].end, 10 * MB);
}

#[test]
fn delete_then_add_is_a_single_add() {
    let mut disk = create_mock_disk();
    disk.add_partition(0, GB);
    disk.add_partition(GB, 2 * GB);
    let mut planner = Planner::new(&BlockDevice::mock_device(disk));

    // deleting an index and re-adding a disjoint region leaves exactly
    // the other original plus the new region
    assert!(planner.plan_delete_partition(1).is_ok());
    assert!(planner.plan_add_partition(10 * GB, 12 * GB).is_ok());
    let layout = planner.current_layout();
    assert_eq!(layout.len(), 2);
    assert_eq!(layout[0].start, 0);
    assert_eq!(layout[0].end, GB);
    assert_eq!(layout[1].start, 10 * GB);
    assert_eq!(layout[1].end, 12 * GB);
}

#[test]
fn planner_accessors() {
    let disk = create_mock_disk();
    let mut planner = Planner::new(&BlockDevice::mock_device(disk));
    assert_eq!(planner.offsets(), (0, 500 * GB));
    assert_eq!(planner.usable_size(), 500 * GB);
    assert!(!planner.has_changes());
    assert!(planner.plan_add_partition(0, GB).is_ok());
    assert!(planner.has_changes());
    assert_eq!(planner.changes().len(), 1);
    planner.reset();
    assert!(!planner.has_changes());

    assert!(planner.plan_add_partition(0, GB).is_ok());
    assert!(planner.plan_initialize_disk().is_ok());
    assert!(!planner.has_changes());
    assert_eq!(planner.current_layout().len(), 0);
}

#[test]
fn out_of_range_delete_fails() {
    let disk = create_mock_disk();
    let mut planner = Planner::new(&BlockDevice::mock_device(disk));
    assert!(matches!(
        planner.plan_delete_partition(0),
        Err(PlanError::RegionOutOfBounds { .. })
    ));
}
