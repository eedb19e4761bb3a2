//! Mock disk device for planning and testing without hardware.

use vstd::prelude::*;

use crate::disk::{BasicDisk, MAX_SECTORS};
use crate::partition::Partition;
use crate::planner::PARTITION_ALIGNMENT;

verus! {

/// Represents a synthetic disk device backed by no hardware at all.
#[derive(Debug)]
pub struct MockDisk(pub BasicDisk);

impl MockDisk {
    /// A mock disk is well-formed when its record is, its partitions are
    /// mutually disjoint, and partition numbers are exactly `1..=n` in
    /// order (which [`MockDisk::add_partition`] maintains).
    pub open spec fn wf(self) -> bool {
        &&& self.0.wf()
        &&& self.0.partitions_disjoint()
        &&& forall|i: int|
            0 <= i < self.0.partitions@.len() ==> (#[trigger] self.0.partitions@[i]).number == i
                + 1
    }

    /// Creates a new mock disk with the specified size in bytes.
    pub fn new(size_bytes: u64) -> (r: MockDisk)
        requires
            size_bytes <= u64::MAX - PARTITION_ALIGNMENT,
        ensures
            r.wf(),
            r.0.name@ == "mock0"@,
            r.0.device@ == "/dev/mock0"@,
            r.0.model matches Some(m) && m@ == "Mock Device"@,
            r.0.vendor matches Some(v) && v@ == "Mock Vendor"@,
            r.0.sectors == size_bytes / 512,
            r.0.partitions@.len() == 0,
    {
        let sectors = size_bytes / 512;
        proof {
            assert((u64::MAX - PARTITION_ALIGNMENT) / 512 == MAX_SECTORS);
            assert(size_bytes / 512 <= (u64::MAX - PARTITION_ALIGNMENT) / 512) by (nonlinear_arith)
                requires
                    size_bytes <= u64::MAX - PARTITION_ALIGNMENT,
            ;
        }
        let disk = BasicDisk {
            name: "mock0".to_owned(),
            sectors,
            device: "/dev/mock0".to_owned(),
            model: Some("Mock Device".to_owned()),
            vendor: Some("Mock Vendor".to_owned()),
            partitions: Vec::new(),
        };
        MockDisk(disk)
    }

    /// Add a partition to the mock disk at the specified byte offsets.
    /// The region, rounded down to whole sectors, must be non-empty, lie
    /// within the disk, and not touch any existing partition.
    pub fn add_partition(&mut self, start_bytes: u64, end_bytes: u64)
        requires
            old(self).wf(),
            start_bytes / 512 < end_bytes / 512,
            end_bytes / 512 <= old(self).0.sectors,
            old(self).0.partitions@.len() + 1 <= u32::MAX,
            forall|i: int|
                0 <= i < old(self).0.partitions@.len() ==> ((#[trigger] old(
                    self,
                ).0.partitions@[i]).end <= start_bytes / 512 || end_bytes / 512 <= old(
                    self,
                ).0.partitions@[i].start),
        ensures
            final(self).wf(),
            final(self).0.name == old(self).0.name,
            final(self).0.sectors == old(self).0.sectors,
            final(self).0.device == old(self).0.device,
            final(self).0.partitions@.len() == old(self).0.partitions@.len() + 1,
            final(self).0.partitions@.drop_last() == old(self).0.partitions@,
            final(self).0.partitions@.last().start == start_bytes / 512,
            final(self).0.partitions@.last().end == end_bytes / 512,
    {
        let number = self.0.partitions.len() + 1;
        let start = start_bytes / 512;
        let end = end_bytes / 512;
        let name = "mock partition".to_owned();
        let node = "/sys/class/block/mock0".to_owned();
        let device = "/dev/mock0".to_owned();
        let partition = Partition {
            number: number as u32,
            start,
            end,
            size: end - start,
            name,
            node,
            device,
        };
        self.0.partitions.push(partition);
        proof {
            assert(self.0.partitions@.drop_last() =~= old(self).0.partitions@);
        }
    }
}

impl Clone for MockDisk {
    /// Cloning a mock disk keeps every field's value.
    fn clone(&self) -> (res: Self)
        ensures
            res.0.equiv(self.0),
    {
        MockDisk(self.0.clone())
    }
}

} // verus!
