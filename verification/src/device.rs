//! A block device: either a typed disk or a loopback device.

use vstd::prelude::*;

use crate::disk::{BasicDisk, Disk, MAX_SECTORS, SECTOR_SIZE};
use crate::loopback;
use crate::mock::MockDisk;
use crate::partition::Partition;

verus! {

/// A block device on the system: a physical (or synthetic) disk, or a
/// loopback device.
#[derive(Debug)]
pub enum BlockDevice {
    /// A disk device.
    Disk(Box<Disk>),
    /// A loopback device.
    Loopback(Box<loopback::Device>),
}

impl BlockDevice {
    /// The partitions the device exposes; a loopback device without a
    /// backing disk exposes none.
    pub open spec fn spec_partitions(self) -> Seq<Partition> {
        match self {
            BlockDevice::Disk(d) => d.spec_basic().partitions@,
            BlockDevice::Loopback(d) => match d.disk {
                Some(b) => b.partitions@,
                None => Seq::empty(),
            },
        }
    }

    /// The sector count the device reports; a loopback device without a
    /// backing disk reports zero.
    pub open spec fn spec_sectors(self) -> u64 {
        match self {
            BlockDevice::Disk(d) => d.spec_basic().sectors,
            BlockDevice::Loopback(d) => match d.disk {
                Some(b) => b.sectors,
                None => 0,
            },
        }
    }

    /// The device size in bytes.
    pub open spec fn spec_size(self) -> int {
        self.spec_sectors() * SECTOR_SIZE
    }

    pub open spec fn wf(self) -> bool {
        match self {
            BlockDevice::Disk(d) => d.wf(),
            BlockDevice::Loopback(d) => d.wf(),
        }
    }

    /// No two of the device's partitions share a sector. This is what a
    /// planner needs of its seed device.
    pub open spec fn spec_partitions_disjoint(self) -> bool {
        forall|i: int, j: int|
            0 <= i < j < self.spec_partitions().len() ==> ((#[trigger] self.spec_partitions()[i]).end
                <= (#[trigger] self.spec_partitions()[j]).start || self.spec_partitions()[j].end
                <= self.spec_partitions()[i].start)
    }

    /// Two block devices are equivalent when they are of the same kind
    /// and every field holds the same value.
    pub open spec fn equiv(self, o: BlockDevice) -> bool {
        match (self, o) {
            (BlockDevice::Disk(a), BlockDevice::Disk(b)) => {
                &&& a.spec_basic().equiv(b.spec_basic())
                &&& (*a is Scsi <==> *b is Scsi)
                &&& (*a is Mmc <==> *b is Mmc)
                &&& (*a is Nvme <==> *b is Nvme)
                &&& (*a is Virtual <==> *b is Virtual)
                &&& (*a is Mock <==> *b is Mock)
            },
            (BlockDevice::Loopback(a), BlockDevice::Loopback(b)) => a.equiv(*b),
            _ => false,
        }
    }

    /// Returns the total number of sectors on the block device.
    pub fn sectors(&self) -> (r: u64)
        ensures
            r == self.spec_sectors(),
    {
        match self {
            BlockDevice::Disk(disk) => disk.basic().sectors(),
            BlockDevice::Loopback(device) => match device.disk() {
                Some(d) => d.sectors(),
                None => 0,
            },
        }
    }

    /// Returns the total size of the block device in bytes.
    pub fn size(&self) -> (r: u64)
        requires
            self.wf(),
        ensures
            r == self.spec_size(),
    {
        proof {
            assert(self.spec_sectors() * 512 <= MAX_SECTORS * 512) by (nonlinear_arith)
                requires
                    self.spec_sectors() <= MAX_SECTORS,
            ;
        }
        self.sectors() * SECTOR_SIZE
    }

    /// Returns the partitions on the block device, in partition-number
    /// order.
    pub fn partitions(&self) -> (r: Vec<Partition>)
        ensures
            r@ == self.spec_partitions(),
    {
        match self {
            BlockDevice::Disk(disk) => disk.basic().partitions().clone(),
            BlockDevice::Loopback(device) => match device.disk() {
                Some(d) => d.partitions().clone(),
                None => Vec::new(),
            },
        }
    }

    /// Creates a block device from a mock disk.
    pub fn mock_device(disk: MockDisk) -> (r: BlockDevice)
        requires
            disk.wf(),
            disk.0.name@ == "mock0"@,
        ensures
            r == BlockDevice::Disk(Box::new(Disk::Mock(disk.0))),
            r.wf(),
            r.spec_partitions_disjoint(),
            r.spec_sectors() == disk.0.sectors,
            r.spec_partitions() == disk.0.partitions@,
    {
        proof {
            reveal_strlit("mock0");
            reveal_strlit("mock");
            assert(disk.0.name@.take(4) =~= "mock"@);
        }
        BlockDevice::Disk(Box::new(Disk::Mock(disk.0)))
    }

    /// Creates a loopback block device.
    pub fn loopback_device(device: loopback::Device) -> (r: BlockDevice)
        ensures
            r == BlockDevice::Loopback(Box::new(device)),
    {
        BlockDevice::Loopback(Box::new(device))
    }

    /// Returns the name of the block device.
    pub fn name(&self) -> (r: &str)
        ensures
            r@ == match self {
                BlockDevice::Disk(d) => d.spec_basic().name@,
                BlockDevice::Loopback(d) => d.name@,
            },
    {
        match self {
            BlockDevice::Disk(disk) => disk.basic().name(),
            BlockDevice::Loopback(device) => device.name(),
        }
    }

    /// Returns the path to the block device under the device directory.
    pub fn device(&self) -> (r: &str)
        ensures
            r@ == match self {
                BlockDevice::Disk(d) => d.spec_basic().device@,
                BlockDevice::Loopback(d) => d.device@,
            },
    {
        match self {
            BlockDevice::Disk(disk) => disk.basic().device_path(),
            BlockDevice::Loopback(device) => device.device_path(),
        }
    }

    /// Classify a named disk record as a block device, trying the disk
    /// families in discovery order. Loopback devices carry attributes a
    /// bare disk record does not, so they are built separately through
    /// [`loopback::Device::from_attributes`]. Returns `None` when the
    /// name matches no disk family.
    pub fn classify(disk: BasicDisk) -> (r: Option<BlockDevice>)
        requires
            disk.wf(),
        ensures
            r matches Some(d) ==> d.wf(),
            r matches Some(d) ==> (d matches BlockDevice::Disk(inner) && inner.spec_basic()
                == disk),
            r is Some <==> (crate::disk::is_scsi_name(disk.name@) || crate::disk::is_nvme_name(
                disk.name@,
            ) || crate::disk::is_mmc_name(disk.name@) || crate::disk::is_virtio_name(disk.name@)
                || crate::disk::is_mock_name(disk.name@)),
    {
        match Disk::classify(disk) {
            Some(d) => Some(BlockDevice::Disk(Box::new(d))),
            None => None,
        }
    }
}

impl Clone for BlockDevice {
    /// Cloning a block device keeps its kind and every field's value.
    fn clone(&self) -> (res: Self)
        ensures
            res.equiv(*self),
    {
        match self {
            BlockDevice::Disk(d) => BlockDevice::Disk(Box::new((**d).clone())),
            BlockDevice::Loopback(d) => BlockDevice::Loopback(Box::new((**d).clone())),
        }
    }
}

} // verus!
