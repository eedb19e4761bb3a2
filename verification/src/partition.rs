//! A single partition of a block device, as read from the kernel's
//! per-partition attributes. All geometry is in 512-byte sectors.

use vstd::prelude::*;

verus! {

/// Represents a partition on a disk device.
#[derive(Debug)]
pub struct Partition {
    /// Name of the partition (e.g. `sda1`).
    pub name: String,
    /// Partition number on the disk, 1-based.
    pub number: u32,
    /// Starting sector of the partition.
    pub start: u64,
    /// Ending sector of the partition (exclusive).
    pub end: u64,
    /// Size of partition in sectors.
    pub size: u64,
    /// Path to the partition node in sysfs.
    pub node: String,
    /// Path to the partition device under the device directory.
    pub device: String,
}

impl Partition {
    /// A partition is internally consistent when its end is its start plus
    /// its size, it is non-empty, and its number is 1-based.
    pub open spec fn consistent(self) -> bool {
        &&& self.end == self.start + self.size
        &&& self.start < self.end
        &&& self.number >= 1
    }

    /// A partition fits a disk of `sectors` sectors when it is consistent
    /// and ends within the disk.
    pub open spec fn fits(self, sectors: u64) -> bool {
        self.consistent() && self.end <= sectors
    }

    /// Build a partition from the three per-partition attributes
    /// (`partition`, `start`, `size`) plus its names and paths.
    ///
    /// Returns `None` exactly when the attributes cannot describe a
    /// partition: a zero partition number, a zero size, or an end position
    /// that does not fit in a 64-bit sector count.
    pub fn from_attributes(
        name: String,
        number: u32,
        start: u64,
        size: u64,
        node: String,
        device: String,
    ) -> (r: Option<Partition>)
        ensures
            r is Some <==> (number >= 1 && size >= 1 && start + size <= u64::MAX),
            r matches Some(p) ==> {
                &&& p.name == name
                &&& p.number == number
                &&& p.start == start
                &&& p.size == size
                &&& p.end == start + size
                &&& p.node == node
                &&& p.device == device
                &&& p.consistent()
            },
    {
        if number == 0 || size == 0 {
            return None;
        }
        match start.checked_add(size) {
            Some(end) => Some(Partition { name, number, start, end, size, node, device }),
            None => None,
        }
    }
}

impl Clone for Partition {
    /// Cloning a partition keeps its value.
    fn clone(&self) -> (res: Self)
        ensures
            res == *self,
    {
        Partition {
            name: self.name.clone(),
            number: self.number,
            start: self.start,
            end: self.end,
            size: self.size,
            node: self.node.clone(),
            device: self.device.clone(),
        }
    }
}

} // verus!
