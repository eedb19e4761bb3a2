//! Typed disk model: classification of kernel block-node names into device
//! families and the shared [`BasicDisk`] record they all carry.

use vstd::prelude::*;
use vstd::string::StrSliceExecFns;

use crate::partition::Partition;
use crate::planner::PARTITION_ALIGNMENT;

verus! {

/// Sector size, in bytes: the only sector size this crate supports.
pub const SECTOR_SIZE: u64 = 512;

/// Largest sector count a modelled disk may report. Keeps every byte
/// position, including one more alignment step past the end of the disk,
/// inside a `u64`.
pub const MAX_SECTORS: u64 = (u64::MAX - PARTITION_ALIGNMENT) / 512;

pub open spec fn is_ascii_digit(c: char) -> bool {
    '0' as u32 <= c as u32 && c as u32 <= '9' as u32
}

pub open spec fn is_lower_alpha(c: char) -> bool {
    'a' as u32 <= c as u32 && c as u32 <= 'z' as u32
}

/// `^sd[a-z]+$`
pub open spec fn is_scsi_name(s: Seq<char>) -> bool {
    &&& s.len() >= 3
    &&& s[0] == 's'
    &&& s[1] == 'd'
    &&& forall|i: int| 2 <= i < s.len() ==> is_lower_alpha(#[trigger] s[i])
}

/// `^vd[a-z]+$`
pub open spec fn is_virtio_name(s: Seq<char>) -> bool {
    &&& s.len() >= 3
    &&& s[0] == 'v'
    &&& s[1] == 'd'
    &&& forall|i: int| 2 <= i < s.len() ==> is_lower_alpha(#[trigger] s[i])
}

/// `^mmcblk\d+$`
pub open spec fn is_mmc_name(s: Seq<char>) -> bool {
    &&& s.len() >= 7
    &&& s.take(6) == "mmcblk"@
    &&& forall|i: int| 6 <= i < s.len() ==> is_ascii_digit(#[trigger] s[i])
}

/// `^loop\d+$`
pub open spec fn is_loop_name(s: Seq<char>) -> bool {
    &&& s.len() >= 5
    &&& s.take(4) == "loop"@
    &&& forall|i: int| 4 <= i < s.len() ==> is_ascii_digit(#[trigger] s[i])
}

/// `^nvme\d+n\d+$`: "nvme", one or more digits, an 'n', one or more digits.
pub open spec fn is_nvme_name(s: Seq<char>) -> bool {
    &&& s.len() >= 7
    &&& s.take(4) == "nvme"@
    &&& exists|k: int|
        {
            &&& 5 <= k < s.len() - 1
            &&& s[k] == 'n'
            &&& (forall|i: int| 4 <= i < k ==> is_ascii_digit(#[trigger] s[i]))
            &&& (forall|i: int| k < i < s.len() ==> is_ascii_digit(#[trigger] s[i]))
        }
}

/// `^mock`: synthetic disks used for planning without hardware.
pub open spec fn is_mock_name(s: Seq<char>) -> bool {
    s.len() >= 4 && s.take(4) == "mock"@
}

/// Checks that every character of `s` from `from` on lies in the inclusive
/// character range `lo..=hi`.
fn all_chars_in_range(s: &str, from: usize, lo: char, hi: char) -> (b: bool)
    requires
        from <= s@.len(),
    ensures
        b == forall|i: int|
            from <= i < s@.len() ==> lo as u32 <= #[trigger] s@[i] as u32 <= hi as u32,
{
    let n = s.unicode_len();
    let mut j = from;
    while j < n
        invariant
            from <= j <= n,
            n == s@.len(),
            forall|i: int| from <= i < j ==> lo as u32 <= #[trigger] s@[i] as u32 <= hi as u32,
        decreases n - j,
    {
        let c = s.get_char(j);
        if !(lo as u32 <= c as u32 && c as u32 <= hi as u32) {
            return false;
        }
        j += 1;
    }
    true
}

/// Checks that `s` starts with the literal `prefix` (compared by character).
fn has_prefix(s: &str, prefix: &str) -> (b: bool)
    ensures
        b == (s@.len() >= prefix@.len() && s@.take(prefix@.len() as int) == prefix@),
{
    let n = s.unicode_len();
    let m = prefix.unicode_len();
    if n < m {
        assert(!(s@.len() >= prefix@.len()));
        return false;
    }
    let mut j: usize = 0;
    while j < m
        invariant
            0 <= j <= m,
            m <= n,
            n == s@.len(),
            m == prefix@.len(),
            forall|i: int| 0 <= i < j ==> s@[i] == prefix@[i],
        decreases m - j,
    {
        if s.get_char(j) != prefix.get_char(j) {
            assert(s@.take(prefix@.len() as int)[j as int] != prefix@[j as int]);
            return false;
        }
        j += 1;
    }
    assert(s@.take(prefix@.len() as int) =~= prefix@);
    true
}

/// Does `name` match the SCSI/SATA naming pattern `sd[a-z]+`?
pub fn name_matches_scsi(name: &str) -> (b: bool)
    ensures
        b == is_scsi_name(name@),
{
    let b = name.unicode_len() >= 3 && has_prefix(name, "sd") && all_chars_in_range(name, 2, 'a', 'z');
    proof {
        reveal_strlit("sd");
        if b {
            assert(name@.take(2) == "sd"@);
            assert(name@[0] == name@.take(2)[0]);
            assert(name@[1] == name@.take(2)[1]);
        }
        if is_scsi_name(name@) {
            assert(name@.take(2) =~= "sd"@);
        }
    }
    b
}

/// Does `name` match the virtio naming pattern `vd[a-z]+`?
pub fn name_matches_virtio(name: &str) -> (b: bool)
    ensures
        b == is_virtio_name(name@),
{
    let b = name.unicode_len() >= 3 && has_prefix(name, "vd") && all_chars_in_range(name, 2, 'a', 'z');
    proof {
        reveal_strlit("vd");
        if b {
            assert(name@.take(2) == "vd"@);
            assert(name@[0] == name@.take(2)[0]);
            assert(name@[1] == name@.take(2)[1]);
        }
        if is_virtio_name(name@) {
            assert(name@.take(2) =~= "vd"@);
        }
    }
    b
}

/// Does `name` match the MMC naming pattern `mmcblk\d+`?
pub fn name_matches_mmc(name: &str) -> (b: bool)
    ensures
        b == is_mmc_name(name@),
{
    let b = name.unicode_len() >= 7 && has_prefix(name, "mmcblk") && all_chars_in_range(
        name,
        6,
        '0',
        '9',
    );
    proof {
        reveal_strlit("mmcblk");
    }
    b
}

/// Does `name` match the loopback naming pattern `loop\d+`?
pub fn name_matches_loop(name: &str) -> (b: bool)
    ensures
        b == is_loop_name(name@),
{
    let b = name.unicode_len() >= 5 && has_prefix(name, "loop") && all_chars_in_range(
        name,
        4,
        '0',
        '9',
    );
    proof {
        reveal_strlit("loop");
    }
    b
}

/// Does `name` begin with `mock`, marking a synthetic disk?
pub fn name_matches_mock(name: &str) -> (b: bool)
    ensures
        b == is_mock_name(name@),
{
    let b = name.unicode_len() >= 4 && has_prefix(name, "mock");
    proof {
        reveal_strlit("mock");
    }
    b
}

/// Returns the position of the first non-digit character of `s` at or
/// after `from` (or the length of `s` when digits run to the end).
fn digit_run_end(s: &str, from: usize) -> (j: usize)
    requires
        from <= s@.len(),
    ensures
        from <= j <= s@.len(),
        forall|i: int| from <= i < j ==> is_ascii_digit(#[trigger] s@[i]),
        j < s@.len() ==> !is_ascii_digit(s@[j as int]),
{
    let n = s.unicode_len();
    let mut j = from;
    while j < n
        invariant
            from <= j <= n,
            n == s@.len(),
            forall|i: int| from <= i < j ==> is_ascii_digit(#[trigger] s@[i]),
        decreases n - j,
    {
        let c = s.get_char(j);
        if !('0' as u32 <= c as u32 && c as u32 <= '9' as u32) {
            return j;
        }
        j += 1;
    }
    j
}

/// Does `name` match the NVMe naming pattern `nvme\d+n\d+`?
pub fn name_matches_nvme(name: &str) -> (b: bool)
    ensures
        b == is_nvme_name(name@),
{
    proof {
        reveal_strlit("nvme");
    }
    let n = name.unicode_len();
    if !(n >= 7 && has_prefix(name, "nvme")) {
        return false;
    }
    // scan the first digit run
    let j = digit_run_end(name, 4);
    if j == 4 || j >= n {
        // no digits after "nvme", or the name ended inside the digit run
        proof {
            if is_nvme_name(name@) {
                let k = choose|k: int|
                    5 <= k < name@.len() - 1 && name@[k] == 'n' && (forall|i: int|
                        4 <= i < k ==> is_ascii_digit(#[trigger] name@[i])) && (forall|i: int|
                        k < i < name@.len() ==> is_ascii_digit(#[trigger] name@[i]));
                assert(!is_ascii_digit('n'));
                assert(j <= k);
            }
        }
        return false;
    }
    if name.get_char(j) != 'n' {
        proof {
            if is_nvme_name(name@) {
                let k = choose|k: int|
                    5 <= k < name@.len() - 1 && name@[k] == 'n' && (forall|i: int|
                        4 <= i < k ==> is_ascii_digit(#[trigger] name@[i])) && (forall|i: int|
                        k < i < name@.len() ==> is_ascii_digit(#[trigger] name@[i]));
                assert(!is_ascii_digit('n'));
                assert(j == k);
            }
        }
        return false;
    }
    if j + 1 >= n {
        proof {
            if is_nvme_name(name@) {
                let k = choose|k: int|
                    5 <= k < name@.len() - 1 && name@[k] == 'n' && (forall|i: int|
                        4 <= i < k ==> is_ascii_digit(#[trigger] name@[i])) && (forall|i: int|
                        k < i < name@.len() ==> is_ascii_digit(#[trigger] name@[i]));
                assert(!is_ascii_digit('n'));
                assert(j == k);
            }
        }
        return false;
    }
    let b = all_chars_in_range(name, j + 1, '0', '9');
    proof {
        if b {
            assert(5 <= j < name@.len() - 1 && name@[j as int] == 'n' && (forall|i: int|
                4 <= i < j ==> is_ascii_digit(#[trigger] name@[i])) && (forall|i: int|
                j < i < name@.len() ==> is_ascii_digit(#[trigger] name@[i])));
        } else {
            if is_nvme_name(name@) {
                let k = choose|k: int|
                    5 <= k < name@.len() - 1 && name@[k] == 'n' && (forall|i: int|
                        4 <= i < k ==> is_ascii_digit(#[trigger] name@[i])) && (forall|i: int|
                        k < i < name@.len() ==> is_ascii_digit(#[trigger] name@[i]));
                assert(!is_ascii_digit('n'));
                assert(j == k);
            }
        }
    }
    b
}

proof fn lemma_adjacent_numbers_increase(parts: Seq<Partition>, a: int, b: int)
    requires
        forall|k: int| 0 < k < parts.len() ==> parts[k - 1].number < (#[trigger] parts[k]).number,
        0 <= a <= b < parts.len(),
    ensures
        parts[a].number <= parts[b].number,
    decreases b - a,
{
    if a < b {
        lemma_adjacent_numbers_increase(parts, a, b - 1);
    }
}

/// A basic disk representation containing common attributes shared by all
/// disk families.
#[derive(Debug)]
pub struct BasicDisk {
    /// Device name (e.g. `sda`, `nvme0n1`).
    pub name: String,
    /// Total number of sectors on the disk.
    pub sectors: u64,
    /// Path to the device under the device directory.
    pub device: String,
    /// Optional disk model name.
    pub model: Option<String>,
    /// Optional disk vendor name.
    pub vendor: Option<String>,
    /// Partitions, sorted by partition number.
    pub partitions: Vec<Partition>,
}

impl BasicDisk {
    /// Well-formedness: the sector count is bounded, every partition lies
    /// within the disk, and partition numbers strictly increase (so they
    /// are unique and sorted).
    pub open spec fn wf(self) -> bool {
        &&& self.sectors <= MAX_SECTORS
        &&& forall|i: int|
            0 <= i < self.partitions@.len() ==> (#[trigger] self.partitions@[i]).fits(self.sectors)
        &&& forall|i: int, j: int|
            0 <= i < j < self.partitions@.len() ==> (#[trigger] self.partitions@[i]).number < (
            #[trigger] self.partitions@[j]).number
    }

    /// Two disk records are equivalent when every field holds the same
    /// value (partitions compared as sequences).
    pub open spec fn equiv(self, o: BasicDisk) -> bool {
        &&& self.name == o.name
        &&& self.sectors == o.sectors
        &&& self.device == o.device
        &&& self.model == o.model
        &&& self.vendor == o.vendor
        &&& self.partitions@ == o.partitions@
    }

    /// No two partitions of the disk share any sector.
    pub open spec fn partitions_disjoint(self) -> bool {
        forall|i: int, j: int|
            0 <= i < j < self.partitions@.len() ==> ((#[trigger] self.partitions@[i]).end <= (
            #[trigger] self.partitions@[j]).start || self.partitions@[j].end
                <= self.partitions@[i].start)
    }

    /// Build a disk from already-read attributes. The partitions must be
    /// handed over sorted by partition number; the constructor validates
    /// rather than repairs, and returns `None` exactly when the data can
    /// not form a well-formed disk with mutually disjoint partitions
    /// (which is what planning over the disk relies on).
    pub fn from_attributes(
        name: String,
        sectors: u64,
        device: String,
        model: Option<String>,
        vendor: Option<String>,
        partitions: Vec<Partition>,
    ) -> (r: Option<BasicDisk>)
        ensures
            r matches Some(d) ==> {
                &&& d.wf()
                &&& d.partitions_disjoint()
                &&& d.name == name
                &&& d.sectors == sectors
                &&& d.device == device
                &&& d.model == model
                &&& d.vendor == vendor
                &&& d.partitions == partitions
            },
            r is None ==> !((BasicDisk {
                name,
                sectors,
                device,
                model,
                vendor,
                partitions,
            }).wf() && (BasicDisk {
                name,
                sectors,
                device,
                model,
                vendor,
                partitions,
            }).partitions_disjoint()),
    {
        if sectors > MAX_SECTORS {
            return None;
        }
        let n = partitions.len();
        let mut i: usize = 0;
        while i < n
            invariant
                0 <= i <= n,
                n == partitions@.len(),
                sectors <= MAX_SECTORS,
                forall|k: int| 0 <= k < i ==> (#[trigger] partitions@[k]).fits(sectors),
                forall|k: int|
                    0 < k < i ==> partitions@[k - 1].number < (#[trigger] partitions@[k]).number,
            decreases n - i,
        {
            let p = &partitions[i];
            if !(p.number >= 1 && p.size >= 1 && p.start <= u64::MAX - p.size && p.end == p.start
                + p.size && p.end <= sectors) {
                proof {
                    let d = BasicDisk { name, sectors, device, model, vendor, partitions };
                    assert(!d.partitions@[i as int].fits(d.sectors));
                }
                return None;
            }
            if i > 0 && partitions[i - 1].number >= partitions[i].number {
                proof {
                    let d = BasicDisk { name, sectors, device, model, vendor, partitions };
                    if d.wf() {
                        assert(d.partitions@[i - 1].number < d.partitions@[i as int].number);
                    }
                }
                return None;
            }
            i += 1;
        }
        proof {
            // adjacent strict increase gives pairwise strict increase
            assert forall|a: int, b: int|
                0 <= a < b < partitions@.len() implies (#[trigger] partitions@[a]).number < (
            #[trigger] partitions@[b]).number by {
                lemma_adjacent_numbers_increase(partitions@, a, b - 1);
            }
        }
        // no two partitions may share a sector
        let mut a: usize = 0;
        while a < n
            invariant
                0 <= a <= n,
                n == partitions@.len(),
                forall|x: int, y: int|
                    0 <= x < y < partitions@.len() && x < a ==> ((#[trigger] partitions@[x]).end
                        <= (#[trigger] partitions@[y]).start || partitions@[y].end
                        <= partitions@[x].start),
            decreases n - a,
        {
            let mut b: usize = a + 1;
            while b < n
                invariant
                    0 <= a < b <= n,
                    n == partitions@.len(),
                    forall|y: int|
                        a < y < b ==> ((#[trigger] partitions@[y]).start >= partitions@[a as int].end
                            || partitions@[y].end <= partitions@[a as int].start),
                decreases n - b,
            {
                let p = &partitions[a];
                let q = &partitions[b];
                if !(q.start >= p.end || q.end <= p.start) {
                    proof {
                        let d = BasicDisk { name, sectors, device, model, vendor, partitions };
                        assert(!(d.partitions@[a as int].end <= d.partitions@[b as int].start
                            || d.partitions@[b as int].end <= d.partitions@[a as int].start));
                        assert(!d.partitions_disjoint());
                    }
                    return None;
                }
                b += 1;
            }
            a += 1;
        }
        Some(BasicDisk { name, sectors, device, model, vendor, partitions })
    }

    /// Returns the name of the disk device.
    pub fn name(&self) -> (r: &str)
        ensures
            r@ == self.name@,
    {
        self.name.as_str()
    }

    /// Returns the partitions on the disk.
    pub fn partitions(&self) -> (r: &Vec<Partition>)
        ensures
            r == &self.partitions,
    {
        &self.partitions
    }

    /// Returns the path to the disk device under the device directory.
    pub fn device_path(&self) -> (r: &str)
        ensures
            r@ == self.device@,
    {
        self.device.as_str()
    }

    /// Returns the total number of sectors on the disk.
    pub fn sectors(&self) -> (r: u64)
        ensures
            r == self.sectors,
    {
        self.sectors
    }

    /// Returns the size of the disk in bytes (sectors of 512 bytes).
    pub fn size(&self) -> (r: u64)
        requires
            self.sectors <= MAX_SECTORS,
        ensures
            r == self.sectors * SECTOR_SIZE,
    {
        proof {
            assert(self.sectors * 512 <= MAX_SECTORS * 512) by (nonlinear_arith)
                requires
                    self.sectors <= MAX_SECTORS,
            ;
        }
        self.sectors * SECTOR_SIZE
    }

    /// Returns the model name of the disk, when one was reported.
    pub fn model(&self) -> (r: Option<&str>)
        ensures
            r is Some <==> self.model is Some,
            r matches Some(s) ==> s@ == self.model->Some_0@,
    {
        match &self.model {
            Some(m) => Some(m.as_str()),
            None => None,
        }
    }

    /// Returns the vendor name of the disk, when one was reported.
    pub fn vendor(&self) -> (r: Option<&str>)
        ensures
            r is Some <==> self.vendor is Some,
            r matches Some(s) ==> s@ == self.vendor->Some_0@,
    {
        match &self.vendor {
            Some(m) => Some(m.as_str()),
            None => None,
        }
    }
}

/// Represents the family of a disk device, tagged with the shared
/// [`BasicDisk`] record.
#[derive(Debug)]
pub enum Disk {
    /// SCSI/SATA disk device (e.g. sda, sdb).
    Scsi(BasicDisk),
    /// MMC disk device (e.g. mmcblk0).
    Mmc(BasicDisk),
    /// NVMe disk device (e.g. nvme0n1).
    Nvme(BasicDisk),
    /// Virtio disk device (e.g. vda).
    Virtual(BasicDisk),
    /// Synthetic disk for planning without hardware.
    Mock(BasicDisk),
}

impl Disk {
    /// The shared record under the family tag.
    pub open spec fn spec_basic(self) -> BasicDisk {
        match self {
            Disk::Scsi(d) => d,
            Disk::Mmc(d) => d,
            Disk::Nvme(d) => d,
            Disk::Virtual(d) => d,
            Disk::Mock(d) => d,
        }
    }

    /// A disk is well-formed when its record is, and its family matches
    /// its name.
    pub open spec fn wf(self) -> bool {
        &&& self.spec_basic().wf()
        &&& match self {
            Disk::Scsi(d) => is_scsi_name(d.name@),
            Disk::Mmc(d) => is_mmc_name(d.name@),
            Disk::Nvme(d) => is_nvme_name(d.name@),
            Disk::Virtual(d) => is_virtio_name(d.name@),
            Disk::Mock(d) => is_mock_name(d.name@),
        }
    }

    /// Access the shared record.
    pub fn basic(&self) -> (r: &BasicDisk)
        ensures
            *r == self.spec_basic(),
    {
        match self {
            Disk::Scsi(d) => d,
            Disk::Mmc(d) => d,
            Disk::Nvme(d) => d,
            Disk::Virtual(d) => d,
            Disk::Mock(d) => d,
        }
    }

    /// Classify a disk by its kernel node name, in the fixed order
    /// SCSI, NVMe, MMC, virtio, mock. Loopback devices are a separate
    /// type and are not classified here. Returns `None` when the name
    /// matches no family.
    pub fn classify(disk: BasicDisk) -> (r: Option<Disk>)
        ensures
            r matches Some(d) ==> d.spec_basic() == disk,
            r matches Some(d) ==> match d {
                Disk::Scsi(_) => is_scsi_name(disk.name@),
                Disk::Nvme(_) => is_nvme_name(disk.name@) && !is_scsi_name(disk.name@),
                Disk::Mmc(_) => is_mmc_name(disk.name@) && !is_scsi_name(disk.name@)
                    && !is_nvme_name(disk.name@),
                Disk::Virtual(_) => is_virtio_name(disk.name@) && !is_scsi_name(disk.name@)
                    && !is_nvme_name(disk.name@) && !is_mmc_name(disk.name@),
                Disk::Mock(_) => is_mock_name(disk.name@) && !is_scsi_name(disk.name@)
                    && !is_nvme_name(disk.name@) && !is_mmc_name(disk.name@) && !is_virtio_name(
                    disk.name@,
                ),
            },
            r is None ==> !is_scsi_name(disk.name@) && !is_nvme_name(disk.name@) && !is_mmc_name(
                disk.name@,
            ) && !is_virtio_name(disk.name@) && !is_mock_name(disk.name@),
    {
        if name_matches_scsi(self_name(&disk)) {
            Some(Disk::Scsi(disk))
        } else if name_matches_nvme(self_name(&disk)) {
            Some(Disk::Nvme(disk))
        } else if name_matches_mmc(self_name(&disk)) {
            Some(Disk::Mmc(disk))
        } else if name_matches_virtio(self_name(&disk)) {
            Some(Disk::Virtual(disk))
        } else if name_matches_mock(self_name(&disk)) {
            Some(Disk::Mock(disk))
        } else {
            None
        }
    }
}

fn self_name(d: &BasicDisk) -> (r: &str)
    ensures
        r@ == d.name@,
{
    d.name.as_str()
}

fn clone_opt_string(s: &Option<String>) -> (res: Option<String>)
    ensures
        res == *s,
{
    match s {
        Some(v) => Some(v.clone()),
        None => None,
    }
}

impl Clone for BasicDisk {
    /// Cloning a disk record keeps every field's value.
    fn clone(&self) -> (res: Self)
        ensures
            res.equiv(*self),
    {
        let res = BasicDisk {
            name: self.name.clone(),
            sectors: self.sectors,
            device: self.device.clone(),
            model: clone_opt_string(&self.model),
            vendor: clone_opt_string(&self.vendor),
            partitions: self.partitions.clone(),
        };
        proof {
            assert(res.partitions@ =~= self.partitions@);
        }
        res
    }
}

impl Clone for Disk {
    /// Cloning a disk keeps its family and every field's value.
    fn clone(&self) -> (res: Self)
        ensures
            res.spec_basic().equiv(self.spec_basic()),
            res is Scsi <==> self is Scsi,
            res is Mmc <==> self is Mmc,
            res is Nvme <==> self is Nvme,
            res is Virtual <==> self is Virtual,
            res is Mock <==> self is Mock,
    {
        match self {
            Disk::Scsi(d) => Disk::Scsi(d.clone()),
            Disk::Mmc(d) => Disk::Mmc(d.clone()),
            Disk::Nvme(d) => Disk::Nvme(d.clone()),
            Disk::Virtual(d) => Disk::Virtual(d.clone()),
            Disk::Mock(d) => Disk::Mock(d.clone()),
        }
    }
}

} // verus!
