//! Transactional disk partition planning.
//!
//! A [`Planner`] tracks a usable byte window on a disk, the disk's initial
//! partition regions, and an undoable queue of pending changes. Every change
//! is validated before it is queued, so the effective layout never contains
//! overlapping or out-of-bounds regions.

use std::collections::VecDeque;

use vstd::prelude::*;

use crate::device::BlockDevice;

verus! {

/// Default alignment for partition boundaries: 1 MiB. Most modern storage
/// devices and partition tables work best with partitions aligned to 1 MiB
/// boundaries.
pub const PARTITION_ALIGNMENT: u64 = 1048576;

/// A contiguous region of disk space, as absolute byte positions
/// `[start, end)` from the beginning of the disk.
#[derive(Debug, Clone, Copy)]
pub struct Region {
    /// The absolute start position of this region in bytes.
    pub start: u64,
    /// The absolute end position of this region in bytes.
    pub end: u64,
}

impl Region {
    /// Size of the region in bytes, as a mathematical integer.
    pub open spec fn spec_size(self) -> int {
        self.end - self.start
    }

    /// Two regions overlap when each one starts before the other ends.
    pub open spec fn spec_overlaps(self, other: Region) -> bool {
        self.start < other.end && other.start < self.end
    }

    /// Create a new region with the given bounds.
    pub fn new(start: u64, end: u64) -> (r: Region)
        ensures
            r.start == start,
            r.end == end,
    {
        Region { start, end }
    }

    /// Get the size of this region in bytes.
    pub fn size(&self) -> (s: u64)
        requires
            self.start <= self.end,
        ensures
            s == self.spec_size(),
    {
        self.end - self.start
    }

    /// Check if this region overlaps with another.
    pub fn overlaps_with(&self, other: &Region) -> (b: bool)
        ensures
            b == self.spec_overlaps(*other),
    {
        self.start < other.end && other.start < self.end
    }

    /// The region rendered for people: its size, then its bounds as
    /// percentages of the disk with absolute sizes.
    pub open spec fn spec_describe(self, disk_size: u64) -> Seq<char> {
        spec_format_size(self.spec_size()) + " at "@ + spec_format_position(
            self.start as int,
            disk_size as int,
        ) + ".."@ + spec_format_position(self.end as int, disk_size as int)
    }

    /// Get a human-readable description of this region.
    pub fn describe(&self, disk_size: u64) -> (r: String)
        requires
            self.start <= self.end,
        ensures
            r@ == self.spec_describe(disk_size),
    {
        let mut out = format_size(self.size());
        out.append(" at ");
        let sp = format_position(self.start, disk_size);
        out.append(sp.as_str());
        out.append("..");
        let ep = format_position(self.end, disk_size);
        out.append(ep.as_str());
        proof {
            assert(out@ =~= self.spec_describe(disk_size));
        }
        out
    }
}

/// Errors that can occur while planning partition changes.
#[derive(Debug, Clone, Copy, PartialEq, Eq, Structural)]
pub enum PlanError {
    /// The region overlaps an existing partition.
    RegionOverlap { start: u64, end: u64 },
    /// The region exceeds the disk's usable bounds, moved an already
    /// aligned position, or became empty after alignment.
    RegionOutOfBounds { start: u64, end: u64 },
    /// No free region is available for allocation.
    NoFreeRegions,
}

/// A planned modification to the disk's partition layout. Changes are
/// queued in order and can be undone last-in-first-out with
/// [`Planner::undo`].
#[derive(Debug, Clone, Copy)]
pub enum Change {
    /// Add a new partition over the byte region `[start, end)`.
    AddPartition { start: u64, end: u64 },
    /// Delete the partition at this index of the initial layout.
    DeletePartition { original_index: usize },
}

impl Change {
    /// The change rendered for people.
    pub open spec fn spec_describe(self, disk_size: u64) -> Seq<char> {
        match self {
            Change::AddPartition { start, end } => "Add new partition: "@ + spec_format_size(
                end - start,
            ) + " ("@ + (Region { start, end }).spec_describe(disk_size) + " at "@
                + spec_format_position(start as int, disk_size as int) + ")"@,
            Change::DeletePartition { original_index } => "Delete partition #"@
                + crate::encoding::spec_decimal(original_index + 1),
        }
    }

    /// Get a human-readable description of this change.
    pub fn describe(&self, disk_size: u64) -> (r: String)
        requires
            (*self) matches Change::AddPartition { start, end } ==> start <= end,
            (*self) matches Change::DeletePartition { original_index } ==> original_index
                < usize::MAX,
        ensures
            r@ == self.spec_describe(disk_size),
    {
        match self {
            Change::AddPartition { start, end } => {
                let mut out = "Add new partition: ".to_owned();
                let size_part = format_size(end - start);
                out.append(size_part.as_str());
                out.append(" (");
                let region_part = Region { start: *start, end: *end }.describe(disk_size);
                out.append(region_part.as_str());
                out.append(" at ");
                let pos_part = format_position(*start, disk_size);
                out.append(pos_part.as_str());
                out.append(")");
                proof {
                    assert(out@ =~= self.spec_describe(disk_size));
                }
                out
            },
            Change::DeletePartition { original_index } => {
                let mut out = "Delete partition #".to_owned();
                let num = crate::encoding::u64_to_string((original_index + 1) as u64);
                out.append(num.as_str());
                proof {
                    assert(out@ =~= self.spec_describe(disk_size));
                }
                out
            },
        }
    }
}

/// Does the change queue hold a deletion of initial-layout index `i`?
pub open spec fn index_deleted(changes: Seq<Change>, i: int) -> bool {
    exists|k: int|
        0 <= k < changes.len() && ((#[trigger] changes[k]) matches Change::DeletePartition {
            original_index,
        } && original_index == i)
}

/// The initial regions that survive the queued deletions, in order.
/// A deletion index may be queued more than once; further copies have no
/// further effect.
pub open spec fn remaining_initial(orig: Seq<Region>, changes: Seq<Change>) -> Seq<Region>
    decreases orig.len(),
{
    if orig.len() == 0 {
        Seq::empty()
    } else {
        let rest = remaining_initial(orig.drop_last(), changes);
        if index_deleted(changes, orig.len() - 1) {
            rest
        } else {
            rest.push(orig.last())
        }
    }
}

/// The regions added by the queued additions, in queue order.
pub open spec fn added_regions(changes: Seq<Change>) -> Seq<Region>
    decreases changes.len(),
{
    if changes.len() == 0 {
        Seq::empty()
    } else {
        let rest = added_regions(changes.drop_last());
        match changes.last() {
            Change::AddPartition { start, end } => rest.push(Region { start, end }),
            Change::DeletePartition { .. } => rest,
        }
    }
}

/// The effective layout: the surviving initial regions followed by the
/// added regions.
pub open spec fn layout_of(orig: Seq<Region>, changes: Seq<Change>) -> Seq<Region> {
    remaining_initial(orig, changes) + added_regions(changes)
}

/// Every region lies within `[us, ue)` and no two regions overlap.
pub open spec fn layout_ok(regions: Seq<Region>, us: u64, ue: u64) -> bool {
    &&& forall|i: int|
        0 <= i < regions.len() ==> us <= (#[trigger] regions[i]).start < regions[i].end <= ue
    &&& forall|i: int, j: int|
        0 <= i < regions.len() && 0 <= j < regions.len() && i != j ==> !(
        #[trigger] regions[i]).spec_overlaps(#[trigger] regions[j])
}

/// Round to the nearest multiple of `alignment`, rounding up only when the
/// remainder exceeds half the alignment. (This is the rounding used for
/// region start positions.)
pub open spec fn spec_align_up(value: int, alignment: int) -> int {
    if value % alignment == 0 {
        value
    } else if value % alignment > alignment / 2 {
        value + (alignment - value % alignment)
    } else {
        value - value % alignment
    }
}

/// Round to the nearest multiple of `alignment`, rounding down only when
/// the remainder is below half the alignment. (This is the rounding used
/// for region end positions.)
pub open spec fn spec_align_down(value: int, alignment: int) -> int {
    if value % alignment == 0 {
        value
    } else if value % alignment < alignment / 2 {
        value - value % alignment
    } else {
        value + (alignment - value % alignment)
    }
}

pub proof fn lemma_align_props(value: int, alignment: int)
    requires
        0 <= value,
        0 < alignment,
    ensures
        spec_align_up(value, alignment) % alignment == 0,
        spec_align_down(value, alignment) % alignment == 0,
        value - alignment < spec_align_up(value, alignment) < value + alignment,
        value - alignment < spec_align_down(value, alignment) < value + alignment,
        0 <= spec_align_up(value, alignment),
        0 <= spec_align_down(value, alignment),
{
    vstd::arithmetic::div_mod::lemma_fundamental_div_mod(value, alignment);
    vstd::arithmetic::div_mod::lemma_mod_bound(value, alignment);
    let q = value / alignment;
    vstd::arithmetic::div_mod::lemma_mod_multiples_basic(q, alignment);
    vstd::arithmetic::div_mod::lemma_mod_multiples_basic(q + 1, alignment);
    assert(value - value % alignment == q * alignment) by (nonlinear_arith)
        requires
            value == alignment * (value / alignment) + value % alignment && q == value / alignment,
    ;
    assert(value + (alignment - value % alignment) == (q + 1) * alignment) by (nonlinear_arith)
        requires
            value == alignment * (value / alignment) + value % alignment && q == value / alignment,
    ;
}

/// Align a position to the nearest multiple of `alignment`, preferring to
/// round down at or below the halfway point.
pub fn align_up(value: u64, alignment: u64) -> (r: u64)
    requires
        alignment >= 1,
        value <= u64::MAX - alignment,
    ensures
        r == spec_align_up(value as int, alignment as int),
{
    proof {
        lemma_align_props(value as int, alignment as int);
    }
    let rem = value % alignment;
    if rem == 0 {
        value
    } else if rem > alignment / 2 {
        value + (alignment - rem)
    } else {
        value - rem
    }
}

/// Align a position to the nearest multiple of `alignment`, preferring to
/// round up at or above the halfway point.
pub fn align_down(value: u64, alignment: u64) -> (r: u64)
    requires
        alignment >= 1,
        value <= u64::MAX - alignment,
    ensures
        r == spec_align_down(value as int, alignment as int),
{
    proof {
        lemma_align_props(value as int, alignment as int);
    }
    let rem = value % alignment;
    if rem == 0 {
        value
    } else if rem < alignment / 2 {
        value - rem
    } else {
        value + (alignment - rem)
    }
}

/// Check if a value is already aligned to the given boundary.
pub fn is_aligned(value: u64, alignment: u64) -> (b: bool)
    requires
        alignment >= 1,
    ensures
        b == (value as int % alignment as int == 0),
{
    value % alignment == 0
}

/// The aligned start position a request `[start, _)` resolves to: the
/// nearest alignment multiple, clamped up to the window start.
pub open spec fn resolved_start(us: u64, start: u64) -> int {
    let a = spec_align_up(start as int, PARTITION_ALIGNMENT as int);
    if a >= us {
        a
    } else {
        us as int
    }
}

/// The aligned end position a request `[_, end)` resolves to: the nearest
/// alignment multiple, clamped down to the window end.
pub open spec fn resolved_end(ue: u64, end: u64) -> int {
    let a = spec_align_down(end as int, PARTITION_ALIGNMENT as int);
    if a <= ue {
        a
    } else {
        ue as int
    }
}

/// What `plan_add_partition` decides for a planner with window `[us, ue)`
/// and effective layout `layout`: either the change to queue, or the error
/// returned. Alignment must not move an already aligned position; the
/// aligned region must be non-empty (which also keeps it inside the
/// window); and it must not overlap any region of the current layout.
pub open spec fn plan_add_decision(
    us: u64,
    ue: u64,
    layout: Seq<Region>,
    start: u64,
    end: u64,
) -> Result<Change, PlanError> {
    let a_start = resolved_start(us, start);
    let a_end = resolved_end(ue, end);
    if (start as int % PARTITION_ALIGNMENT as int == 0 && a_start != start) || (end as int
        % PARTITION_ALIGNMENT as int == 0 && a_end != end) {
        Err(PlanError::RegionOutOfBounds { start: a_start as u64, end: a_end as u64 })
    } else if a_end <= a_start {
        Err(PlanError::RegionOutOfBounds { start: a_start as u64, end: a_end as u64 })
    } else if exists|i: int|
        0 <= i < layout.len() && (#[trigger] layout[i]).spec_overlaps(
            Region { start: a_start as u64, end: a_end as u64 },
        ) {
        Err(PlanError::RegionOverlap { start: a_start as u64, end: a_end as u64 })
    } else {
        Ok(Change::AddPartition { start: a_start as u64, end: a_end as u64 })
    }
}

/// What `plan_delete_partition` decides: the deletion change when the
/// index refers to the initial layout, or the error returned.
pub open spec fn plan_delete_decision(
    us: u64,
    ue: u64,
    orig_len: int,
    index: usize,
) -> Result<Change, PlanError> {
    if index < orig_len {
        Ok(Change::DeletePartition { original_index: index })
    } else {
        Err(PlanError::RegionOutOfBounds { start: us, end: (ue - us) as u64 })
    }
}

/// Does any region of `layout` overlap `r`?
fn layout_overlaps(layout: &Vec<Region>, r: Region) -> (b: bool)
    ensures
        b == exists|i: int| 0 <= i < layout@.len() && (#[trigger] layout@[i]).spec_overlaps(r),
{
    let n = layout.len();
    let mut i: usize = 0;
    while i < n
        invariant
            0 <= i <= n,
            n == layout@.len(),
            forall|k: int| 0 <= k < i ==> !(#[trigger] layout@[k]).spec_overlaps(r),
        decreases n - i,
    {
        if r.overlaps_with(&layout[i]) {
            proof {
                assert(layout@[i as int].spec_overlaps(r));
            }
            return true;
        }
        i += 1;
    }
    false
}

/// A disk partitioning planner.
#[derive(Debug)]
pub struct Planner {
    /// First usable byte position on the disk.
    pub usable_start: u64,
    /// One past the last usable byte position on the disk.
    pub usable_end: u64,
    /// Queue of pending changes, oldest first.
    pub changes: VecDeque<Change>,
    /// The disk's partition layout before any changes, in byte regions.
    pub original_regions: Vec<Region>,
}

impl Planner {
    /// The effective layout after the queued changes.
    pub open spec fn spec_layout(self) -> Seq<Region> {
        layout_of(self.original_regions@, self.changes@)
    }

    /// The planner invariant: the window is ordered and bounded (so one
    /// more alignment step cannot overflow), and the effective layout
    /// after every prefix of the change queue fits the window without
    /// overlaps. Quantifying over prefixes is what makes undo safe: it
    /// pops back to a state that was already valid.
    pub open spec fn inv(self) -> bool {
        &&& self.usable_start <= self.usable_end
        &&& self.usable_end <= u64::MAX - PARTITION_ALIGNMENT
        &&& forall|n: int|
            0 <= n <= self.changes@.len() ==> layout_ok(
                layout_of(self.original_regions@, #[trigger] self.changes@.take(n)),
                self.usable_start,
                self.usable_end,
            )
        &&& forall|k: int|
            0 <= k < self.changes@.len() ==> ((#[trigger] self.changes@[k])
                matches Change::DeletePartition { original_index } ==> original_index
                < self.original_regions@.len())
    }

    /// Creates a new partitioning planner for the given disk. The usable
    /// window defaults to the whole device and the initial regions to the
    /// device's current partitions, converted from sectors to bytes.
    pub fn new(device: &BlockDevice) -> (r: Planner)
        requires
            device.wf(),
            device.spec_partitions_disjoint(),
        ensures
            r.inv(),
            r.usable_start == 0,
            r.usable_end == device.spec_size(),
            r.changes@.len() == 0,
            r.original_regions@.len() == device.spec_partitions().len(),
            forall|i: int|
                0 <= i < r.original_regions@.len() ==> (#[trigger] r.original_regions@[i]).start
                    == device.spec_partitions()[i].start * 512
                    && r.original_regions@[i].end == device.spec_partitions()[i].end * 512,
    {
        let parts = device.partitions();
        let n = parts.len();
        let ghost sectors = device.spec_sectors();
        let mut original_regions: Vec<Region> = Vec::new();
        let mut i: usize = 0;
        proof {
            assert forall|k: int|
                0 <= k < parts@.len() implies (#[trigger] parts@[k]).start * 512
                < parts@[k].end * 512 <= sectors * 512 by {
                lemma_sector_bytes(parts@[k].start, parts@[k].end, sectors);
            }
        }
        while i < n
            invariant
                0 <= i <= n,
                n == parts@.len(),
                original_regions@.len() == i,
                forall|k: int|
                    0 <= k < parts@.len() ==> (#[trigger] parts@[k]).start * 512 < parts@[k].end
                        * 512 <= sectors * 512,
                forall|k: int|
                    0 <= k < i ==> (#[trigger] original_regions@[k]).start == parts@[k].start * 512
                        && original_regions@[k].end == parts@[k].end * 512,
                forall|k: int| 0 <= k < parts@.len() ==> (#[trigger] parts@[k]).fits(sectors),
                sectors <= crate::disk::MAX_SECTORS,
            decreases n - i,
        {
            let p = &parts[i];
            proof {
                lemma_sector_bytes(p.start, p.end, sectors);
            }
            original_regions.push(Region { start: p.start * 512, end: p.end * 512 });
            i += 1;
        }
        let usable_end = device.size();
        let r = Planner { usable_start: 0, usable_end, changes: VecDeque::new(), original_regions };
        proof {
            assert(device.spec_sectors() * 512 <= crate::disk::MAX_SECTORS * 512)
                by (nonlinear_arith)
                requires
                    device.spec_sectors() <= crate::disk::MAX_SECTORS,
            ;
            assert(crate::disk::MAX_SECTORS * 512 <= u64::MAX - PARTITION_ALIGNMENT);
            assert forall|a: int, b: int|
                0 <= a < r.original_regions@.len() && 0 <= b < r.original_regions@.len() && a
                != b implies !(#[trigger] r.original_regions@[a]).spec_overlaps(
                #[trigger] r.original_regions@[b],
            ) by {
                if a < b {
                    lemma_sector_disjoint(parts@[a], parts@[b]);
                } else {
                    lemma_sector_disjoint(parts@[b], parts@[a]);
                }
            }
            assert forall|nn: int| 0 <= nn <= r.changes@.len() implies layout_ok(
                layout_of(r.original_regions@, #[trigger] r.changes@.take(nn)),
                r.usable_start,
                r.usable_end,
            ) by {
                assert(r.changes@.take(nn) =~= Seq::<Change>::empty());
                lemma_remaining_no_deletes(r.original_regions@, r.changes@.take(nn));
                assert(layout_of(r.original_regions@, r.changes@.take(nn))
                    =~= r.original_regions@);
            }
        }
        r
    }

    /// Narrow the usable window's start. The regions of every queued
    /// layout must already respect the new start.
    pub fn with_start_offset(self, offset: u64) -> (r: Planner)
        requires
            self.inv(),
            offset <= self.usable_end,
            forall|n: int|
                0 <= n <= self.changes@.len() ==> layout_ok(
                    layout_of(self.original_regions@, #[trigger] self.changes@.take(n)),
                    offset,
                    self.usable_end,
                ),
        ensures
            r.inv(),
            r.usable_start == offset,
            r.usable_end == self.usable_end,
            r.changes@ == self.changes@,
            r.original_regions@ == self.original_regions@,
    {
        Planner { usable_start: offset, ..self }
    }

    /// Narrow the usable window's end. The regions of every queued layout
    /// must already respect the new end.
    pub fn with_end_offset(self, offset: u64) -> (r: Planner)
        requires
            self.inv(),
            self.usable_start <= offset,
            offset <= u64::MAX - PARTITION_ALIGNMENT,
            forall|n: int|
                0 <= n <= self.changes@.len() ==> layout_ok(
                    layout_of(self.original_regions@, #[trigger] self.changes@.take(n)),
                    self.usable_start,
                    offset,
                ),
        ensures
            r.inv(),
            r.usable_start == self.usable_start,
            r.usable_end == offset,
            r.changes@ == self.changes@,
            r.original_regions@ == self.original_regions@,
    {
        Planner { usable_end: offset, ..self }
    }

    /// Is this initial-layout index queued for deletion?
    fn is_index_deleted(&self, index: usize) -> (b: bool)
        ensures
            b == index_deleted(self.changes@, index as int),
    {
        let n = self.changes.len();
        let mut k: usize = 0;
        while k < n
            invariant
                0 <= k <= n,
                n == self.changes@.len(),
                forall|m: int|
                    0 <= m < k ==> !((#[trigger] self.changes@[m])
                        matches Change::DeletePartition { original_index } && original_index
                        == index),
            decreases n - k,
        {
            match self.changes[k] {
                Change::DeletePartition { original_index } => {
                    if original_index == index {
                        return true;
                    }
                },
                Change::AddPartition { .. } => {},
            }
            k += 1;
        }
        false
    }

    /// Returns the current effective layout after all pending changes:
    /// the surviving initial regions in order, then the planned additions
    /// in queue order.
    pub fn current_layout(&self) -> (r: Vec<Region>)
        ensures
            r@ == self.spec_layout(),
    {
        let mut layout: Vec<Region> = Vec::new();
        let n = self.original_regions.len();
        let mut i: usize = 0;
        while i < n
            invariant
                0 <= i <= n,
                n == self.original_regions@.len(),
                layout@ == remaining_initial(self.original_regions@.take(i as int), self.changes@),
            decreases n - i,
        {
            proof {
                assert(self.original_regions@.take(i + 1).drop_last() =~= self.original_regions@.take(
                    i as int,
                ));
                assert(self.original_regions@.take(i + 1).last() == self.original_regions@[i as int]);
            }
            if !self.is_index_deleted(i) {
                layout.push(self.original_regions[i]);
            }
            i += 1;
        }
        proof {
            assert(self.original_regions@.take(n as int) =~= self.original_regions@);
        }
        let m = self.changes.len();
        let mut j: usize = 0;
        while j < m
            invariant
                0 <= j <= m,
                m == self.changes@.len(),
                layout@ == remaining_initial(self.original_regions@, self.changes@) + added_regions(
                    self.changes@.take(j as int),
                ),
            decreases m - j,
        {
            proof {
                assert(self.changes@.take(j + 1).drop_last() =~= self.changes@.take(j as int));
                assert(self.changes@.take(j + 1).last() == self.changes@[j as int]);
            }
            match self.changes[j] {
                Change::AddPartition { start, end } => {
                    layout.push(Region { start, end });
                },
                Change::DeletePartition { .. } => {},
            }
            j += 1;
        }
        proof {
            assert(self.changes@.take(m as int) =~= self.changes@);
        }
        layout
    }

    /// Plan to add a new partition between two absolute byte positions.
    /// Both positions are aligned to the nearest 1 MiB boundary and
    /// clamped to the usable window; an already aligned position must not
    /// move, the aligned region must be non-empty, and it must not overlap
    /// any region of the current layout. On success the aligned addition
    /// is queued; on failure the planner is unchanged.
    pub fn plan_add_partition(&mut self, start: u64, end: u64) -> (r: Result<(), PlanError>)
        requires
            old(self).inv(),
            start <= u64::MAX - PARTITION_ALIGNMENT,
            end <= u64::MAX - PARTITION_ALIGNMENT,
        ensures
            final(self).inv(),
            final(self).usable_start == old(self).usable_start,
            final(self).usable_end == old(self).usable_end,
            final(self).original_regions@ == old(self).original_regions@,
            match plan_add_decision(
                old(self).usable_start,
                old(self).usable_end,
                old(self).spec_layout(),
                start,
                end,
            ) {
                Ok(c) => {
                    &&& r is Ok
                    &&& final(self).changes@ == old(self).changes@.push(c)
                    &&& c matches Change::AddPartition { start: s, end: e } && (s as int
                        % PARTITION_ALIGNMENT as int == 0 || s == old(self).usable_start) && (
                    e as int % PARTITION_ALIGNMENT as int == 0 || e == old(self).usable_end)
                    &&& final(self).spec_layout() == old(self).spec_layout().push(
                        Region { start: c->AddPartition_start, end: c->AddPartition_end },
                    )
                },
                Err(e) => {
                    &&& r == Err::<(), PlanError>(e)
                    &&& final(self).changes@ == old(self).changes@
                },
            },
    {
        proof {
            lemma_align_props(start as int, PARTITION_ALIGNMENT as int);
            lemma_align_props(end as int, PARTITION_ALIGNMENT as int);
        }
        let au = align_up(start, PARTITION_ALIGNMENT);
        let aligned_start = if au >= self.usable_start {
            au
        } else {
            self.usable_start
        };
        let ad = align_down(end, PARTITION_ALIGNMENT);
        let aligned_end = if ad <= self.usable_end {
            ad
        } else {
            self.usable_end
        };

        // an already aligned position must not be moved by clamping
        if (is_aligned(start, PARTITION_ALIGNMENT) && aligned_start != start) || (is_aligned(
            end,
            PARTITION_ALIGNMENT,
        ) && aligned_end != end) {
            return Err(PlanError::RegionOutOfBounds { start: aligned_start, end: aligned_end });
        }
        // reject a zero or negative size after alignment
        if aligned_end <= aligned_start {
            return Err(PlanError::RegionOutOfBounds { start: aligned_start, end: aligned_end });
        }
        // reject overlaps with the current layout
        let new_region = Region { start: aligned_start, end: aligned_end };
        let current = self.current_layout();
        if layout_overlaps(&current, new_region) {
            return Err(PlanError::RegionOverlap { start: aligned_start, end: aligned_end });
        }
        let c = Change::AddPartition { start: aligned_start, end: aligned_end };
        self.changes.push_back(c);
        proof {
            lemma_layout_push_add(
                self.original_regions@,
                old(self).changes@,
                aligned_start,
                aligned_end,
            );
            assert forall|nn: int| 0 <= nn <= self.changes@.len() implies layout_ok(
                layout_of(self.original_regions@, #[trigger] self.changes@.take(nn)),
                self.usable_start,
                self.usable_end,
            ) by {
                if nn <= old(self).changes@.len() {
                    assert(self.changes@.take(nn) =~= old(self).changes@.take(nn));
                } else {
                    assert(self.changes@.take(nn) =~= self.changes@);
                    let new_layout = old(self).spec_layout().push(new_region);
                    assert(layout_of(self.original_regions@, self.changes@) =~= new_layout);
                    let full = old(self).changes@.len() as int;
                    assert(old(self).changes@.take(full) =~= old(self).changes@);
                    assert(layout_ok(old(self).spec_layout(), self.usable_start, self.usable_end));
                    assert forall|a: int, b: int|
                        0 <= a < new_layout.len() && 0 <= b < new_layout.len() && a != b implies !(
                    #[trigger] new_layout[a]).spec_overlaps(#[trigger] new_layout[b]) by {
                        let old_len = old(self).spec_layout().len() as int;
                        if a < old_len && b < old_len {
                        } else if a == old_len {
                            assert(!old(self).spec_layout()[b].spec_overlaps(new_region));
                        } else {
                            assert(!old(self).spec_layout()[a].spec_overlaps(new_region));
                        }
                    }
                }
            }
        }
        Ok(())
    }

    /// Plan to delete an existing partition. The index refers to the
    /// initial (pre-change) layout; an out-of-range index fails and the
    /// planner is unchanged.
    pub fn plan_delete_partition(&mut self, index: usize) -> (r: Result<(), PlanError>)
        requires
            old(self).inv(),
        ensures
            final(self).inv(),
            final(self).usable_start == old(self).usable_start,
            final(self).usable_end == old(self).usable_end,
            final(self).original_regions@ == old(self).original_regions@,
            match plan_delete_decision(
                old(self).usable_start,
                old(self).usable_end,
                old(self).original_regions@.len() as int,
                index,
            ) {
                Ok(c) => r is Ok && final(self).changes@ == old(self).changes@.push(c),
                Err(e) => r == Err::<(), PlanError>(e) && final(self).changes@ == old(
                    self,
                ).changes@,
            },
    {
        if index >= self.original_regions.len() {
            return Err(
                PlanError::RegionOutOfBounds {
                    start: self.usable_start,
                    end: self.usable_end - self.usable_start,
                },
            );
        }
        let c = Change::DeletePartition { original_index: index };
        self.changes.push_back(c);
        proof {
            assert forall|nn: int| 0 <= nn <= self.changes@.len() implies layout_ok(
                layout_of(self.original_regions@, #[trigger] self.changes@.take(nn)),
                self.usable_start,
                self.usable_end,
            ) by {
                if nn <= old(self).changes@.len() {
                    assert(self.changes@.take(nn) =~= old(self).changes@.take(nn));
                } else {
                    assert(self.changes@.take(nn) =~= self.changes@);
                    lemma_layout_push_delete(
                        self.original_regions@,
                        old(self).changes@,
                        index,
                        self.usable_start,
                        self.usable_end,
                    );
                }
            }
        }
        Ok(())
    }

    /// Undo the most recent change; returns whether a change was popped.
    pub fn undo(&mut self) -> (r: bool)
        requires
            old(self).inv(),
        ensures
            final(self).inv(),
            final(self).usable_start == old(self).usable_start,
            final(self).usable_end == old(self).usable_end,
            final(self).original_regions@ == old(self).original_regions@,
            r == (old(self).changes@.len() > 0),
            r ==> final(self).changes@ == old(self).changes@.drop_last(),
            !r ==> final(self).changes@ == old(self).changes@,
    {
        let popped = self.changes.pop_back();
        proof {
            if old(self).changes@.len() > 0 {
                assert forall|nn: int| 0 <= nn <= self.changes@.len() implies layout_ok(
                    layout_of(self.original_regions@, #[trigger] self.changes@.take(nn)),
                    self.usable_start,
                    self.usable_end,
                ) by {
                    assert(self.changes@.take(nn) =~= old(self).changes@.take(nn));
                }
            }
        }
        popped.is_some()
    }

    /// Drop all pending changes, returning to the initial layout.
    pub fn reset(&mut self)
        requires
            old(self).inv(),
        ensures
            final(self).inv(),
            final(self).usable_start == old(self).usable_start,
            final(self).usable_end == old(self).usable_end,
            final(self).original_regions@ == old(self).original_regions@,
            final(self).changes@.len() == 0,
    {
        self.changes.clear();
        proof {
            assert forall|nn: int| 0 <= nn <= self.changes@.len() implies layout_ok(
                layout_of(self.original_regions@, #[trigger] self.changes@.take(nn)),
                self.usable_start,
                self.usable_end,
            ) by {
                assert(self.changes@.take(nn) =~= old(self).changes@.take(0));
            }
        }
    }

    /// Check if there are any pending changes.
    pub fn has_changes(&self) -> (r: bool)
        ensures
            r == (self.changes@.len() > 0),
    {
        self.changes.len() > 0
    }

    /// Get the list of pending changes, oldest first.
    pub fn changes(&self) -> (r: &VecDeque<Change>)
        ensures
            r == &self.changes,
    {
        &self.changes
    }

    /// Get the size of the usable disk window in bytes.
    pub fn usable_size(&self) -> (r: u64)
        requires
            self.usable_start <= self.usable_end,
        ensures
            r == self.usable_end - self.usable_start,
    {
        self.usable_end - self.usable_start
    }

    /// Get the usable disk window as `(start, end)` byte offsets.
    pub fn offsets(&self) -> (r: (u64, u64))
        ensures
            r.0 == self.usable_start,
            r.1 == self.usable_end,
    {
        (self.usable_start, self.usable_end)
    }

    /// Get a human-readable description of the pending changes, one
    /// numbered line per change, with positions relative to the usable
    /// window's size.
    pub fn describe_changes(&self) -> (r: String)
        requires
            self.inv(),
        ensures
            self.changes@.len() == 0 ==> r@ == "No pending changes"@,
            self.changes@.len() > 0 ==> r@ == "Pending changes:\n"@ + spec_change_lines(
                self.changes@,
                (self.usable_end - self.usable_start) as u64,
            ),
    {
        if self.changes.len() == 0 {
            return "No pending changes".to_owned();
        }
        let total = self.usable_size();
        let orig_len = self.original_regions.len();
        let mut out = "Pending changes:\n".to_owned();
        let n = self.changes.len();
        let mut i: usize = 0;
        proof {
            assert(self.changes@.take(0) =~= Seq::<Change>::empty());
        }
        while i < n
            invariant
                0 <= i <= n,
                n == self.changes@.len(),
                self.inv(),
                total == self.usable_end - self.usable_start,
                orig_len == self.original_regions@.len(),
                out@ == "Pending changes:\n"@ + spec_change_lines(
                    self.changes@.take(i as int),
                    total,
                ),
            decreases n - i,
        {
            proof {
                lemma_change_bounds(*self, i as int);
                assert(self.changes@.take(i + 1).drop_last() =~= self.changes@.take(i as int));
                assert(self.changes@.take(i + 1).last() == self.changes@[i as int]);
                assert(self.changes@.take(i + 1).len() == i + 1);
            }
            out.append("  ");
            let num = crate::encoding::u64_to_string((i + 1) as u64);
            out.append(num.as_str());
            out.append(": ");
            let line = self.changes[i].describe(total);
            out.append(line.as_str());
            out.append("\n");
            proof {
                assert(out@ =~= "Pending changes:\n"@ + spec_change_lines(
                    self.changes@.take(i + 1),
                    total,
                ));
            }
            i += 1;
        }
        proof {
            assert(self.changes@.take(n as int) =~= self.changes@);
        }
        out
    }

    /// Plan a clean partition layout: drop the pending changes and the
    /// initial regions, leaving an empty disk to plan over.
    pub fn plan_initialize_disk(&mut self) -> (r: Result<(), PlanError>)
        requires
            old(self).inv(),
        ensures
            final(self).inv(),
            final(self).usable_start == old(self).usable_start,
            final(self).usable_end == old(self).usable_end,
            final(self).original_regions@.len() == 0,
            final(self).changes@.len() == 0,
            r is Ok,
    {
        self.changes.clear();
        self.original_regions.clear();
        proof {
            assert forall|nn: int| 0 <= nn <= self.changes@.len() implies layout_ok(
                layout_of(self.original_regions@, #[trigger] self.changes@.take(nn)),
                self.usable_start,
                self.usable_end,
            ) by {
                assert(self.changes@.take(nn) =~= Seq::<Change>::empty());
                assert(layout_of(self.original_regions@, self.changes@.take(nn)) =~= Seq::<
                    Region,
                >::empty());
            }
        }
        Ok(())
    }
}

/// The pending changes rendered as numbered lines, one per change.
pub open spec fn spec_change_lines(cs: Seq<Change>, disk_size: u64) -> Seq<char>
    decreases cs.len(),
{
    if cs.len() == 0 {
        Seq::empty()
    } else {
        spec_change_lines(cs.drop_last(), disk_size) + "  "@ + crate::encoding::spec_decimal(
            cs.len() as int,
        ) + ": "@ + cs.last().spec_describe(disk_size) + "\n"@
    }
}

/// Every queued addition covers a non-empty region, and every queued
/// deletion names an initial region: both follow from the planner
/// invariant, the addition from the layout of the queue prefix ending at
/// it.
pub proof fn lemma_change_bounds(p: Planner, k: int)
    requires
        p.inv(),
        0 <= k < p.changes@.len(),
    ensures
        p.changes@[k] matches Change::AddPartition { start, end } ==> start < end,
        p.changes@[k] matches Change::DeletePartition { original_index } ==> original_index
            < p.original_regions@.len(),
{
    let c = p.changes@[k];
    if c is AddPartition {
        let start = c->AddPartition_start;
        let end = c->AddPartition_end;
        let prefix = p.changes@.take(k + 1);
        assert(prefix.drop_last() =~= p.changes@.take(k));
        assert(prefix.last() == p.changes@[k]);
        let layout = layout_of(p.original_regions@, prefix);
        assert(layout_ok(layout, p.usable_start, p.usable_end));
        let region = Region { start, end };
        assert(layout[layout.len() - 1] == region);
    }
}

proof fn lemma_sector_bytes(start: u64, end: u64, sectors: u64)
    requires
        start < end <= sectors,
        sectors <= crate::disk::MAX_SECTORS,
    ensures
        start * 512 < end * 512 <= sectors * 512,
        sectors * 512 <= u64::MAX - PARTITION_ALIGNMENT,
{
    assert(start * 512 < end * 512 <= sectors * 512 && sectors * 512 <= crate::disk::MAX_SECTORS
        * 512) by (nonlinear_arith)
        requires
            start < end <= sectors <= crate::disk::MAX_SECTORS,
    ;
}

proof fn lemma_sector_disjoint(a: crate::partition::Partition, b: crate::partition::Partition)
    requires
        a.end <= b.start || b.end <= a.start,
    ensures
        a.end * 512 <= b.start * 512 || b.end * 512 <= a.start * 512,
{
    assert((a.end <= b.start ==> a.end * 512 <= b.start * 512) && (b.end <= a.start ==> b.end * 512
        <= a.start * 512)) by (nonlinear_arith);
}

/// Queuing a region addition leaves the surviving initial regions alone
/// and appends the region to the layout.
proof fn lemma_layout_push_add(orig: Seq<Region>, cs: Seq<Change>, start: u64, end: u64)
    ensures
        layout_of(orig, cs.push(Change::AddPartition { start, end })) == layout_of(orig, cs).push(
            Region { start, end },
        ),
{
    let c = Change::AddPartition { start, end };
    assert forall|i: int| index_deleted(cs, i) <==> index_deleted(cs.push(c), i) by {
        if index_deleted(cs, i) {
            let k = choose|k: int|
                0 <= k < cs.len() && ((#[trigger] cs[k]) matches Change::DeletePartition {
                    original_index,
                } && original_index == i);
            assert(cs.push(c)[k] == cs[k]);
        }
        if index_deleted(cs.push(c), i) {
            let k = choose|k: int|
                0 <= k < cs.push(c).len() && ((#[trigger] cs.push(c)[k])
                    matches Change::DeletePartition { original_index } && original_index == i);
            if k < cs.len() {
                assert(cs[k] == cs.push(c)[k]);
            }
        }
    }
    lemma_remaining_same_deletes(orig, cs, cs.push(c));
    assert(cs.push(c).drop_last() =~= cs);
    assert(layout_of(orig, cs.push(c)) =~= layout_of(orig, cs).push(Region { start, end }));
}

/// Two change queues with the same queued deletions keep the same initial
/// regions.
proof fn lemma_remaining_same_deletes(orig: Seq<Region>, cs1: Seq<Change>, cs2: Seq<Change>)
    requires
        forall|i: int| index_deleted(cs1, i) <==> index_deleted(cs2, i),
    ensures
        remaining_initial(orig, cs1) == remaining_initial(orig, cs2),
    decreases orig.len(),
{
    if orig.len() > 0 {
        lemma_remaining_same_deletes(orig.drop_last(), cs1, cs2);
    }
}

/// A queue without deletions keeps every initial region.
proof fn lemma_remaining_no_deletes(orig: Seq<Region>, cs: Seq<Change>)
    requires
        forall|i: int| !index_deleted(cs, i),
    ensures
        remaining_initial(orig, cs) == orig,
    decreases orig.len(),
{
    if orig.len() > 0 {
        lemma_remaining_no_deletes(orig.drop_last(), cs);
        assert(remaining_initial(orig, cs) =~= orig);
    } else {
        assert(remaining_initial(orig, cs) =~= orig);
    }
}

/// Every surviving initial region is an initial region whose index is not
/// queued for deletion.
proof fn lemma_remaining_member(orig: Seq<Region>, cs: Seq<Change>, k: int)
    requires
        0 <= k < remaining_initial(orig, cs).len(),
    ensures
        exists|i: int|
            0 <= i < orig.len() && orig[i] == remaining_initial(orig, cs)[k] && !index_deleted(
                cs,
                i,
            ),
    decreases orig.len(),
{
    if orig.len() > 0 {
        let rest = remaining_initial(orig.drop_last(), cs);
        if index_deleted(cs, orig.len() - 1) {
            lemma_remaining_member(orig.drop_last(), cs, k);
        } else {
            if k < rest.len() {
                lemma_remaining_member(orig.drop_last(), cs, k);
            } else {
                assert(orig[orig.len() - 1] == remaining_initial(orig, cs)[k] && !index_deleted(
                    cs,
                    orig.len() - 1,
                ));
            }
        }
    }
}

/// An initial region whose index is not queued for deletion survives.
proof fn lemma_remaining_contains(orig: Seq<Region>, cs: Seq<Change>, i: int)
    requires
        0 <= i < orig.len(),
        !index_deleted(cs, i),
    ensures
        remaining_initial(orig, cs).contains(orig[i]),
    decreases orig.len(),
{
    if orig.len() > 0 {
        let rest = remaining_initial(orig.drop_last(), cs);
        if i == orig.len() - 1 {
            assert(remaining_initial(orig, cs)[rest.len() as int] == orig[i]);
        } else {
            lemma_remaining_contains(orig.drop_last(), cs, i);
            let k = choose|k: int| 0 <= k < rest.len() && rest[k] == orig.drop_last()[i];
            assert(remaining_initial(orig, cs)[k] == orig[i]);
        }
    }
}

/// Queuing one more deletion keeps the layout within the window and free
/// of overlaps, provided every prefix already was.
proof fn lemma_layout_push_delete(orig: Seq<Region>, cs: Seq<Change>, index: usize, us: u64, ue: u64)
    requires
        forall|n: int|
            0 <= n <= cs.len() ==> layout_ok(layout_of(orig, #[trigger] cs.take(n)), us, ue),
    ensures
        layout_ok(layout_of(orig, cs.push(Change::DeletePartition { original_index: index })), us, ue),
{
    let c = Change::DeletePartition { original_index: index };
    let cs2 = cs.push(c);
    assert(cs2.drop_last() =~= cs);
    assert(cs.take(cs.len() as int) =~= cs);
    assert(cs.take(0) =~= Seq::<Change>::empty());
    lemma_remaining_no_deletes(orig, cs.take(0));
    // the initial regions themselves are window-bounded and disjoint
    assert(layout_of(orig, cs.take(0)) == orig + added_regions(cs.take(0)));
    assert(forall|i: int| 0 <= i < orig.len() ==> (orig + added_regions(cs.take(0)))[i] == orig[i]);
    let old_layout = layout_of(orig, cs);
    let rem2 = remaining_initial(orig, cs2);
    let new_layout = layout_of(orig, cs2);
    assert(added_regions(cs2) == added_regions(cs));

    // bounds: every element of rem2 is an original region, in window by
    // the n == 0 prefix; every added region is in the old layout.
    assert forall|i: int| 0 <= i < new_layout.len() implies us <= (
    #[trigger] new_layout[i]).start < new_layout[i].end <= ue by {
        if i < rem2.len() {
            lemma_remaining_member(orig, cs2, i);
            let oi = choose|oi: int|
                0 <= oi < orig.len() && orig[oi] == rem2[i] && !index_deleted(cs2, oi);
            assert((orig + added_regions(cs.take(0)))[oi] == orig[oi]);
            assert(layout_ok(layout_of(orig, cs.take(0)), us, ue));
        } else {
            let j = i - rem2.len() + remaining_initial(orig, cs).len();
            assert(old_layout[j] == new_layout[i]);
            assert(layout_ok(old_layout, us, ue));
        }
    }
    // disjointness: map both indices into the old layout, which is
    // disjoint; deletions never add a region, so distinct positions map
    // to distinct positions.
    assert forall|a: int, b: int|
        0 <= a < new_layout.len() && 0 <= b < new_layout.len() && a != b implies !(
    #[trigger] new_layout[a]).spec_overlaps(#[trigger] new_layout[b]) by {
        lemma_delete_layout_disjoint(orig, cs, index, us, ue, a, b);
    }
}

/// Helper for `lemma_layout_push_delete`: two distinct positions of the
/// layout after one more deletion hold non-overlapping regions.
proof fn lemma_delete_layout_disjoint(
    orig: Seq<Region>,
    cs: Seq<Change>,
    index: usize,
    us: u64,
    ue: u64,
    a: int,
    b: int,
)
    requires
        forall|n: int|
            0 <= n <= cs.len() ==> layout_ok(layout_of(orig, #[trigger] cs.take(n)), us, ue),
        0 <= a < layout_of(orig, cs.push(Change::DeletePartition { original_index: index })).len(),
        0 <= b < layout_of(orig, cs.push(Change::DeletePartition { original_index: index })).len(),
        a != b,
    ensures
        !layout_of(orig, cs.push(Change::DeletePartition { original_index: index }))[a].spec_overlaps(
            layout_of(orig, cs.push(Change::DeletePartition { original_index: index }))[b],
        ),
{
    let c = Change::DeletePartition { original_index: index };
    let cs2 = cs.push(c);
    assert(cs2.drop_last() =~= cs);
    assert(cs.take(cs.len() as int) =~= cs);
    assert(cs.take(0) =~= Seq::<Change>::empty());
    lemma_remaining_no_deletes(orig, cs.take(0));
    let old_layout = layout_of(orig, cs);
    let old_rem = remaining_initial(orig, cs);
    let rem2 = remaining_initial(orig, cs2);
    let new_layout = layout_of(orig, cs2);
    assert(added_regions(cs2) == added_regions(cs));
    assert(layout_ok(old_layout, us, ue));
    assert(layout_ok(layout_of(orig, cs.take(0)), us, ue));

    let x = new_layout[a];
    let y = new_layout[b];
    if a < rem2.len() && b < rem2.len() {
        // both survive from the initial regions: disjoint by the empty
        // prefix, at distinct initial indices
        lemma_remaining_distinct_sources(orig, cs2, a, b, us, ue);
    } else if a >= rem2.len() && b >= rem2.len() {
        let ja = a - rem2.len() + old_rem.len();
        let jb = b - rem2.len() + old_rem.len();
        assert(old_layout[ja] == x && old_layout[jb] == y && ja != jb);
    } else {
        let (ri, ai) = if a < rem2.len() {
            (a, b)
        } else {
            (b, a)
        };
        // one surviving initial region against one added region
        lemma_remaining_member(orig, cs2, ri);
        let oi = choose|oi: int|
            0 <= oi < orig.len() && orig[oi] == rem2[ri] && !index_deleted(cs2, oi);
        assert(!index_deleted(cs, oi));
        lemma_remaining_contains(orig, cs, oi);
        let k = choose|k: int| 0 <= k < old_rem.len() && old_rem[k] == orig[oi];
        let ja = ai - rem2.len() + old_rem.len();
        assert(old_layout[k] == rem2[ri]);
        assert(old_layout[ja] == new_layout[ai]);
        assert(k < old_rem.len() <= ja);
        assert(!old_layout[k].spec_overlaps(old_layout[ja]));
    }
}

/// Two distinct surviving positions come from two distinct initial
/// regions, which the empty prefix shows to be disjoint.
proof fn lemma_remaining_distinct_sources(
    orig: Seq<Region>,
    cs: Seq<Change>,
    a: int,
    b: int,
    us: u64,
    ue: u64,
)
    requires
        layout_ok(orig, us, ue),
        0 <= a < remaining_initial(orig, cs).len(),
        0 <= b < remaining_initial(orig, cs).len(),
        a != b,
    ensures
        !remaining_initial(orig, cs)[a].spec_overlaps(remaining_initial(orig, cs)[b]),
    decreases orig.len(),
{
    let rem = remaining_initial(orig, cs);
    if orig.len() > 0 {
        let rest = remaining_initial(orig.drop_last(), cs);
        let front = orig.drop_last();
        if index_deleted(cs, orig.len() - 1) {
            lemma_remaining_distinct_sources(front, cs, a, b, us, ue);
        } else {
            let (lo, hi) = if a < b {
                (a, b)
            } else {
                (b, a)
            };
            if hi < rest.len() {
                lemma_remaining_distinct_sources(front, cs, a, b, us, ue);
            } else {
                // hi is the newly kept last region; lo survives from the front
                lemma_remaining_member(front, cs, lo);
                let oi = choose|oi: int|
                    0 <= oi < front.len() && front[oi] == rest[lo] && !index_deleted(cs, oi);
                assert(orig[oi] == rem[lo]);
                assert(rem[hi] == orig[orig.len() - 1]);
                assert(!orig[oi].spec_overlaps(orig[orig.len() - 1]));
            }
        }
    }
}

/// The rounded tenths of `size` in the given unit (half rounds up).
pub open spec fn spec_tenths(size: int, unit: int) -> int {
    (size * 10 + unit / 2) / unit
}

/// A size in a unit, with one decimal digit and the unit's suffix.
pub open spec fn spec_size_in_unit(size: int, unit: int, suffix: Seq<char>) -> Seq<char> {
    let t = spec_tenths(size, unit);
    crate::encoding::spec_decimal(t / 10) + seq!['.'] + seq![crate::encoding::spec_hex_digit(
        t % 10,
    )] + suffix
}

/// A byte size rendered with the largest binary unit it reaches, to one
/// decimal digit; sizes below one KiB are plain byte counts.
pub open spec fn spec_format_size(size: int) -> Seq<char> {
    if size >= 1099511627776 {
        spec_size_in_unit(size, 1099511627776, "TiB"@)
    } else if size >= 1073741824 {
        spec_size_in_unit(size, 1073741824, "GiB"@)
    } else if size >= 1048576 {
        spec_size_in_unit(size, 1048576, "MiB"@)
    } else if size >= 1024 {
        spec_size_in_unit(size, 1024, "KiB"@)
    } else {
        crate::encoding::spec_decimal(size) + "B"@
    }
}

/// The percentage of `total` that `pos` reaches, rounded down; an empty
/// total is all percent values at once, so zero maps to zero and anything
/// else saturates.
pub open spec fn spec_percent(pos: int, total: int) -> int {
    if total == 0 {
        if pos == 0 {
            0
        } else {
            u64::MAX as int
        }
    } else if pos * 100 / total > u64::MAX {
        u64::MAX as int
    } else {
        pos * 100 / total
    }
}

/// A position as a percentage of the total and an absolute size.
pub open spec fn spec_format_position(pos: int, total: int) -> Seq<char> {
    crate::encoding::spec_decimal(spec_percent(pos, total)) + "% ("@ + spec_format_size(pos)
        + ")"@
}

fn format_size_in_unit(size: u64, unit: u64, suffix: &str) -> (r: String)
    requires
        1024 <= unit,
    ensures
        r@ == spec_size_in_unit(size as int, unit as int, suffix@),
{
    let t128 = (size as u128 * 10 + (unit / 2) as u128) / (unit as u128);
    proof {
        assert(size as int * 10 + (unit as int) / 2 < (u64::MAX as int + 1) * (unit as int)) by (
        nonlinear_arith)
            requires
                unit >= 1024,
                size <= u64::MAX,
        ;
        assert((size as int * 10 + (unit as int) / 2) / (unit as int) <= u64::MAX) by (
        nonlinear_arith)
            requires
                unit as int > 0,
                size as int * 10 + (unit as int) / 2 < (u64::MAX as int + 1) * (unit as int),
        ;
    }
    let t = t128 as u64;
    let mut out = crate::encoding::u64_to_string(t / 10);
    out.append(".");
    crate::encoding::push_digit(&mut out, t % 10);
    out.append(suffix);
    proof {
        reveal_strlit(".");
        assert(out@ =~= spec_size_in_unit(size as int, unit as int, suffix@));
    }
    out
}

/// Format a byte size into a human-readable string with the largest
/// binary unit it reaches, to one decimal digit.
pub fn format_size(size: u64) -> (r: String)
    ensures
        r@ == spec_format_size(size as int),
{
    if size >= 1099511627776 {
        format_size_in_unit(size, 1099511627776, "TiB")
    } else if size >= 1073741824 {
        format_size_in_unit(size, 1073741824, "GiB")
    } else if size >= 1048576 {
        format_size_in_unit(size, 1048576, "MiB")
    } else if size >= 1024 {
        format_size_in_unit(size, 1024, "KiB")
    } else {
        let mut out = crate::encoding::u64_to_string(size);
        out.append("B");
        proof {
            assert(out@ =~= spec_format_size(size as int));
        }
        out
    }
}

/// Format a disk position as a percentage of the total and an absolute
/// size.
pub fn format_position(pos: u64, total: u64) -> (r: String)
    ensures
        r@ == spec_format_position(pos as int, total as int),
{
    let pct: u64 = if total == 0 {
        if pos == 0 {
            0
        } else {
            u64::MAX
        }
    } else {
        let w = (pos as u128 * 100) / (total as u128);
        if w > u64::MAX as u128 {
            u64::MAX
        } else {
            w as u64
        }
    };
    proof {
        assert(pct == spec_percent(pos as int, total as int));
    }
    let mut out = crate::encoding::u64_to_string(pct);
    out.append("% (");
    let size_part = format_size(pos);
    out.append(size_part.as_str());
    out.append(")");
    proof {
        assert(out@ =~= spec_format_position(pos as int, total as int));
    }
    out
}

impl Clone for Planner {
    /// Cloning a planner keeps its window, initial regions and queued
    /// changes.
    fn clone(&self) -> (res: Self)
        ensures
            res.usable_start == self.usable_start,
            res.usable_end == self.usable_end,
            res.changes@ == self.changes@,
            res.original_regions@ == self.original_regions@,
    {
        let res = Planner {
            usable_start: self.usable_start,
            usable_end: self.usable_end,
            changes: self.changes.clone(),
            original_regions: self.original_regions.clone(),
        };
        proof {
            assert(res.changes@ =~= self.changes@);
            assert(res.original_regions@ =~= self.original_regions@);
        }
        res
    }
}

} // verus!
