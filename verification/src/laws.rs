//! The guarantees this crate makes, stated as standalone proofs: layout
//! validity, alignment of accepted additions, undo round-trips, and the
//! determinism of strategy application.

use vstd::prelude::*;

use crate::device::BlockDevice;
use crate::planner::{
    layout_of, plan_add_decision, resolved_end, resolved_start, Change, PlanError, Planner,
    Region, PARTITION_ALIGNMENT,
};
use crate::strategy::{apply_outcome, AllocationStrategy, PartitionRequest};

verus! {

/// Every partition of a well-formed block device starts before it ends,
/// ends within the device, and carries a partition number no other
/// partition of the device carries.
pub proof fn lemma_device_partitions_valid(d: BlockDevice)
    requires
        d.wf(),
    ensures
        forall|i: int|
            0 <= i < d.spec_partitions().len() ==> (#[trigger] d.spec_partitions()[i]).start < d.spec_partitions()[i].end
                <= d.spec_sectors(),
        forall|i: int, j: int|
            0 <= i < j < d.spec_partitions().len() ==> (#[trigger] d.spec_partitions()[i]).number
                != (#[trigger] d.spec_partitions()[j]).number,
{
}

/// In every planner state, no two regions of the effective layout overlap:
/// for any two distinct regions, one ends at or before the other starts.
pub proof fn lemma_layout_regions_disjoint(p: Planner, a: int, b: int)
    requires
        p.inv(),
        0 <= a < p.spec_layout().len(),
        0 <= b < p.spec_layout().len(),
        a != b,
    ensures
        p.spec_layout()[a].end <= p.spec_layout()[b].start || p.spec_layout()[b].end
            <= p.spec_layout()[a].start,
{
    let full = p.changes@.len() as int;
    assert(p.changes@.take(full) =~= p.changes@);
    assert(!p.spec_layout()[a].spec_overlaps(p.spec_layout()[b]));
}

/// In every planner state, every region of the effective layout lies
/// inside the usable window.
pub proof fn lemma_layout_regions_in_window(p: Planner, a: int)
    requires
        p.inv(),
        0 <= a < p.spec_layout().len(),
    ensures
        p.usable_start <= p.spec_layout()[a].start,
        p.spec_layout()[a].start < p.spec_layout()[a].end,
        p.spec_layout()[a].end <= p.usable_end,
{
    let full = p.changes@.len() as int;
    assert(p.changes@.take(full) =~= p.changes@);
}

/// When the usable window is itself 1 MiB aligned, every addition the
/// planner accepts is 1 MiB aligned at both ends. (A window that starts
/// or ends off the alignment grid clamps additions to its own edges, so
/// the guarantee is stated for aligned windows.)
pub proof fn lemma_accepted_add_aligned(p: Planner, start: u64, end: u64)
    requires
        p.inv(),
        p.usable_start as int % PARTITION_ALIGNMENT as int == 0,
        p.usable_end as int % PARTITION_ALIGNMENT as int == 0,
        plan_add_decision(p.usable_start, p.usable_end, p.spec_layout(), start, end) is Ok,
    ensures
        ({
            let c = plan_add_decision(
                p.usable_start,
                p.usable_end,
                p.spec_layout(),
                start,
                end,
            )->Ok_0;
            c->AddPartition_start as int % PARTITION_ALIGNMENT as int == 0
                && c->AddPartition_end as int % PARTITION_ALIGNMENT as int == 0
        }),
{
    crate::planner::lemma_align_props(start as int, PARTITION_ALIGNMENT as int);
    crate::planner::lemma_align_props(end as int, PARTITION_ALIGNMENT as int);
}

/// Queuing an accepted addition and undoing it leaves the effective
/// layout exactly where it was.
pub proof fn lemma_add_then_undo(
    orig: Seq<Region>,
    cs: Seq<Change>,
    us: u64,
    ue: u64,
    start: u64,
    end: u64,
)
    requires
        plan_add_decision(us, ue, layout_of(orig, cs), start, end) matches Ok(c),
    ensures
        layout_of(
            orig,
            cs.push(plan_add_decision(us, ue, layout_of(orig, cs), start, end)->Ok_0).drop_last(),
        ) == layout_of(orig, cs),
{
    let c = plan_add_decision(us, ue, layout_of(orig, cs), start, end)->Ok_0;
    assert(cs.push(c).drop_last() =~= cs);
}

/// Applying one strategy to two planners in identical states produces
/// identical states and identical results: the outcome is a function of
/// the strategy and the starting state alone.
pub proof fn lemma_apply_deterministic(
    alloc: AllocationStrategy,
    reqs: Seq<PartitionRequest>,
    p1: Planner,
    p2: Planner,
)
    requires
        p1.usable_start == p2.usable_start,
        p1.usable_end == p2.usable_end,
        p1.original_regions@ == p2.original_regions@,
        p1.changes@ == p2.changes@,
    ensures
        apply_outcome(
            alloc,
            reqs,
            p1.usable_start,
            p1.usable_end,
            p1.original_regions@,
            p1.changes@,
        ) == apply_outcome(
            alloc,
            reqs,
            p2.usable_start,
            p2.usable_end,
            p2.original_regions@,
            p2.changes@,
        ),
{
}

/// Two adjacent aligned regions `[a, b)` and `[b, c)` are both accepted:
/// planning the first and then the second succeeds whenever `[a, c)` is
/// inside the window and clear of the existing layout.
pub proof fn lemma_adjacent_regions_accepted(p: Planner, a: u64, b: u64, c: u64)
    requires
        p.inv(),
        a as int % PARTITION_ALIGNMENT as int == 0,
        b as int % PARTITION_ALIGNMENT as int == 0,
        c as int % PARTITION_ALIGNMENT as int == 0,
        p.usable_start <= a,
        a < b < c,
        c <= p.usable_end,
        forall|i: int|
            0 <= i < p.spec_layout().len() ==> !(#[trigger] p.spec_layout()[i]).spec_overlaps(
                Region { start: a, end: c },
            ),
    ensures
        plan_add_decision(p.usable_start, p.usable_end, p.spec_layout(), a, b) == Ok::<
            Change,
            PlanError,
        >(Change::AddPartition { start: a, end: b }),
        plan_add_decision(
            p.usable_start,
            p.usable_end,
            p.spec_layout().push(Region { start: a, end: b }),
            b,
            c,
        ) == Ok::<Change, PlanError>(Change::AddPartition { start: b, end: c }),
{
    let layout = p.spec_layout();
    assert(resolved_start(p.usable_start, a) == a);
    assert(resolved_end(p.usable_end, b) == b);
    assert forall|i: int| 0 <= i < layout.len() implies !(#[trigger] layout[i]).spec_overlaps(
        Region { start: a, end: b },
    ) by {
        assert(!layout[i].spec_overlaps(Region { start: a, end: c }));
    }
    let layout2 = layout.push(Region { start: a, end: b });
    assert forall|i: int| 0 <= i < layout2.len() implies !(#[trigger] layout2[i]).spec_overlaps(
        Region { start: b, end: c },
    ) by {
        if i < layout.len() {
            assert(!layout[i].spec_overlaps(Region { start: a, end: c }));
        }
    }
}

/// A request whose region is empty after alignment is rejected with
/// `RegionOutOfBounds`.
pub proof fn lemma_zero_size_rejected(p: Planner, start: u64, end: u64)
    requires
        p.inv(),
        resolved_end(p.usable_end, end) <= resolved_start(p.usable_start, start),
    ensures
        plan_add_decision(p.usable_start, p.usable_end, p.spec_layout(), start, end)
            matches Err(e) && e is RegionOutOfBounds,
{
}

/// An already aligned position is never silently moved: when clamping to
/// the window would move it, the request is rejected with
/// `RegionOutOfBounds`; and inside the window it resolves to itself.
pub proof fn lemma_aligned_input_not_moved(p: Planner, start: u64, end: u64)
    requires
        p.inv(),
    ensures
        start as int % PARTITION_ALIGNMENT as int == 0 && resolved_start(p.usable_start, start)
            != start ==> (plan_add_decision(
            p.usable_start,
            p.usable_end,
            p.spec_layout(),
            start,
            end,
        ) matches Err(e) && e is RegionOutOfBounds),
        end as int % PARTITION_ALIGNMENT as int == 0 && resolved_end(p.usable_end, end) != end
            ==> (plan_add_decision(p.usable_start, p.usable_end, p.spec_layout(), start, end)
            matches Err(e) && e is RegionOutOfBounds),
        start as int % PARTITION_ALIGNMENT as int == 0 && p.usable_start <= start ==> resolved_start(
            p.usable_start,
            start,
        ) == start,
        end as int % PARTITION_ALIGNMENT as int == 0 && end <= p.usable_end ==> resolved_end(
            p.usable_end,
            end,
        ) == end,
{
}

} // verus!
