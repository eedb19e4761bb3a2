//! High-level partition allocation strategies.
//!
//! A [`Strategy`] pairs an allocation policy (whole disk, largest free
//! region, first fit, or a specific region) with an ordered list of
//! [`PartitionRequest`]s, and compiles them into concrete planner changes.

use vstd::prelude::*;

use crate::planner::{
    layout_of, plan_add_decision, Change, PlanError, Planner, Region, PARTITION_ALIGNMENT,
};

verus! {

/// Strategy for allocating partitions.
#[derive(Debug, Clone, Copy)]
pub enum AllocationStrategy {
    /// Initialize a clean partition layout using the entire usable window.
    /// This removes all existing partitions.
    InitializeWholeDisk,
    /// Use the largest free region of the existing layout.
    LargestFree,
    /// Use the first free region of the existing layout.
    FirstFit,
    /// Use a specific region verbatim.
    SpecificRegion(Region),
}

/// Defines how to size a partition within its allocated region.
#[derive(Debug, Clone, Copy)]
pub enum SizeRequirement {
    /// Exact size in bytes.
    Exact(u64),
    /// Minimum size in bytes, using more if available.
    AtLeast(u64),
    /// Between `min` and `max` bytes.
    Range { min: u64, max: u64 },
    /// Use all remaining space.
    Remaining,
}

/// A partition request for the strategy to plan.
#[derive(Debug, Clone, Copy)]
pub struct PartitionRequest {
    pub size: SizeRequirement,
}

/// Handles planning partition layouts according to a specific allocation
/// policy.
#[derive(Debug)]
pub struct Strategy {
    pub allocation: AllocationStrategy,
    pub requests: Vec<PartitionRequest>,
}

/// `a + b` truncated into a `u64`. Every use below is guarded by bounds
/// that keep the sum in range.
pub open spec fn add_u64(a: u64, b: u64) -> u64 {
    (a + b) as u64
}

/// Clip a size to an optional maximum.
pub open spec fn clip(base: int, max: Option<u64>) -> int {
    match max {
        Some(m) => if base > m {
            m as int
        } else {
            base
        },
        None => base,
    }
}

/// The contribution of one request to the fixed total.
pub open spec fn fixed_part(r: PartitionRequest) -> int {
    match r.size {
        SizeRequirement::Exact(n) => n as int,
        _ => 0,
    }
}

/// The flexible entry (minimum, optional maximum) one request contributes.
pub open spec fn flex_part(r: PartitionRequest) -> Seq<(u64, Option<u64>)> {
    match r.size {
        SizeRequirement::Exact(_) => Seq::empty(),
        SizeRequirement::AtLeast(n) => seq![(n, None::<u64>)],
        SizeRequirement::Range { min, max } => seq![(min, Some(max))],
        SizeRequirement::Remaining => seq![(0u64, None::<u64>)],
    }
}

/// Sum of the `Exact` request sizes.
pub open spec fn total_fixed(reqs: Seq<PartitionRequest>) -> int
    decreases reqs.len(),
{
    if reqs.len() == 0 {
        0
    } else {
        fixed_part(reqs[0]) + total_fixed(reqs.drop_first())
    }
}

/// The flexible requests in order, each as its minimum size and optional
/// maximum: `AtLeast(n)` is `(n, None)`, `Range { min, max }` is
/// `(min, Some(max))`, and `Remaining` is `(0, None)`.
pub open spec fn flex_list(reqs: Seq<PartitionRequest>) -> Seq<(u64, Option<u64>)>
    decreases reqs.len(),
{
    if reqs.len() == 0 {
        Seq::empty()
    } else {
        flex_part(reqs[0]) + flex_list(reqs.drop_first())
    }
}

/// Sum of the flexible minima.
pub open spec fn min_flexible(flex: Seq<(u64, Option<u64>)>) -> int
    decreases flex.len(),
{
    if flex.len() == 0 {
        0
    } else {
        flex[0].0 + min_flexible(flex.drop_first())
    }
}

/// Sum of the flexible allocation sizes for a given per-request share.
pub open spec fn flex_alloc(flex: Seq<(u64, Option<u64>)>, per: u64) -> int
    decreases flex.len(),
{
    if flex.len() == 0 {
        0
    } else {
        clip(flex[0].0 + per, flex[0].1) + flex_alloc(flex.drop_first(), per)
    }
}

/// Insert a region into a start-sorted sequence, after any region with
/// the same or an earlier start.
pub open spec fn spec_insert_by_start(s: Seq<Region>, r: Region) -> Seq<Region>
    decreases s.len(),
{
    if s.len() == 0 {
        seq![r]
    } else if r.start < s[0].start {
        seq![r] + s
    } else {
        seq![s[0]] + spec_insert_by_start(s.drop_first(), r)
    }
}

/// Stable insertion sort of regions by start position.
pub open spec fn spec_sort_by_start(s: Seq<Region>) -> Seq<Region>
    decreases s.len(),
{
    if s.len() == 0 {
        Seq::empty()
    } else {
        spec_insert_by_start(spec_sort_by_start(s.drop_last()), s.last())
    }
}

/// The gaps a start-sorted layout leaves between `current` and
/// `window_end`, scanned left to right.
pub open spec fn spec_gaps(sorted: Seq<Region>, current: u64, window_end: u64) -> Seq<Region>
    decreases sorted.len(),
{
    if sorted.len() == 0 {
        if current < window_end {
            seq![Region { start: current, end: window_end }]
        } else {
            Seq::empty()
        }
    } else {
        let head = sorted[0];
        let rest = spec_gaps(sorted.drop_first(), head.end, window_end);
        if head.start > current {
            seq![Region { start: current, end: head.start }] + rest
        } else {
            rest
        }
    }
}

/// The free regions of a layout within the window `[us, ue)`, in
/// ascending start order.
pub open spec fn spec_free_regions(layout: Seq<Region>, us: u64, ue: u64) -> Seq<Region> {
    spec_gaps(spec_sort_by_start(layout), us, ue)
}

/// The region of greatest size; among equals, the last one.
pub open spec fn spec_largest(s: Seq<Region>) -> Region
    recommends
        s.len() > 0,
    decreases s.len(),
{
    if s.len() <= 1 {
        s[0]
    } else {
        let m = spec_largest(s.drop_last());
        if s.last().spec_size() >= m.spec_size() {
            s.last()
        } else {
            m
        }
    }
}

/// The target region an allocation policy selects, or the error it
/// raises. `InitializeWholeDisk` also clears the planner, so the state it
/// selects over is the empty layout.
pub open spec fn spec_target(
    alloc: AllocationStrategy,
    us: u64,
    ue: u64,
    layout: Seq<Region>,
) -> Result<Region, PlanError> {
    match alloc {
        AllocationStrategy::InitializeWholeDisk => Ok(Region { start: us, end: ue }),
        AllocationStrategy::LargestFree => {
            let free = spec_free_regions(layout, us, ue);
            if free.len() == 0 {
                Err(PlanError::NoFreeRegions)
            } else {
                Ok(spec_largest(free))
            }
        },
        AllocationStrategy::FirstFit => {
            let free = spec_free_regions(layout, us, ue);
            if free.len() == 0 {
                Err(PlanError::NoFreeRegions)
            } else {
                Ok(free[0])
            }
        },
        AllocationStrategy::SpecificRegion(r) => Ok(r),
    }
}

/// Walk the requests in order and queue an addition for each `Exact`
/// request at the running position. Returns the extended change queue and
/// final position, or the queue at the failure and the planner's error.
pub open spec fn alloc_fixed(
    us: u64,
    ue: u64,
    orig: Seq<Region>,
    cs: Seq<Change>,
    reqs: Seq<PartitionRequest>,
    current: u64,
) -> Result<(Seq<Change>, u64), (Seq<Change>, PlanError)>
    decreases reqs.len(),
{
    if reqs.len() == 0 {
        Ok((cs, current))
    } else {
        match reqs[0].size {
            SizeRequirement::Exact(size) => match plan_add_decision(
                us,
                ue,
                layout_of(orig, cs),
                current,
                add_u64(current, size),
            ) {
                Ok(c) => alloc_fixed(
                    us,
                    ue,
                    orig,
                    cs.push(c),
                    reqs.drop_first(),
                    add_u64(current, size),
                ),
                Err(e) => Err((cs, e)),
            },
            _ => alloc_fixed(us, ue, orig, cs, reqs.drop_first(), current),
        }
    }
}

/// Walk the flexible requests in order and queue an addition of
/// `min + per`, clipped to the maximum, for each.
pub open spec fn alloc_flex(
    us: u64,
    ue: u64,
    orig: Seq<Region>,
    cs: Seq<Change>,
    flex: Seq<(u64, Option<u64>)>,
    per: u64,
    current: u64,
) -> Result<(Seq<Change>, u64), (Seq<Change>, PlanError)>
    decreases flex.len(),
{
    if flex.len() == 0 {
        Ok((cs, current))
    } else {
        let size = clip(flex[0].0 + per, flex[0].1) as u64;
        match plan_add_decision(us, ue, layout_of(orig, cs), current, add_u64(current, size)) {
            Ok(c) => alloc_flex(
                us,
                ue,
                orig,
                cs.push(c),
                flex.drop_first(),
                per,
                add_u64(current, size),
            ),
            Err(e) => Err((cs, e)),
        }
    }
}

/// `a + b` capped at `u64::MAX` (used only inside an error payload).
pub open spec fn sat_add_u64(a: u64, b: int) -> u64 {
    if a + b > u64::MAX {
        u64::MAX
    } else {
        (a + b) as u64
    }
}

/// What applying a strategy does to a planner state `(orig, cs)` with the
/// window `[us, ue)`: the state afterwards, and the result the call
/// returns. On failure the state keeps the changes queued before the
/// failing step, exactly as the planner does.
pub open spec fn apply_outcome(
    alloc: AllocationStrategy,
    reqs: Seq<PartitionRequest>,
    us: u64,
    ue: u64,
    orig0: Seq<Region>,
    cs0: Seq<Change>,
) -> ((Seq<Region>, Seq<Change>), Result<(), PlanError>) {
    let state0 = if alloc is InitializeWholeDisk {
        (Seq::<Region>::empty(), Seq::<Change>::empty())
    } else {
        (orig0, cs0)
    };
    let orig = state0.0;
    let cs = state0.1;
    match spec_target(alloc, us, ue, layout_of(orig0, cs0)) {
        Err(e) => (state0, Err(e)),
        Ok(target) => {
            let remaining0 = target.end - target.start;
            let tf = total_fixed(reqs);
            let flex = flex_list(reqs);
            let mf = min_flexible(flex);
            if tf + mf > remaining0 {
                (
                    state0,
                    Err(
                        PlanError::RegionOutOfBounds {
                            start: target.start,
                            end: sat_add_u64(target.start, tf + mf),
                        },
                    ),
                )
            } else {
                let per: u64 = if flex.len() > 0 {
                    ((remaining0 - tf - mf) / flex.len() as int) as u64
                } else {
                    0
                };
                match alloc_fixed(us, ue, orig, cs, reqs, target.start) {
                    Err((cs1, e)) => ((orig, cs1), Err(e)),
                    Ok((cs1, cur1)) => match alloc_flex(us, ue, orig, cs1, flex, per, cur1) {
                        Err((cs2, e)) => ((orig, cs2), Err(e)),
                        Ok((cs2, cur2)) => {
                            let leftover = target.end - cur2;
                            if leftover > 0 && flex.len() > 0 {
                                let cs3 = cs2.drop_last();
                                let minl = flex.last().0;
                                let maxl = flex.last().1;
                                let last_size = clip(minl + per, maxl) as u64;
                                let re_start = (cur2 - last_size) as u64;
                                let final_size = clip(minl + per + leftover, maxl) as u64;
                                match plan_add_decision(
                                    us,
                                    ue,
                                    layout_of(orig, cs3),
                                    re_start,
                                    add_u64(re_start, final_size),
                                ) {
                                    Ok(c) => ((orig, cs3.push(c)), Ok(())),
                                    Err(e) => ((orig, cs3), Err(e)),
                                }
                            } else {
                                ((orig, cs2), Ok(()))
                            }
                        },
                    },
                }
            }
        },
    }
}

impl Strategy {
    /// Create a new strategy using the specified allocation method.
    pub fn new(allocation: AllocationStrategy) -> (r: Strategy)
        ensures
            r.allocation == allocation,
            r.requests@.len() == 0,
    {
        Strategy { allocation, requests: Vec::new() }
    }

    /// Add a partition request to this strategy.
    pub fn add_request(&mut self, request: PartitionRequest)
        ensures
            final(self).allocation == old(self).allocation,
            final(self).requests@ == old(self).requests@.push(request),
    {
        self.requests.push(request);
    }
}

proof fn lemma_sums_nonneg(reqs: Seq<PartitionRequest>, flex: Seq<(u64, Option<u64>)>, per: u64)
    ensures
        total_fixed(reqs) >= 0,
        min_flexible(flex) >= 0,
        flex_alloc(flex, per) >= 0,
    decreases reqs.len() + flex.len(),
{
    if reqs.len() > 0 {
        lemma_sums_nonneg(reqs.drop_first(), flex, per);
    } else if flex.len() > 0 {
        lemma_sums_nonneg(reqs, flex.drop_first(), per);
    }
}

proof fn lemma_total_fixed_push(reqs: Seq<PartitionRequest>, x: PartitionRequest)
    ensures
        total_fixed(reqs.push(x)) == total_fixed(reqs) + fixed_part(x),
    decreases reqs.len(),
{
    let p = reqs.push(x);
    assert(p.len() == reqs.len() + 1);
    if reqs.len() == 0 {
        assert(p[0] == x);
        assert(p.drop_first() =~= Seq::<PartitionRequest>::empty());
        assert(total_fixed(p) == fixed_part(p[0]) + total_fixed(p.drop_first()));
    } else {
        assert(p[0] == reqs[0]);
        assert(p.drop_first() =~= reqs.drop_first().push(x));
        lemma_total_fixed_push(reqs.drop_first(), x);
        assert(total_fixed(p) == fixed_part(p[0]) + total_fixed(p.drop_first()));
    }
}

proof fn lemma_flex_list_push(reqs: Seq<PartitionRequest>, x: PartitionRequest)
    ensures
        flex_list(reqs.push(x)) == flex_list(reqs) + flex_part(x),
    decreases reqs.len(),
{
    let p = reqs.push(x);
    if reqs.len() == 0 {
        assert(p[0] == x);
        assert(p.drop_first() =~= Seq::<PartitionRequest>::empty());
        assert(flex_list(p) == flex_part(p[0]) + flex_list(p.drop_first()));
        assert(flex_list(p) =~= flex_list(reqs) + flex_part(x));
    } else {
        assert(p[0] == reqs[0]);
        assert(p.drop_first() =~= reqs.drop_first().push(x));
        lemma_flex_list_push(reqs.drop_first(), x);
        assert(flex_list(p) == flex_part(p[0]) + flex_list(p.drop_first()));
        assert(flex_list(p) =~= flex_list(reqs) + flex_part(x));
    }
}

proof fn lemma_min_flexible_single(x: (u64, Option<u64>))
    ensures
        min_flexible(seq![x]) == x.0,
{
    let s = seq![x];
    assert(s.len() == 1 && s[0] == x);
    assert(s.drop_first() =~= Seq::<(u64, Option<u64>)>::empty());
    assert(min_flexible(s.drop_first()) == 0);
    assert(min_flexible(s) == s[0].0 + min_flexible(s.drop_first()));
}

proof fn lemma_flex_alloc_single(x: (u64, Option<u64>), per: u64)
    ensures
        flex_alloc(seq![x], per) == clip(x.0 + per, x.1),
{
    let s = seq![x];
    assert(s.len() == 1 && s[0] == x);
    assert(s.drop_first() =~= Seq::<(u64, Option<u64>)>::empty());
    assert(flex_alloc(s.drop_first(), per) == 0);
    assert(flex_alloc(s, per) == clip(s[0].0 + per, s[0].1) + flex_alloc(s.drop_first(), per));
}

proof fn lemma_min_flexible_append(f1: Seq<(u64, Option<u64>)>, f2: Seq<(u64, Option<u64>)>)
    ensures
        min_flexible(f1 + f2) == min_flexible(f1) + min_flexible(f2),
    decreases f1.len(),
{
    if f1.len() == 0 {
        assert(f1 + f2 =~= f2);
    } else {
        assert((f1 + f2).drop_first() =~= f1.drop_first() + f2);
        lemma_min_flexible_append(f1.drop_first(), f2);
    }
}

proof fn lemma_flex_alloc_append(f1: Seq<(u64, Option<u64>)>, f2: Seq<(u64, Option<u64>)>, per: u64)
    ensures
        flex_alloc(f1 + f2, per) == flex_alloc(f1, per) + flex_alloc(f2, per),
    decreases f1.len(),
{
    if f1.len() == 0 {
        assert(f1 + f2 =~= f2);
    } else {
        assert((f1 + f2).drop_first() =~= f1.drop_first() + f2);
        lemma_flex_alloc_append(f1.drop_first(), f2, per);
    }
}

/// Each flexible allocation is at most its minimum plus the share, so the
/// whole flexible allocation fits in the minima plus the distributed space.
proof fn lemma_flex_alloc_bound(flex: Seq<(u64, Option<u64>)>, per: u64)
    ensures
        flex_alloc(flex, per) <= min_flexible(flex) + flex.len() * per,
    decreases flex.len(),
{
    if flex.len() == 0 {
    } else {
        lemma_flex_alloc_bound(flex.drop_first(), per);
        assert(flex.len() * per == (flex.len() - 1) * per + per) by (nonlinear_arith);
    }
}

/// The per-request share times the request count never exceeds the
/// distributable space it was divided from.
proof fn lemma_div_mul_le(d: int, k: int)
    requires
        d >= 0,
        k > 0,
    ensures
        k * (d / k) <= d,
        d / k >= 0,
{
    vstd::arithmetic::div_mod::lemma_fundamental_div_mod(d, k);
    vstd::arithmetic::div_mod::lemma_mod_bound(d, k);
    vstd::arithmetic::div_mod::lemma_div_pos_is_pos(d, k);
}

/// Inserting into a start-sorted sequence at the position scanning finds
/// places the element exactly there.
proof fn lemma_insert_at(s: Seq<Region>, r: Region, idx: int)
    requires
        0 <= idx <= s.len(),
        forall|k: int| 0 <= k < idx ==> !(r.start < (#[trigger] s[k]).start),
        idx < s.len() ==> r.start < s[idx].start,
    ensures
        spec_insert_by_start(s, r) == s.take(idx) + seq![r] + s.skip(idx),
    decreases idx,
{
    if idx == 0 {
        if s.len() == 0 {
            assert(spec_insert_by_start(s, r) =~= s.take(0) + seq![r] + s.skip(0));
        } else {
            assert(spec_insert_by_start(s, r) =~= s.take(0) + seq![r] + s.skip(0));
        }
    } else {
        lemma_insert_at(s.drop_first(), r, idx - 1);
        assert(s.drop_first().take(idx - 1) =~= s.take(idx).drop_first());
        assert(s.drop_first().skip(idx - 1) =~= s.skip(idx));
        assert(spec_insert_by_start(s, r) =~= s.take(idx) + seq![r] + s.skip(idx));
    }
}

/// Every region of an inserted sequence is the inserted region or one of
/// the originals.
proof fn lemma_insert_membership(s: Seq<Region>, r: Region, k: int)
    requires
        0 <= k < spec_insert_by_start(s, r).len(),
    ensures
        spec_insert_by_start(s, r)[k] == r || exists|j: int|
            0 <= j < s.len() && s[j] == spec_insert_by_start(s, r)[k],
    decreases s.len(),
{
    if s.len() == 0 {
    } else if r.start < s[0].start {
        if k > 0 {
            assert(s[k - 1] == spec_insert_by_start(s, r)[k]);
        }
    } else {
        if k == 0 {
            assert(s[0] == spec_insert_by_start(s, r)[0]);
        } else {
            lemma_insert_membership(s.drop_first(), r, k - 1);
            if spec_insert_by_start(s.drop_first(), r)[k - 1] != r {
                let j = choose|j: int|
                    0 <= j < s.drop_first().len() && s.drop_first()[j] == spec_insert_by_start(
                        s.drop_first(),
                        r,
                    )[k - 1];
                assert(s[j + 1] == spec_insert_by_start(s, r)[k]);
            }
        }
    }
}

/// Every region of the sorted sequence is a region of the original.
proof fn lemma_sort_membership(s: Seq<Region>, k: int)
    requires
        0 <= k < spec_sort_by_start(s).len(),
    ensures
        exists|j: int| 0 <= j < s.len() && s[j] == spec_sort_by_start(s)[k],
    decreases s.len(),
{
    if s.len() > 0 {
        let sorted_front = spec_sort_by_start(s.drop_last());
        lemma_insert_membership(sorted_front, s.last(), k);
        if spec_sort_by_start(s)[k] != s.last() {
            let j0 = choose|j: int|
                0 <= j < sorted_front.len() && sorted_front[j] == spec_sort_by_start(s)[k];
            lemma_sort_membership(s.drop_last(), j0);
        }
    }
}

proof fn lemma_insert_len(s: Seq<Region>, r: Region)
    ensures
        spec_insert_by_start(s, r).len() == s.len() + 1,
    decreases s.len(),
{
    if s.len() > 0 && !(r.start < s[0].start) {
        lemma_insert_len(s.drop_first(), r);
    }
}

proof fn lemma_sort_len(s: Seq<Region>)
    ensures
        spec_sort_by_start(s).len() == s.len(),
    decreases s.len(),
{
    if s.len() > 0 {
        lemma_sort_len(s.drop_last());
        lemma_insert_len(spec_sort_by_start(s.drop_last()), s.last());
    }
}

/// Every gap is non-empty, ends within the window, and no gap starts
/// before the scan position.
proof fn lemma_gaps_props(sorted: Seq<Region>, current: u64, ue: u64)
    requires
        forall|i: int|
            0 <= i < sorted.len() ==> (#[trigger] sorted[i]).start <= ue && sorted[i].end <= ue,
        current <= ue,
    ensures
        forall|g: int|
            0 <= g < spec_gaps(sorted, current, ue).len() ==> (#[trigger] spec_gaps(
                sorted,
                current,
                ue,
            )[g]).start < spec_gaps(sorted, current, ue)[g].end <= ue,
    decreases sorted.len(),
{
    let gaps = spec_gaps(sorted, current, ue);
    if sorted.len() == 0 {
    } else {
        let head = sorted[0];
        assert(forall|i: int|
            0 <= i < sorted.drop_first().len() ==> (#[trigger] sorted.drop_first()[i]).start <= ue
                && sorted.drop_first()[i].end <= ue);
        lemma_gaps_props(sorted.drop_first(), head.end, ue);
        let rest = spec_gaps(sorted.drop_first(), head.end, ue);
        assert forall|g: int| 0 <= g < gaps.len() implies (#[trigger] gaps[g]).start < gaps[g].end
            <= ue by {
            if head.start > current {
                if g > 0 {
                    assert(gaps[g] == rest[g - 1]);
                }
            } else {
                assert(gaps[g] == rest[g]);
            }
        }
    }
}

/// The largest free region is one of the free regions.
proof fn lemma_largest_membership(s: Seq<Region>)
    requires
        s.len() > 0,
    ensures
        exists|j: int| 0 <= j < s.len() && s[j] == spec_largest(s),
    decreases s.len(),
{
    if s.len() == 1 {
        assert(s[0] == spec_largest(s));
    } else {
        lemma_largest_membership(s.drop_last());
        if spec_largest(s) != s.last() {
            let j = choose|j: int|
                0 <= j < s.drop_last().len() && s.drop_last()[j] == spec_largest(s.drop_last());
            assert(s[j] == spec_largest(s));
        } else {
            assert(s[s.len() - 1] == spec_largest(s));
        }
    }
}

/// Find the position scanning gives for a start-ordered insert.
fn insert_position(sorted: &Vec<Region>, r: Region) -> (idx: usize)
    ensures
        0 <= idx <= sorted@.len(),
        forall|k: int| 0 <= k < idx ==> !(r.start < (#[trigger] sorted@[k]).start),
        idx < sorted@.len() ==> r.start < sorted@[idx as int].start,
{
    let n = sorted.len();
    let mut idx: usize = 0;
    while idx < n
        invariant
            0 <= idx <= n,
            n == sorted@.len(),
            forall|k: int| 0 <= k < idx ==> !(r.start < (#[trigger] sorted@[k]).start),
        decreases n - idx,
    {
        if r.start < sorted[idx].start {
            return idx;
        }
        idx += 1;
    }
    idx
}

/// Sort regions by ascending start position (stable).
fn sort_regions_by_start(v: &Vec<Region>) -> (r: Vec<Region>)
    ensures
        r@ == spec_sort_by_start(v@),
{
    let n = v.len();
    let mut sorted: Vec<Region> = Vec::new();
    let mut i: usize = 0;
    while i < n
        invariant
            0 <= i <= n,
            n == v@.len(),
            sorted@ == spec_sort_by_start(v@.take(i as int)),
        decreases n - i,
    {
        let r = v[i];
        let idx = insert_position(&sorted, r);
        let ghost pre = sorted@;
        sorted.insert(idx, r);
        proof {
            lemma_insert_at(pre, r, idx as int);
            assert(sorted@ =~= pre.take(idx as int) + seq![r] + pre.skip(idx as int));
            assert(v@.take(i + 1).drop_last() =~= v@.take(i as int));
            assert(v@.take(i + 1).last() == v@[i as int]);
        }
        i += 1;
    }
    proof {
        assert(v@.take(n as int) =~= v@);
    }
    sorted
}

/// Collect the gaps a start-sorted layout leaves within `[us, ue)`.
fn gaps_of(sorted: &Vec<Region>, us: u64, ue: u64) -> (r: Vec<Region>)
    ensures
        r@ == spec_gaps(sorted@, us, ue),
{
    let n = sorted.len();
    let mut acc: Vec<Region> = Vec::new();
    let mut current = us;
    let mut i: usize = 0;
    proof {
        assert(sorted@.skip(0) =~= sorted@);
        assert(acc@ + spec_gaps(sorted@, us, ue) =~= spec_gaps(sorted@, us, ue));
    }
    while i < n
        invariant
            0 <= i <= n,
            n == sorted@.len(),
            acc@ + spec_gaps(sorted@.skip(i as int), current, ue) == spec_gaps(sorted@, us, ue),
        decreases n - i,
    {
        let head = sorted[i];
        proof {
            assert(sorted@.skip(i as int)[0] == sorted@[i as int]);
            assert(sorted@.skip(i as int).drop_first() =~= sorted@.skip(i + 1));
        }
        if head.start > current {
            let ghost pre = acc@;
            acc.push(Region { start: current, end: head.start });
            proof {
                assert(pre.push(Region { start: current, end: head.start }) + spec_gaps(
                    sorted@.skip(i + 1),
                    head.end,
                    ue,
                ) =~= pre + (seq![Region { start: current, end: head.start }] + spec_gaps(
                    sorted@.skip(i + 1),
                    head.end,
                    ue,
                )));
            }
        }
        current = head.end;
        i += 1;
    }
    proof {
        assert(sorted@.skip(n as int) =~= Seq::<Region>::empty());
        assert(spec_gaps(sorted@.skip(n as int), current, ue) == spec_gaps(
            Seq::<Region>::empty(),
            current,
            ue,
        ));
    }
    if current < ue {
        let ghost pre = acc@;
        acc.push(Region { start: current, end: ue });
        proof {
            assert(pre.push(Region { start: current, end: ue }) =~= pre + seq![Region {
                start: current,
                end: ue,
            }]);
        }
    } else {
        proof {
            assert(acc@ + Seq::<Region>::empty() =~= acc@);
        }
    }
    acc
}

/// The free region of greatest size; among equals, the last.
fn largest_of(free: &Vec<Region>) -> (r: Region)
    requires
        free@.len() > 0,
        forall|g: int| 0 <= g < free@.len() ==> (#[trigger] free@[g]).start <= free@[g].end,
    ensures
        r == spec_largest(free@),
{
    let n = free.len();
    let mut best = free[0];
    let mut i: usize = 1;
    proof {
        assert(free@.take(1) =~= seq![free@[0]]);
    }
    while i < n
        invariant
            1 <= i <= n,
            n == free@.len(),
            forall|g: int| 0 <= g < free@.len() ==> (#[trigger] free@[g]).start <= free@[g].end,
            best == spec_largest(free@.take(i as int)),
            best.start <= best.end,
        decreases n - i,
    {
        proof {
            assert(free@.take(i + 1).drop_last() =~= free@.take(i as int));
            assert(free@.take(i + 1).last() == free@[i as int]);
        }
        let c = free[i];
        if c.size() >= best.size() {
            best = c;
        }
        i += 1;
    }
    proof {
        assert(free@.take(n as int) =~= free@);
    }
    best
}

impl Strategy {
    /// Find the free regions of the planner's current layout, in
    /// ascending start order: the gaps between the sorted layout regions
    /// inside the usable window.
    fn find_free_regions(&self, planner: &Planner) -> (r: Vec<Region>)
        requires
            planner.inv(),
        ensures
            r@ == spec_free_regions(
                planner.spec_layout(),
                planner.usable_start,
                planner.usable_end,
            ),
            forall|g: int|
                0 <= g < r@.len() ==> (#[trigger] r@[g]).start < r@[g].end <= planner.usable_end,
    {
        let layout = planner.current_layout();
        let sorted = sort_regions_by_start(&layout);
        let free = gaps_of(&sorted, planner.usable_start, planner.usable_end);
        proof {
            let full = planner.changes@.len() as int;
            assert(planner.changes@.take(full) =~= planner.changes@);
            assert(crate::planner::layout_ok(
                planner.spec_layout(),
                planner.usable_start,
                planner.usable_end,
            ));
            lemma_sort_len(layout@);
            assert forall|i: int| 0 <= i < sorted@.len() implies (#[trigger] sorted@[i]).start
                <= planner.usable_end && sorted@[i].end <= planner.usable_end by {
                lemma_sort_membership(layout@, i);
            }
            lemma_gaps_props(sorted@, planner.usable_start, planner.usable_end);
        }
        free
    }

    /// First pass over the requests: the fixed total, the flexible
    /// minima total, and the flexible entries in document order.
    fn collect_requirements(&self) -> (r: (u128, u128, Vec<(u64, Option<u64>)>))
        ensures
            r.0 == total_fixed(self.requests@),
            r.2@ == flex_list(self.requests@),
            r.1 == min_flexible(flex_list(self.requests@)),
            r.0 <= self.requests@.len() * (u64::MAX as int),
            r.1 <= self.requests@.len() * (u64::MAX as int),
    {
        let reqs_n = self.requests.len();
        let mut tf128: u128 = 0;
        let mut mf128: u128 = 0;
        let mut flex: Vec<(u64, Option<u64>)> = Vec::new();
        let mut pi: usize = 0;
        proof {
            assert(self.requests@.take(0) =~= Seq::<PartitionRequest>::empty());
        }
        while pi < reqs_n
            invariant
                0 <= pi <= reqs_n,
                reqs_n == self.requests@.len(),
                tf128 == total_fixed(self.requests@.take(pi as int)),
                flex@ == flex_list(self.requests@.take(pi as int)),
                mf128 == min_flexible(flex@),
                tf128 <= pi * (u64::MAX as int),
                mf128 <= pi * (u64::MAX as int),
            decreases reqs_n - pi,
        {
            proof {
                assert(self.requests@.take(pi + 1) =~= self.requests@.take(pi as int).push(
                    self.requests@[pi as int],
                ));
                lemma_total_fixed_push(self.requests@.take(pi as int), self.requests@[pi as int]);
                lemma_flex_list_push(self.requests@.take(pi as int), self.requests@[pi as int]);
                lemma_min_flexible_append(
                    flex_list(self.requests@.take(pi as int)),
                    flex_part(self.requests@[pi as int]),
                );
                assert((pi + 1) * (u64::MAX as int) == pi * (u64::MAX as int) + (u64::MAX as int))
                    by (nonlinear_arith);
            }
            let ghost pre_flex = flex@;
            match self.requests[pi].size {
                SizeRequirement::Exact(size) => {
                    tf128 = tf128 + size as u128;
                },
                SizeRequirement::AtLeast(min) => {
                    mf128 = mf128 + min as u128;
                    flex.push((min, None));
                },
                SizeRequirement::Range { min, max } => {
                    mf128 = mf128 + min as u128;
                    flex.push((min, Some(max)));
                },
                SizeRequirement::Remaining => {
                    flex.push((0, None));
                },
            }
            proof {
                let fp = flex_part(self.requests@[pi as int]);
                assert(flex@ =~= pre_flex + fp);
                lemma_min_flexible_append(pre_flex, fp);
                if fp.len() > 0 {
                    lemma_min_flexible_single(fp[0]);
                    assert(fp =~= seq![fp[0]]);
                }
            }
            pi += 1;
        }
        proof {
            assert(self.requests@.take(reqs_n as int) =~= self.requests@);
        }
        (tf128, mf128, flex)
    }

    /// Queue additions for the `Exact` requests, in document order, at
    /// the running position. Returns the position after the fixed
    /// allocations.
    #[verifier::loop_isolation(false)]
    fn run_fixed(&self, planner: &mut Planner, start: u64, target_end: u64) -> (r: Result<
        u64,
        PlanError,
    >)
        requires
            old(planner).inv(),
            target_end <= u64::MAX - PARTITION_ALIGNMENT,
            start + total_fixed(self.requests@) <= target_end,
        ensures
            final(planner).inv(),
            final(planner).usable_start == old(planner).usable_start,
            final(planner).usable_end == old(planner).usable_end,
            final(planner).original_regions@ == old(planner).original_regions@,
            match alloc_fixed(
                old(planner).usable_start,
                old(planner).usable_end,
                old(planner).original_regions@,
                old(planner).changes@,
                self.requests@,
                start,
            ) {
                Ok((cs, cur)) => r == Ok::<u64, PlanError>(cur) && final(planner).changes@ == cs
                    && cur == start + total_fixed(self.requests@),
                Err((cs, e)) => r == Err::<u64, PlanError>(e) && final(planner).changes@ == cs,
            },
    {
        let ghost us = planner.usable_start;
        let ghost ue = planner.usable_end;
        let ghost orig = planner.original_regions@;
        let ghost cs_start = planner.changes@;
        let ghost greqs = self.requests@;
        let reqs_n = self.requests.len();
        let mut current: u64 = start;
        let mut i: usize = 0;
        proof {
            assert(greqs.skip(0) =~= greqs);
            lemma_sums_nonneg(greqs, Seq::empty(), 0);
        }
        while i < reqs_n
            invariant
                0 <= i <= reqs_n,
                planner.inv(),
                planner.usable_start == us,
                planner.usable_end == ue,
                planner.original_regions@ == orig,
                current == start + total_fixed(greqs) - total_fixed(greqs.skip(i as int)),
                total_fixed(greqs.skip(i as int)) >= 0,
                alloc_fixed(us, ue, orig, cs_start, greqs, start) == alloc_fixed(
                    us,
                    ue,
                    orig,
                    planner.changes@,
                    greqs.skip(i as int),
                    current,
                ),
            decreases reqs_n - i,
        {
            proof {
                assert(greqs.skip(i as int)[0] == greqs[i as int]);
                assert(greqs.skip(i as int).drop_first() =~= greqs.skip(i + 1));
                lemma_sums_nonneg(greqs.skip(i + 1), Seq::empty(), 0);
            }
            match self.requests[i].size {
                SizeRequirement::Exact(size) => {
                    let next = current + size;
                    let ghost cs_before = planner.changes@;
                    match planner.plan_add_partition(current, next) {
                        Ok(()) => {
                            current = next;
                        },
                        Err(e) => {
                            proof {
                                assert(alloc_fixed(
                                    us,
                                    ue,
                                    orig,
                                    cs_before,
                                    greqs.skip(i as int),
                                    current,
                                ) == Err::<(Seq<Change>, u64), (Seq<Change>, PlanError)>((
                                    cs_before,
                                    e,
                                )));
                            }
                            return Err(e);
                        },
                    }
                },
                _ => {},
            }
            i += 1;
        }
        proof {
            assert(greqs.skip(reqs_n as int) =~= Seq::<PartitionRequest>::empty());
        }
        Ok(current)
    }

    /// Queue additions for the flexible requests, each of its minimum
    /// plus the equal share, clipped to its maximum. Returns the position
    /// after the allocations and the start of the last one.
    #[verifier::loop_isolation(false)]
    fn run_flex(
        &self,
        planner: &mut Planner,
        flex: &Vec<(u64, Option<u64>)>,
        per: u64,
        start: u64,
        target_end: u64,
    ) -> (r: Result<(u64, u64), PlanError>)
        requires
            old(planner).inv(),
            target_end <= u64::MAX - PARTITION_ALIGNMENT,
            start + flex_alloc(flex@, per) <= target_end,
        ensures
            final(planner).inv(),
            final(planner).usable_start == old(planner).usable_start,
            final(planner).usable_end == old(planner).usable_end,
            final(planner).original_regions@ == old(planner).original_regions@,
            match alloc_flex(
                old(planner).usable_start,
                old(planner).usable_end,
                old(planner).original_regions@,
                old(planner).changes@,
                flex@,
                per,
                start,
            ) {
                Ok((cs, cur)) => {
                    &&& r == Ok::<(u64, u64), PlanError>((cur, r->Ok_0.1))
                    &&& final(planner).changes@ == cs
                    &&& cur == start + flex_alloc(flex@, per)
                    &&& final(planner).changes@.len() == old(planner).changes@.len() + flex@.len()
                    &&& flex@.len() > 0 ==> cur == r->Ok_0.1 + clip(
                        flex@.last().0 + per,
                        flex@.last().1,
                    )
                    &&& flex@.len() == 0 ==> r->Ok_0.1 == start
                },
                Err((cs, e)) => r == Err::<(u64, u64), PlanError>(e) && final(planner).changes@
                    == cs,
            },
    {
        let ghost us = planner.usable_start;
        let ghost ue = planner.usable_end;
        let ghost orig = planner.original_regions@;
        let ghost cs1 = planner.changes@;
        let ghost gflex = flex@;
        let flex_n = flex.len();
        let mut current: u64 = start;
        let mut last_start: u64 = start;
        let mut j: usize = 0;
        proof {
            assert(gflex.skip(0) =~= gflex);
            lemma_sums_nonneg(Seq::empty(), gflex, per);
        }
        while j < flex_n
            invariant
                0 <= j <= flex_n,
                planner.inv(),
                planner.usable_start == us,
                planner.usable_end == ue,
                planner.original_regions@ == orig,
                current + flex_alloc(gflex.skip(j as int), per) <= target_end,
                current == start + flex_alloc(gflex.take(j as int), per),
                alloc_flex(us, ue, orig, cs1, gflex, per, start) == alloc_flex(
                    us,
                    ue,
                    orig,
                    planner.changes@,
                    gflex.skip(j as int),
                    per,
                    current,
                ),
                planner.changes@.len() == cs1.len() + j,
                j > 0 ==> current == last_start + clip(gflex[j - 1].0 + per, gflex[j - 1].1),
                j == 0 ==> current == start && last_start == start,
            decreases flex_n - j,
        {
            proof {
                assert(gflex.skip(j as int)[0] == gflex[j as int]);
                assert(gflex.skip(j as int).drop_first() =~= gflex.skip(j + 1));
                lemma_sums_nonneg(Seq::empty(), gflex.skip(j + 1), per);
            }
            let (fmin, fmax) = flex[j];
            let size128 = fmin as u128 + per as u128;
            let size: u64 = match fmax {
                Some(m) => if size128 > m as u128 {
                    m
                } else {
                    size128 as u64
                },
                None => size128 as u64,
            };
            proof {
                assert(size == clip(fmin + per, fmax));
            }
            let next = current + size;
            let ghost cs_before = planner.changes@;
            let ghost prev_current = current;
            match planner.plan_add_partition(current, next) {
                Ok(()) => {
                    last_start = current;
                    current = next;
                    proof {
                        assert(gflex.take(j + 1) =~= gflex.take(j as int) + seq![gflex[j as int]]);
                        lemma_flex_alloc_append(gflex.take(j as int), seq![gflex[j as int]], per);
                        lemma_flex_alloc_single(gflex[j as int], per);
                    }
                },
                Err(e) => {
                    proof {
                        assert(alloc_flex(
                            us,
                            ue,
                            orig,
                            cs_before,
                            gflex.skip(j as int),
                            per,
                            prev_current,
                        ) == Err::<(Seq<Change>, u64), (Seq<Change>, PlanError)>((cs_before, e)));
                    }
                    return Err(e);
                },
            }
            j += 1;
        }
        proof {
            assert(gflex.skip(flex_n as int) =~= Seq::<(u64, Option<u64>)>::empty());
            assert(gflex.take(flex_n as int) =~= gflex);
            if flex_n > 0 {
                assert(gflex[flex_n - 1] == gflex.last());
            }
        }
        Ok((current, last_start))
    }

    /// Apply this strategy to a planner: choose the target region the
    /// allocation policy selects, verify the requests' minimum space
    /// fits, then queue additions for the fixed requests, then for the
    /// flexible requests with an equal share each, and finally regrow the
    /// last flexible addition by the integer-division leftover. The
    /// planner is left exactly as [`apply_outcome`] describes; on failure
    /// it keeps the additions queued before the failing step.
    #[verifier::rlimit(100)]
    pub fn apply(&self, planner: &mut Planner) -> (r: Result<(), PlanError>)
        requires
            old(planner).inv(),
            self.allocation matches AllocationStrategy::SpecificRegion(reg) ==> reg.start
                <= reg.end && reg.end <= u64::MAX - PARTITION_ALIGNMENT,
        ensures
            final(planner).inv(),
            final(planner).usable_start == old(planner).usable_start,
            final(planner).usable_end == old(planner).usable_end,
            ({
                let (st, res) = apply_outcome(
                    self.allocation,
                    self.requests@,
                    old(planner).usable_start,
                    old(planner).usable_end,
                    old(planner).original_regions@,
                    old(planner).changes@,
                );
                &&& final(planner).original_regions@ == st.0
                &&& final(planner).changes@ == st.1
                &&& r == res
            }),
    {
        let ghost us = planner.usable_start;
        let ghost ue = planner.usable_end;
        let ghost orig0 = planner.original_regions@;
        let ghost cs0 = planner.changes@;
        let target: Region = match &self.allocation {
            AllocationStrategy::InitializeWholeDisk => {
                // clearing the planner cannot fail
                let _ = planner.plan_initialize_disk();
                let offs = planner.offsets();
                Region { start: offs.0, end: offs.1 }
            },
            AllocationStrategy::LargestFree => {
                let free = self.find_free_regions(planner);
                if free.len() == 0 {
                    return Err(PlanError::NoFreeRegions);
                }
                proof {
                    lemma_largest_membership(free@);
                }
                largest_of(&free)
            },
            AllocationStrategy::FirstFit => {
                let free = self.find_free_regions(planner);
                if free.len() == 0 {
                    return Err(PlanError::NoFreeRegions);
                }
                free[0]
            },
            AllocationStrategy::SpecificRegion(region) => *region,
        };
        let ghost orig = planner.original_regions@;
        let ghost cs_start = planner.changes@;
        proof {
            assert(spec_target(self.allocation, us, ue, layout_of(orig0, cs0)) == Ok::<
                Region,
                PlanError,
            >(target));
            assert(target.start <= target.end && target.end <= u64::MAX - PARTITION_ALIGNMENT);
            if self.allocation is InitializeWholeDisk {
                assert(orig =~= Seq::<Region>::empty());
                assert(cs_start =~= Seq::<Change>::empty());
            }
        }

        // first pass: space requirements
        let (tf128, mf128, flex) = self.collect_requirements();
        let ghost greqs = self.requests@;
        let ghost gflex = flex_list(greqs);
        proof {
            lemma_sums_nonneg(greqs, gflex, 0);
        }
        let remaining0 = target.end - target.start;

        // verify there is room for the minimum requirements
        let rem128 = remaining0 as u128;
        if tf128 > rem128 || mf128 > rem128 - tf128 {
            let cap = u64::MAX as u128;
            let e1 = if tf128 >= cap {
                cap
            } else {
                tf128
            };
            let e2 = if mf128 >= cap {
                cap
            } else {
                mf128
            };
            let sum = target.start as u128 + e1 + e2;
            let overflow_end = if sum > cap {
                u64::MAX
            } else {
                sum as u64
            };
            proof {
                assert(total_fixed(greqs) + min_flexible(gflex) > remaining0);
                assert(overflow_end == sat_add_u64(
                    target.start,
                    total_fixed(greqs) + min_flexible(gflex),
                ));
            }
            return Err(PlanError::RegionOutOfBounds { start: target.start, end: overflow_end });
        }
        let tf: u64 = tf128 as u64;
        let mf: u64 = mf128 as u64;
        let distributable = remaining0 - tf - mf;
        let flex_n = flex.len();
        let per: u64 = if flex_n > 0 {
            distributable / (flex_n as u64)
        } else {
            0
        };
        proof {
            if flex_n > 0 {
                lemma_div_mul_le(distributable as int, flex_n as int);
                assert(per == ((target.end - target.start) - total_fixed(greqs) - min_flexible(
                    gflex,
                )) / (gflex.len() as int));
            }
        }

        // allocate the fixed requests in order
        let cur1 = match self.run_fixed(planner, target.start, target.end) {
            Ok(c) => c,
            Err(e) => {
                return Err(e);
            },
        };
        let ghost cs1 = planner.changes@;

        // allocate the flexible requests with an equal share each
        proof {
            lemma_flex_alloc_bound(gflex, per);
            if flex_n > 0 {
                assert(gflex.len() * per <= distributable) by {
                    lemma_div_mul_le(distributable as int, gflex.len() as int);
                    assert(gflex.len() * per == gflex.len() * ((distributable as int) / (
                    gflex.len() as int)));
                }
            }
            assert(cur1 + flex_alloc(gflex, per) <= target.end);
        }
        let (current, last_start) = match self.run_flex(planner, &flex, per, cur1, target.end) {
            Ok(c) => c,
            Err(e) => {
                return Err(e);
            },
        };
        let ghost cs2 = planner.changes@;
        let ghost cur2 = current;
        proof {
            if flex_n > 0 {
                assert(gflex.take(flex_n - 1) =~= gflex.drop_last());
                assert(gflex.drop_last() + seq![gflex.last()] =~= gflex);
                lemma_flex_alloc_append(gflex.drop_last(), seq![gflex.last()], per);
                lemma_flex_alloc_single(gflex.last(), per);
                lemma_sums_nonneg(greqs, gflex.drop_last(), per);
            }
        }

        // hand the integer-division leftover to the last flexible request
        let leftover = target.end - current;
        if leftover > 0 && flex_n > 0 {
            let _ = planner.undo();
            let ghost cs3 = cs2.drop_last();
            let (fmin, fmax) = flex[flex_n - 1];
            let base128 = fmin as u128 + per as u128 + leftover as u128;
            proof {
                // without a maximum, the grown size is the space from the
                // last start to the window end, which fits a u64
                assert(clip(fmin + per, fmax) <= fmin + per);
                if fmax is None {
                    assert(fmin + per + leftover <= target.end);
                }
            }
            let final_size: u64 = match fmax {
                Some(m) => if base128 > m as u128 {
                    m
                } else {
                    base128 as u64
                },
                None => base128 as u64,
            };
            proof {
                assert(final_size == clip(fmin + per + leftover, fmax));
                // the regrown region never passes the target's end
                if final_size == fmin + per + leftover {
                    assert(last_start + final_size <= target.end);
                } else {
                    let m = fmax->0;
                    assert(final_size == m);
                    if clip(fmin + per, fmax) == m {
                        assert(last_start + final_size == cur2);
                    } else {
                        assert(last_start + final_size <= target.end);
                    }
                }
            }
            let endv = last_start + final_size;
            match planner.plan_add_partition(last_start, endv) {
                Ok(()) => Ok(()),
                Err(e) => Err(e),
            }
        } else {
            Ok(())
        }
    }
}

/// A size requirement rendered for people.
pub open spec fn spec_size_requirement_text(s: SizeRequirement) -> Seq<char> {
    match s {
        SizeRequirement::Exact(n) => "exactly "@ + crate::planner::spec_format_size(n as int),
        SizeRequirement::AtLeast(n) => "at least "@ + crate::planner::spec_format_size(n as int),
        SizeRequirement::Range { min, max } => "between "@ + crate::planner::spec_format_size(
            min as int,
        ) + " and "@ + crate::planner::spec_format_size(max as int),
        SizeRequirement::Remaining => "remaining space"@,
    }
}

/// The requests rendered as numbered lines, one per request.
pub open spec fn spec_request_lines(reqs: Seq<PartitionRequest>) -> Seq<char>
    decreases reqs.len(),
{
    if reqs.len() == 0 {
        Seq::empty()
    } else {
        spec_request_lines(reqs.drop_last()) + "  "@ + crate::encoding::spec_decimal(
            reqs.len() as int,
        ) + ": "@ + spec_size_requirement_text(reqs.last().size) + "\n"@
    }
}

impl Strategy {
    /// The strategy rendered for people: its allocation policy, then its
    /// requests as numbered lines.
    pub open spec fn spec_describe(self) -> Seq<char> {
        let head = match self.allocation {
            AllocationStrategy::InitializeWholeDisk =>
                "Initialize new partition layout on entire disk"@,
            AllocationStrategy::LargestFree => "Use largest free region"@,
            AllocationStrategy::FirstFit => "Use first available region"@,
            AllocationStrategy::SpecificRegion(r) => "Use specific region: "@ + r.spec_describe(
                (r.end - r.start) as u64,
            ),
        };
        if self.requests@.len() == 0 {
            head
        } else {
            head + "\nRequested partitions:\n"@ + spec_request_lines(self.requests@)
        }
    }

    /// Get a human-readable description of this strategy.
    pub fn describe(&self) -> (r: String)
        requires
            self.allocation matches AllocationStrategy::SpecificRegion(reg) ==> reg.start
                <= reg.end,
        ensures
            r@ == self.spec_describe(),
    {
        let mut out = match &self.allocation {
            AllocationStrategy::InitializeWholeDisk => {
                "Initialize new partition layout on entire disk".to_owned()
            },
            AllocationStrategy::LargestFree => "Use largest free region".to_owned(),
            AllocationStrategy::FirstFit => "Use first available region".to_owned(),
            AllocationStrategy::SpecificRegion(r) => {
                let mut head = "Use specific region: ".to_owned();
                let body = r.describe(r.end - r.start);
                head.append(body.as_str());
                head
            },
        };
        let n = self.requests.len();
        if n == 0 {
            proof {
                assert(out@ =~= self.spec_describe());
            }
            return out;
        }
        out.append("\nRequested partitions:\n");
        let ghost head_and_banner = out@;
        let mut i: usize = 0;
        proof {
            assert(self.requests@.take(0) =~= Seq::<PartitionRequest>::empty());
            assert(out@ =~= head_and_banner + spec_request_lines(self.requests@.take(0)));
        }
        while i < n
            invariant
                0 <= i <= n,
                n == self.requests@.len(),
                out@ == head_and_banner + spec_request_lines(self.requests@.take(i as int)),
            decreases n - i,
        {
            proof {
                assert(self.requests@.take(i + 1).drop_last() =~= self.requests@.take(i as int));
                assert(self.requests@.take(i + 1).last() == self.requests@[i as int]);
                assert(self.requests@.take(i + 1).len() == i + 1);
            }
            out.append("  ");
            let num = crate::encoding::u64_to_string((i + 1) as u64);
            out.append(num.as_str());
            out.append(": ");
            match &self.requests[i].size {
                SizeRequirement::Exact(size) => {
                    out.append("exactly ");
                    let fs = crate::planner::format_size(*size);
                    out.append(fs.as_str());
                },
                SizeRequirement::AtLeast(min) => {
                    out.append("at least ");
                    let fs = crate::planner::format_size(*min);
                    out.append(fs.as_str());
                },
                SizeRequirement::Range { min, max } => {
                    out.append("between ");
                    let fs = crate::planner::format_size(*min);
                    out.append(fs.as_str());
                    out.append(" and ");
                    let fs2 = crate::planner::format_size(*max);
                    out.append(fs2.as_str());
                },
                SizeRequirement::Remaining => {
                    out.append("remaining space");
                },
            }
            out.append("\n");
            proof {
                assert(out@ =~= head_and_banner + spec_request_lines(
                    self.requests@.take(i + 1),
                ));
            }
            i += 1;
        }
        proof {
            assert(self.requests@.take(n as int) =~= self.requests@);
        }
        out
    }
}

impl Clone for Strategy {
    /// Cloning a strategy keeps its allocation policy and requests.
    fn clone(&self) -> (res: Self)
        ensures
            res.allocation == self.allocation,
            res.requests@ == self.requests@,
    {
        let res = Strategy { allocation: self.allocation, requests: self.requests.clone() };
        proof {
            assert(res.requests@ =~= self.requests@);
        }
        res
    }
}

} // verus!
