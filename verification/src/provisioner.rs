//! The provisioner: evaluate strategy definitions against a pool of block
//! devices and enumerate every satisfying assignment as a plan.

use vstd::prelude::*;
use vstd::pervasive::VecAdditionalExecFns;

use crate::commands::Command;
use crate::device::BlockDevice;
use crate::document::str_eq;
use crate::parser::StrategyDefinition;
use crate::planner::Planner;
use crate::strategy::{AllocationStrategy, PartitionRequest, SizeRequirement, Strategy};
use crate::types::Constraints;

verus! {

/// One device bound to a strategy branch: the pool index of the device,
/// the planner seeded from it, and the strategy composed for it.
#[derive(Debug)]
pub struct DevicePlan {
    /// Index of the bound device in the provisioner's pool.
    pub device_index: usize,
    /// The planner seeded with the device's current layout.
    pub planner: Planner,
    /// The strategy composed from the commands for this device.
    pub strategy: Strategy,
}

/// A compiled plan: which strategy definition it satisfies and the
/// per-name device assignments.
#[derive(Debug)]
pub struct Plan {
    /// Index of the strategy definition in the provisioner.
    pub strategy_index: usize,
    /// The device assignments, one per bound name.
    pub device_assignments: Vec<(String, DevicePlan)>,
}

/// Does a disk-size constraint admit a device of `size` bytes?
pub open spec fn constraint_admits(c: Option<Constraints>, size: int) -> bool {
    match c {
        Some(Constraints::AtLeast(n)) => size >= n,
        Some(Constraints::Exact(n)) => size == n,
        Some(Constraints::Range { min, max }) => min <= size <= max,
        Some(Constraints::Remaining) => true,
        None => true,
    }
}

/// The provisioner: a pool of devices and the strategy definitions to
/// evaluate over it.
pub struct Provisioner {
    /// Pool of devices.
    pub devices: Vec<BlockDevice>,
    /// Strategy definitions, in the order they were added.
    pub configs: Vec<StrategyDefinition>,
}

/// Is this assignment list well formed for the pool and configurations?
/// Names and device indices are unique, devices are in range, every
/// planner keeps its invariant, no strategy uses a caller-given region,
/// and each binding comes from a `find-disk` command whose constraints
/// the device's size satisfies.
pub open spec fn assignments_wf(
    devices: Seq<BlockDevice>,
    configs: Seq<StrategyDefinition>,
    assigns: Seq<(String, DevicePlan)>,
) -> bool {
    &&& forall|i: int|
        0 <= i < assigns.len() ==> (#[trigger] assigns[i]).1.device_index < devices.len()
    &&& forall|i: int, j: int|
        0 <= i < j < assigns.len() ==> (#[trigger] assigns[i]).1.device_index != (
        #[trigger] assigns[j]).1.device_index
    &&& forall|i: int, j: int|
        0 <= i < j < assigns.len() ==> (#[trigger] assigns[i]).0@ != (#[trigger] assigns[j]).0@
    &&& forall|i: int| 0 <= i < assigns.len() ==> (#[trigger] assigns[i]).1.planner.inv()
    &&& forall|i: int|
        0 <= i < assigns.len() ==> !((#[trigger] assigns[i]).1.strategy.allocation
            is SpecificRegion)
    &&& forall|i: int|
        0 <= i < assigns.len() ==> exists|ci: int, k: int|
            {
                &&& 0 <= ci < configs.len()
                &&& 0 <= k < configs[ci].commands@.len()
                &&& #[trigger] configs[ci].commands@[k] matches Command::FindDisk(fd)
                &&& fd.name@ == (#[trigger] assigns[i]).0@
                &&& constraint_admits(
                    fd.constraints,
                    devices[assigns[i].1.device_index as int].spec_size(),
                )
            }
}

/// Does the chain hold a `find-disk` command whose name the assignment
/// list leaves unbound? Such a command branches the walk instead of
/// finishing it.
pub open spec fn has_unbound_find_disk(
    configs: Seq<StrategyDefinition>,
    chain: Seq<usize>,
    assigns: Seq<(String, DevicePlan)>,
) -> bool {
    exists|j: int, k: int|
        {
            &&& 0 <= j < chain.len()
            &&& 0 <= k < configs[chain[j] as int].commands@.len()
            &&& (#[trigger] configs[chain[j] as int].commands@[k]) is FindDisk
            &&& !(exists|i: int|
                0 <= i < assigns.len() && (#[trigger] assigns[i]).0@ == configs[chain[j] as int].commands@[k]->FindDisk_0.name@)
        }
}

/// The first stored strategy definition carrying the given name, if any.
/// Names identify definitions, so at most one entry carries a name.
pub open spec fn spec_find_config(configs: Seq<StrategyDefinition>, name: Seq<char>) -> Option<
    int,
>
    decreases configs.len(),
{
    if configs.len() == 0 {
        None
    } else if configs[0].name@ == name {
        Some(0)
    } else {
        match spec_find_config(configs.drop_first(), name) {
            Some(i) => Some(i + 1),
            None => None,
        }
    }
}

/// One backward step of the inheritance walk: prepend the first
/// definition named by the head's `inherits` until a root, an unresolved
/// parent, or a definition already in the chain (an inheritance cycle,
/// which is thereby refused) ends it. The fuel only bounds the walk; one
/// unit is spent per prepended parent.
pub open spec fn spec_chain_step(
    configs: Seq<StrategyDefinition>,
    acc: Seq<usize>,
    fuel: nat,
) -> Seq<usize>
    recommends
        acc.len() >= 1,
    decreases fuel,
{
    if fuel == 0 {
        acc
    } else {
        let head = acc[0];
        match configs[head as int].inherits {
            None => acc,
            Some(p) => match spec_find_config(configs, p@) {
                None => acc,
                Some(pi) => if acc.contains(pi as usize) {
                    acc
                } else {
                    spec_chain_step(configs, seq![pi as usize] + acc, (fuel - 1) as nat)
                },
            },
        }
    }
}

/// The inheritance chain of a definition: its ancestors first, itself
/// last.
pub open spec fn spec_chain(configs: Seq<StrategyDefinition>, index: usize) -> Seq<usize> {
    spec_chain_step(configs, seq![index], configs.len() as nat)
}

/// The bindings an assignment list makes, reduced to what binding
/// decisions depend on: each bound name with its device index.
pub open spec fn bound_names(assigns: Seq<(String, DevicePlan)>) -> Seq<(Seq<char>, int)> {
    Seq::new(assigns.len(), |i: int| (assigns[i].0@, assigns[i].1.device_index as int))
}

/// Is the name bound?
pub open spec fn name_bound(bound: Seq<(Seq<char>, int)>, name: Seq<char>) -> bool {
    exists|i: int| 0 <= i < bound.len() && (#[trigger] bound[i]).0 == name
}

/// Is the device index bound?
pub open spec fn device_bound(bound: Seq<(Seq<char>, int)>, di: int) -> bool {
    exists|i: int| 0 <= i < bound.len() && (#[trigger] bound[i]).1 == di
}

/// Is this command a `find-disk` whose name the bindings leave unbound?
pub open spec fn cmd_unbound(c: Command, bound: Seq<(Seq<char>, int)>) -> bool {
    c matches Command::FindDisk(fd) && !name_bound(bound, fd.name@)
}

/// The position of the first unbound `find-disk` in a command sequence.
pub open spec fn first_unbound_in(cmds: Seq<Command>, bound: Seq<(Seq<char>, int)>) -> Option<int>
    decreases cmds.len(),
{
    if cmds.len() == 0 {
        None
    } else if cmd_unbound(cmds[0], bound) {
        Some(0)
    } else {
        match first_unbound_in(cmds.drop_first(), bound) {
            Some(k) => Some(k + 1),
            None => None,
        }
    }
}

/// The first unbound `find-disk` of a chain, in walk order: the chain
/// position and the command position within it.
pub open spec fn first_unbound(
    configs: Seq<StrategyDefinition>,
    chain: Seq<usize>,
    bound: Seq<(Seq<char>, int)>,
) -> Option<(int, int)>
    decreases chain.len(),
{
    if chain.len() == 0 {
        None
    } else {
        match first_unbound_in(configs[chain[0] as int].commands@, bound) {
            Some(k) => Some((0, k)),
            None => match first_unbound(configs, chain.drop_first(), bound) {
                Some(jk) => Some((jk.0 + 1, jk.1)),
                None => None,
            },
        }
    }
}

/// Can the walk be completed? Either no `find-disk` name is unbound, or
/// the first unbound one admits some unbound device under which the rest
/// can be completed in turn. This is what one emitted plan per complete
/// binding rests on.
pub open spec fn bindable(
    configs: Seq<StrategyDefinition>,
    chain: Seq<usize>,
    devices: Seq<BlockDevice>,
    bound: Seq<(Seq<char>, int)>,
) -> bool
    decreases devices.len() - bound.len(),
{
    match first_unbound(configs, chain, bound) {
        None => true,
        Some(jk) => if bound.len() >= devices.len() {
            false
        } else {
            &&& 0 <= jk.0 < chain.len()
            &&& 0 <= jk.1 < configs[chain[jk.0] as int].commands@.len()
            &&& (configs[chain[jk.0] as int].commands@[jk.1] matches Command::FindDisk(fd)
                && exists|di: int|
                {
                    &&& 0 <= di < devices.len()
                    &&& !device_bound(bound, di)
                    &&& constraint_admits(fd.constraints, (#[trigger] devices[di]).spec_size())
                    &&& bindable(configs, chain, devices, bound.push((fd.name@, di)))
                })
        },
    }
}

/// A command sequence has no unbound `find-disk` exactly when the scan
/// finds none.
proof fn lemma_first_unbound_in_none(cmds: Seq<Command>, bound: Seq<(Seq<char>, int)>)
    ensures
        first_unbound_in(cmds, bound) is None <==> forall|k: int|
            0 <= k < cmds.len() ==> !cmd_unbound(#[trigger] cmds[k], bound),
    decreases cmds.len(),
{
    if cmds.len() > 0 {
        lemma_first_unbound_in_none(cmds.drop_first(), bound);
        if first_unbound_in(cmds, bound) is None {
            assert forall|k: int| 0 <= k < cmds.len() implies !cmd_unbound(
                #[trigger] cmds[k],
                bound,
            ) by {
                if k > 0 {
                    assert(cmds.drop_first()[k - 1] == cmds[k]);
                }
            }
        } else {
            if !cmd_unbound(cmds[0], bound) {
                let k = choose|k: int|
                    0 <= k < cmds.drop_first().len() && cmd_unbound(
                        #[trigger] cmds.drop_first()[k],
                        bound,
                    );
                assert(cmds[k + 1] == cmds.drop_first()[k]);
            }
        }
    }
}

/// A scan that has seen only bound commands and stands on an unbound one
/// has found the first.
proof fn lemma_first_unbound_in_at(cmds: Seq<Command>, bound: Seq<(Seq<char>, int)>, k: int)
    requires
        0 <= k < cmds.len(),
        forall|x: int| 0 <= x < k ==> !cmd_unbound(#[trigger] cmds[x], bound),
        cmd_unbound(cmds[k], bound),
    ensures
        first_unbound_in(cmds, bound) == Some(k),
    decreases k,
{
    if k > 0 {
        assert(forall|x: int|
            0 <= x < k - 1 ==> cmds.drop_first()[x] == cmds[x + 1] && !cmd_unbound(
                #[trigger] cmds.drop_first()[x],
                bound,
            ));
        assert(cmds.drop_first()[k - 1] == cmds[k]);
        lemma_first_unbound_in_at(cmds.drop_first(), bound, k - 1);
    }
}

/// A walk that has exhausted earlier chain entries without an unbound
/// `find-disk` and stands on one has found the first.
proof fn lemma_first_unbound_at(
    configs: Seq<StrategyDefinition>,
    chain: Seq<usize>,
    bound: Seq<(Seq<char>, int)>,
    j: int,
    k: int,
)
    requires
        0 <= j < chain.len(),
        forall|j2: int, x: int|
            0 <= j2 < j && 0 <= x < configs[(#[trigger] chain[j2]) as int].commands@.len()
                ==> !cmd_unbound(#[trigger] configs[chain[j2] as int].commands@[x], bound),
        0 <= k < configs[chain[j] as int].commands@.len(),
        forall|x: int|
            0 <= x < k ==> !cmd_unbound(#[trigger] configs[chain[j] as int].commands@[x], bound),
        cmd_unbound(configs[chain[j] as int].commands@[k], bound),
    ensures
        first_unbound(configs, chain, bound) == Some((j, k)),
    decreases j,
{
    if j == 0 {
        lemma_first_unbound_in_at(configs[chain[0] as int].commands@, bound, k);
    } else {
        lemma_first_unbound_in_none(configs[chain[0] as int].commands@, bound);
        assert(forall|j2: int|
            0 <= j2 < j - 1 ==> chain.drop_first()[j2] == chain[j2 + 1]);
        assert(chain.drop_first()[j - 1] == chain[j]);
        lemma_first_unbound_at(configs, chain.drop_first(), bound, j - 1, k);
    }
}

/// A walk over a chain with no unbound `find-disk` finds none.
proof fn lemma_first_unbound_none(
    configs: Seq<StrategyDefinition>,
    chain: Seq<usize>,
    bound: Seq<(Seq<char>, int)>,
)
    requires
        forall|j: int, x: int|
            0 <= j < chain.len() && 0 <= x < configs[(#[trigger] chain[j]) as int].commands@.len()
                ==> !cmd_unbound(#[trigger] configs[chain[j] as int].commands@[x], bound),
    ensures
        first_unbound(configs, chain, bound) is None,
    decreases chain.len(),
{
    if chain.len() > 0 {
        lemma_first_unbound_in_none(configs[chain[0] as int].commands@, bound);
        assert(forall|j: int|
            0 <= j < chain.len() - 1 ==> chain.drop_first()[j] == chain[j + 1]);
        lemma_first_unbound_none(configs, chain.drop_first(), bound);
    }
}

/// A walk that finds no unbound `find-disk` really has none.
proof fn lemma_first_unbound_none_conv(
    configs: Seq<StrategyDefinition>,
    chain: Seq<usize>,
    bound: Seq<(Seq<char>, int)>,
)
    requires
        first_unbound(configs, chain, bound) is None,
    ensures
        forall|j: int, x: int|
            0 <= j < chain.len() && 0 <= x < configs[(#[trigger] chain[j]) as int].commands@.len()
                ==> !cmd_unbound(#[trigger] configs[chain[j] as int].commands@[x], bound),
    decreases chain.len(),
{
    if chain.len() > 0 {
        lemma_first_unbound_in_none(configs[chain[0] as int].commands@, bound);
        lemma_first_unbound_none_conv(configs, chain.drop_first(), bound);
        assert forall|j: int, x: int|
            0 <= j < chain.len() && 0 <= x < configs[(
            #[trigger] chain[j]) as int].commands@.len() implies !cmd_unbound(
            #[trigger] configs[chain[j] as int].commands@[x],
            bound,
        ) by {
            if j > 0 {
                assert(chain.drop_first()[j - 1] == chain[j]);
            }
        }
    }
}

/// What the walk finds is a real unbound `find-disk`.
proof fn lemma_first_unbound_some_props(
    configs: Seq<StrategyDefinition>,
    chain: Seq<usize>,
    bound: Seq<(Seq<char>, int)>,
    j: int,
    k: int,
)
    requires
        first_unbound(configs, chain, bound) == Some((j, k)),
    ensures
        0 <= j < chain.len(),
        0 <= k < configs[chain[j] as int].commands@.len(),
        cmd_unbound(configs[chain[j] as int].commands@[k], bound),
    decreases chain.len(),
{
    if chain.len() > 0 {
        match first_unbound_in(configs[chain[0] as int].commands@, bound) {
            Some(k0) => {
                lemma_first_unbound_in_some_props(configs[chain[0] as int].commands@, bound, k0);
            },
            None => {
                lemma_first_unbound_some_props(configs, chain.drop_first(), bound, j - 1, k);
                assert(chain.drop_first()[j - 1] == chain[j]);
            },
        }
    }
}

proof fn lemma_first_unbound_in_some_props(
    cmds: Seq<Command>,
    bound: Seq<(Seq<char>, int)>,
    k: int,
)
    requires
        first_unbound_in(cmds, bound) == Some(k),
    ensures
        0 <= k < cmds.len(),
        cmd_unbound(cmds[k], bound),
    decreases cmds.len(),
{
    if cmds.len() > 0 && !cmd_unbound(cmds[0], bound) {
        lemma_first_unbound_in_some_props(cmds.drop_first(), bound, k - 1);
        assert(cmds.drop_first()[k - 1] == cmds[k]);
    }
}

/// The unordered test for an unbound `find-disk` and the ordered scan
/// agree: a chain has one exactly when the scan finds a first one.
pub proof fn lemma_unbound_agree(
    configs: Seq<StrategyDefinition>,
    chain: Seq<usize>,
    assigns: Seq<(String, DevicePlan)>,
)
    requires
        forall|j: int| 0 <= j < chain.len() ==> (#[trigger] chain[j]) < configs.len(),
    ensures
        has_unbound_find_disk(configs, chain, assigns) <==> first_unbound(
            configs,
            chain,
            bound_names(assigns),
        ) is Some,
{
    let bound = bound_names(assigns);
    if has_unbound_find_disk(configs, chain, assigns) {
        let (j, k) = choose|j: int, k: int|
            {
                &&& 0 <= j < chain.len()
                &&& 0 <= k < configs[chain[j] as int].commands@.len()
                &&& #[trigger] configs[chain[j] as int].commands@[k] matches Command::FindDisk(fd)
                &&& !(exists|i: int|
                    0 <= i < assigns.len() && (#[trigger] assigns[i]).0@ == fd.name@)
            };
        let fd = configs[chain[j] as int].commands@[k]->FindDisk_0;
        lemma_name_bound_names(assigns, fd.name@);
        assert(cmd_unbound(configs[chain[j] as int].commands@[k], bound));
        if first_unbound(configs, chain, bound) is None {
            lemma_first_unbound_none_conv(configs, chain, bound);
        }
    }
    if first_unbound(configs, chain, bound) is Some {
        let jk = first_unbound(configs, chain, bound)->Some_0;
        lemma_first_unbound_some_props(configs, chain, bound, jk.0, jk.1);
        let fd = configs[chain[jk.0] as int].commands@[jk.1]->FindDisk_0;
        lemma_name_bound_names(assigns, fd.name@);
        assert({
            &&& 0 <= jk.0 < chain.len()
            &&& 0 <= jk.1 < configs[chain[jk.0] as int].commands@.len()
            &&& configs[chain[jk.0] as int].commands@[jk.1] is FindDisk
            &&& !(exists|i: int|
                0 <= i < assigns.len() && (#[trigger] assigns[i]).0@
                    == configs[chain[jk.0] as int].commands@[jk.1]->FindDisk_0.name@)
        });
    }
}

/// The unbound-name test over an assignment list and over its reduced
/// bindings agree.
proof fn lemma_name_bound_names(assigns: Seq<(String, DevicePlan)>, name: Seq<char>)
    ensures
        name_bound(bound_names(assigns), name) <==> exists|i: int|
            0 <= i < assigns.len() && (#[trigger] assigns[i]).0@ == name,
{
    if name_bound(bound_names(assigns), name) {
        let i = choose|i: int|
            0 <= i < bound_names(assigns).len() && (#[trigger] bound_names(assigns)[i]).0 == name;
        assert(assigns[i].0@ == name);
    }
    if exists|i: int| 0 <= i < assigns.len() && (#[trigger] assigns[i]).0@ == name {
        let i = choose|i: int| 0 <= i < assigns.len() && (#[trigger] assigns[i]).0@ == name;
        assert(bound_names(assigns)[i].0 == name);
    }
}

/// The unbound-device test over an assignment list and over its reduced
/// bindings agree.
proof fn lemma_device_bound_names(assigns: Seq<(String, DevicePlan)>, di: int)
    ensures
        device_bound(bound_names(assigns), di) <==> exists|i: int|
            0 <= i < assigns.len() && (#[trigger] assigns[i]).1.device_index == di,
{
    if device_bound(bound_names(assigns), di) {
        let i = choose|i: int|
            0 <= i < bound_names(assigns).len() && (#[trigger] bound_names(assigns)[i]).1 == di;
        assert(assigns[i].1.device_index == di);
    }
    if exists|i: int| 0 <= i < assigns.len() && (#[trigger] assigns[i]).1.device_index == di {
        let i = choose|i: int|
            0 <= i < assigns.len() && (#[trigger] assigns[i]).1.device_index == di;
        assert(bound_names(assigns)[i].1 == di);
    }
}

/// Does a finished assignment reflect a walked binding? It keeps the
/// binding's name, device and window, and its planner holds exactly what
/// applying its strategy to the binding's planner leaves.
pub open spec fn assignment_applied(entry: (String, DevicePlan), fin: (String, DevicePlan)) -> bool {
    &&& fin.0@ == entry.0@
    &&& fin.1.device_index == entry.1.device_index
    &&& fin.1.planner.usable_start == entry.1.planner.usable_start
    &&& fin.1.planner.usable_end == entry.1.planner.usable_end
    &&& {
        let walked = crate::strategy::apply_outcome(
            fin.1.strategy.allocation,
            fin.1.strategy.requests@,
            entry.1.planner.usable_start,
            entry.1.planner.usable_end,
            entry.1.planner.original_regions@,
            entry.1.planner.changes@,
        ).0;
        fin.1.planner.original_regions@ == walked.0 && fin.1.planner.changes@ == walked.1
    }
}

/// A plan is well formed when its strategy index is in range and its
/// assignments are well formed.
pub open spec fn plan_wf(
    devices: Seq<BlockDevice>,
    configs: Seq<StrategyDefinition>,
    p: Plan,
) -> bool {
    &&& p.strategy_index < configs.len()
    &&& assignments_wf(devices, configs, p.device_assignments@)
}

impl Provisioner {
    /// Every pool device is well formed with disjoint partitions, so a
    /// planner can be seeded from it.
    pub open spec fn inv(self) -> bool {
        forall|i: int|
            0 <= i < self.devices@.len() ==> (#[trigger] self.devices@[i]).wf()
                && self.devices@[i].spec_partitions_disjoint()
    }

    /// Create a new provisioner with an empty pool and no strategies.
    pub fn new() -> (r: Provisioner)
        ensures
            r.inv(),
            r.devices@.len() == 0,
            r.configs@.len() == 0,
    {
        Provisioner { devices: Vec::new(), configs: Vec::new() }
    }

    /// Add a strategy definition. Names identify definitions: a
    /// definition stored under the same name is replaced; a new name is
    /// appended.
    pub fn add_strategy(&mut self, config: StrategyDefinition)
        requires
            old(self).inv(),
        ensures
            final(self).inv(),
            final(self).devices@ == old(self).devices@,
            match spec_find_config(old(self).configs@, config.name@) {
                Some(i) => final(self).configs@ == old(self).configs@.update(i, config),
                None => final(self).configs@ == old(self).configs@.push(config),
            },
    {
        match self.find_config_owned_name(&config.name) {
            Some(i) => {
                self.configs.set(i, config);
            },
            None => {
                self.configs.push(config);
            },
        }
    }

    /// The index `spec_find_config` names, as an executable search.
    fn find_config_owned_name(&self, name: &String) -> (r: Option<usize>)
        ensures
            r matches Some(i) ==> i < self.configs@.len() && spec_find_config(
                self.configs@,
                name@,
            ) == Some(i as int),
            r is None ==> spec_find_config(self.configs@, name@) is None,
    {
        self.find_config(name.as_str())
    }

    /// Add a device to the provisioner pool.
    pub fn push_device(&mut self, device: BlockDevice)
        requires
            old(self).inv(),
            device.wf(),
            device.spec_partitions_disjoint(),
        ensures
            final(self).inv(),
            final(self).devices@ == old(self).devices@.push(device),
            final(self).configs@ == old(self).configs@,
    {
        self.devices.push(device);
    }

    /// The index of the first strategy definition with the given name, if
    /// one exists.
    fn find_config(&self, name: &str) -> (r: Option<usize>)
        ensures
            r matches Some(i) ==> i < self.configs@.len() && self.configs@[i as int].name@ == name@
                && spec_find_config(self.configs@, name@) == Some(i as int),
            r is None ==> spec_find_config(self.configs@, name@) is None,
    {
        let n = self.configs.len();
        let mut i: usize = 0;
        proof {
            assert(self.configs@.skip(0) =~= self.configs@);
        }
        while i < n
            invariant
                0 <= i <= n,
                n == self.configs@.len(),
                spec_find_config(self.configs@, name@) == match spec_find_config(
                    self.configs@.skip(i as int),
                    name@,
                ) {
                    Some(x) => Some(x + i),
                    None => None,
                },
            decreases n - i,
        {
            proof {
                assert(self.configs@.skip(i as int)[0] == self.configs@[i as int]);
                assert(self.configs@.skip(i as int).drop_first() =~= self.configs@.skip(i + 1));
            }
            if str_eq(self.configs[i].name.as_str(), name) {
                return Some(i);
            }
            i += 1;
        }
        proof {
            assert(self.configs@.skip(n as int) =~= Seq::<StrategyDefinition>::empty());
        }
        None
    }

    /// The inheritance chain of a strategy definition, parents first,
    /// exactly as [`spec_chain`] walks it. A parent that cannot be found,
    /// or one already in the chain (an inheritance cycle, which spec
    /// demands be refused), ends the walk.
    fn strategy_parents(&self, index: usize) -> (r: Vec<usize>)
        requires
            index < self.configs@.len(),
        ensures
            r@ == spec_chain(self.configs@, index),
            r@.len() >= 1,
            r@.last() == index,
            forall|i: int| 0 <= i < r@.len() ==> (#[trigger] r@[i]) < self.configs@.len(),
    {
        let mut chain: Vec<usize> = Vec::new();
        chain.push(index);
        let mut steps: usize = 0;
        let max_steps = self.configs.len();
        proof {
            assert(chain@ =~= seq![index]);
        }
        while steps < max_steps
            invariant
                0 <= steps <= max_steps,
                max_steps == self.configs@.len(),
                chain@.len() >= 1,
                chain@.last() == index,
                forall|i: int| 0 <= i < chain@.len() ==> (#[trigger] chain@[i]) < self.configs@.len(),
                spec_chain(self.configs@, index) == spec_chain_step(
                    self.configs@,
                    chain@,
                    (max_steps - steps) as nat,
                ),
            decreases max_steps - steps,
        {
            let head = chain[0];
            let parent_name = match &self.configs[head].inherits {
                Some(p) => p,
                None => {
                    return chain;
                },
            };
            let pi = match self.find_config(parent_name.as_str()) {
                Some(pi) => pi,
                None => {
                    return chain;
                },
            };
            // refuse inheritance cycles: a parent already in the chain
            let mut seen = false;
            let cl = chain.len();
            let mut k: usize = 0;
            while k < cl
                invariant
                    0 <= k <= cl,
                    cl == chain@.len(),
                    seen <==> exists|x: int| 0 <= x < k && chain@[x] == pi,
                decreases cl - k,
            {
                if chain[k] == pi {
                    proof {
                        assert(chain@[k as int] == pi);
                    }
                    seen = true;
                }
                k += 1;
            }
            if seen {
                return chain;
            }
            let ghost pre = chain@;
            chain.insert(0, pi);
            proof {
                assert(chain@ =~= seq![pi] + pre);
                assert(chain@.last() == pre.last());
            }
            steps += 1;
        }
        chain
    }

    /// Attempt all strategies on the pool of devices: each strategy
    /// definition contributes one plan per way of binding its `find-disk`
    /// names to distinct, constraint-satisfying pool devices; a
    /// definition whose chain issues no `find-disk` at all contributes
    /// exactly its one plan.
    pub fn plan(&self) -> (r: Vec<Plan>)
        requires
            self.inv(),
        ensures
            forall|k: int|
                0 <= k < r@.len() ==> plan_wf(self.devices@, self.configs@, #[trigger] r@[k]),
            forall|ci: int|
                0 <= ci < self.configs@.len() && !has_unbound_find_disk(
                    self.configs@,
                    #[trigger] spec_chain(self.configs@, ci as usize),
                    Seq::empty(),
                ) ==> exists|k: int| 0 <= k < r@.len() && (#[trigger] r@[k]).strategy_index == ci,
            forall|ci: int|
                0 <= ci < self.configs@.len() && bindable(
                    self.configs@,
                    #[trigger] spec_chain(self.configs@, ci as usize),
                    self.devices@,
                    Seq::empty(),
                ) ==> exists|k: int| 0 <= k < r@.len() && (#[trigger] r@[k]).strategy_index == ci,
    {
        let mut plans: Vec<Plan> = Vec::new();
        let n = self.configs.len();
        let mut ci: usize = 0;
        while ci < n
            invariant
                0 <= ci <= n,
                n == self.configs@.len(),
                self.inv(),
                forall|k: int|
                    0 <= k < plans@.len() ==> plan_wf(
                        self.devices@,
                        self.configs@,
                        #[trigger] plans@[k],
                    ),
                forall|c: int|
                    0 <= c < ci && !has_unbound_find_disk(
                        self.configs@,
                        #[trigger] spec_chain(self.configs@, c as usize),
                        Seq::empty(),
                    ) ==> exists|k: int|
                        0 <= k < plans@.len() && (#[trigger] plans@[k]).strategy_index == c,
                forall|c: int|
                    0 <= c < ci && bindable(
                        self.configs@,
                        #[trigger] spec_chain(self.configs@, c as usize),
                        self.devices@,
                        Seq::empty(),
                    ) ==> exists|k: int|
                        0 <= k < plans@.len() && (#[trigger] plans@[k]).strategy_index == c,
            decreases n - ci,
        {
            let chain = self.strategy_parents(ci);
            let ghost pre_len = plans@.len();
            let ghost pre_plans = plans@;
            let empty_assignments: Vec<(String, DevicePlan)> = Vec::new();
            proof {
                assert(bound_names(empty_assignments@) =~= Seq::<(Seq<char>, int)>::empty());
            }
            self.create_plans_for_strategy(&chain, ci, empty_assignments, &mut plans);
            proof {
                assert forall|c: int|
                    0 <= c < ci + 1 && !has_unbound_find_disk(
                        self.configs@,
                        #[trigger] spec_chain(self.configs@, c as usize),
                        Seq::empty(),
                    ) implies exists|k: int|
                    0 <= k < plans@.len() && (#[trigger] plans@[k]).strategy_index == c by {
                    if c == ci {
                        assert(plans@[pre_len as int].strategy_index == ci);
                    } else {
                        let k0 = choose|k: int|
                            0 <= k < pre_plans.len() && (#[trigger] pre_plans[k]).strategy_index
                                == c;
                        assert(plans@[k0] == pre_plans[k0]);
                    }
                }
                assert forall|c: int|
                    0 <= c < ci + 1 && bindable(
                        self.configs@,
                        #[trigger] spec_chain(self.configs@, c as usize),
                        self.devices@,
                        Seq::empty(),
                    ) implies exists|k: int|
                    0 <= k < plans@.len() && (#[trigger] plans@[k]).strategy_index == c by {
                    if c == ci {
                        assert(plans@[pre_len as int].strategy_index == ci);
                    } else {
                        let k0 = choose|k: int|
                            0 <= k < pre_plans.len() && (#[trigger] pre_plans[k]).strategy_index
                                == c;
                        assert(plans@[k0] == pre_plans[k0]);
                    }
                }
            }
            ci += 1;
        }
        plans
    }

    /// Walk the chain's commands over the given assignments. The first
    /// `find-disk` of an unbound name branches: one recursive walk per
    /// admissible unassigned device. Once every command is processed the
    /// composed strategies are applied to their planners (a failed
    /// application leaves that planner's queued changes as they are) and
    /// exactly one plan is emitted, carrying the walked bindings with
    /// each planner left as the application outcome over its binding's
    /// planner. Whenever the bindings can be completed at all
    /// ([`bindable`]), at least one plan comes out.
    #[verifier::loop_isolation(false)]
    fn create_plans_for_strategy(
        &self,
        chain: &Vec<usize>,
        strategy_index: usize,
        assignments: Vec<(String, DevicePlan)>,
        plans: &mut Vec<Plan>,
    )
        requires
            self.inv(),
            strategy_index < self.configs@.len(),
            forall|i: int| 0 <= i < chain@.len() ==> (#[trigger] chain@[i]) < self.configs@.len(),
            assignments_wf(self.devices@, self.configs@, assignments@),
            forall|k: int|
                0 <= k < old(plans)@.len() ==> plan_wf(
                    self.devices@,
                    self.configs@,
                    #[trigger] old(plans)@[k],
                ),
        ensures
            final(plans)@.len() >= old(plans)@.len(),
            forall|k: int|
                0 <= k < final(plans)@.len() ==> plan_wf(
                    self.devices@,
                    self.configs@,
                    #[trigger] final(plans)@[k],
                ),
            forall|k: int|
                0 <= k < old(plans)@.len() ==> #[trigger] final(plans)@[k] == old(plans)@[k],
            forall|k: int|
                old(plans)@.len() <= k < final(plans)@.len() ==> (#[trigger] final(plans)@[k]).strategy_index
                    == strategy_index,
            !has_unbound_find_disk(self.configs@, chain@, assignments@) ==> {
                &&& final(plans)@.len() == old(plans)@.len() + 1
                &&& final(plans)@.last().device_assignments@.len() == assignments@.len()
                &&& forall|x: int|
                    0 <= x < assignments@.len() ==> assignment_applied(
                        assignments@[x],
                        #[trigger] final(plans)@.last().device_assignments@[x],
                    )
            },
            bindable(self.configs@, chain@, self.devices@, bound_names(assignments@))
                ==> final(plans)@.len() > old(plans)@.len(),
        decreases self.devices@.len() - assignments@.len(),
    {
        let ghost alen = assignments@.len();
        let ghost entry_assigns = assignments@;
        let ghost gbound = bound_names(entry_assigns);
        let mut assignments = assignments;
        let chain_len = chain.len();
        let mut j: usize = 0;
        while j < chain_len
            invariant
                assignments@.len() == alen,
                forall|i: int|
                    0 <= i < alen ==> (#[trigger] assignments@[i]).0@ == entry_assigns[i].0@,
                forall|i: int|
                    0 <= i < alen ==> (#[trigger] assignments@[i]).1.device_index
                        == entry_assigns[i].1.device_index,
                forall|i: int|
                    0 <= i < alen ==> {
                        &&& (#[trigger] assignments@[i]).1.planner.usable_start
                            == entry_assigns[i].1.planner.usable_start
                        &&& assignments@[i].1.planner.usable_end
                            == entry_assigns[i].1.planner.usable_end
                        &&& assignments@[i].1.planner.original_regions@
                            == entry_assigns[i].1.planner.original_regions@
                        &&& assignments@[i].1.planner.changes@
                            == entry_assigns[i].1.planner.changes@
                    },
                0 <= j <= chain_len,
                chain_len == chain@.len(),
                self.inv(),
                strategy_index < self.configs@.len(),
                forall|i: int| 0 <= i < chain@.len() ==> (#[trigger] chain@[i]) < self.configs@.len(),
                assignments_wf(self.devices@, self.configs@, assignments@),
                forall|k: int|
                    0 <= k < plans@.len() ==> plan_wf(
                        self.devices@,
                        self.configs@,
                        #[trigger] plans@[k],
                    ),
                plans@.len() == old(plans)@.len(),
                forall|kk: int|
                    0 <= kk < old(plans)@.len() ==> #[trigger] plans@[kk] == old(plans)@[kk],
                forall|j2: int, x: int|
                    0 <= j2 < j && 0 <= x < self.configs@[(#[trigger] chain@[j2]) as int].commands@.len()
                        ==> !cmd_unbound(
                        #[trigger] self.configs@[chain@[j2] as int].commands@[x],
                        gbound,
                    ),
            decreases chain_len - j,
        {
            let cfg = chain[j];
            let cmd_len = self.configs[cfg].commands.len();
            let mut k: usize = 0;
            while k < cmd_len
                invariant
                    0 <= k <= cmd_len,
                    0 <= j < chain@.len(),
                    cmd_len == self.configs@[chain@[j as int] as int].commands@.len(),
                    cfg == chain@[j as int],
                    assignments@.len() == alen,
                    forall|i: int|
                        0 <= i < alen ==> (#[trigger] assignments@[i]).0@ == entry_assigns[i].0@,
                    forall|i: int|
                        0 <= i < alen ==> (#[trigger] assignments@[i]).1.device_index
                            == entry_assigns[i].1.device_index,
                    forall|i: int|
                        0 <= i < alen ==> {
                            &&& (#[trigger] assignments@[i]).1.planner.usable_start
                                == entry_assigns[i].1.planner.usable_start
                            &&& assignments@[i].1.planner.usable_end
                                == entry_assigns[i].1.planner.usable_end
                            &&& assignments@[i].1.planner.original_regions@
                                == entry_assigns[i].1.planner.original_regions@
                            &&& assignments@[i].1.planner.changes@
                                == entry_assigns[i].1.planner.changes@
                        },
                    self.inv(),
                    strategy_index < self.configs@.len(),
                    forall|i: int|
                        0 <= i < chain@.len() ==> (#[trigger] chain@[i]) < self.configs@.len(),
                    assignments_wf(self.devices@, self.configs@, assignments@),
                    forall|kk: int|
                        0 <= kk < plans@.len() ==> plan_wf(
                            self.devices@,
                            self.configs@,
                            #[trigger] plans@[kk],
                        ),
                    plans@.len() == old(plans)@.len(),
                    forall|kk: int|
                        0 <= kk < old(plans)@.len() ==> #[trigger] plans@[kk] == old(plans)@[kk],
                    forall|j2: int, x: int|
                        0 <= j2 < j && 0 <= x < self.configs@[(
                        #[trigger] chain@[j2]) as int].commands@.len() ==> !cmd_unbound(
                            #[trigger] self.configs@[chain@[j2] as int].commands@[x],
                            gbound,
                        ),
                    forall|x: int|
                        0 <= x < k ==> !cmd_unbound(
                            #[trigger] self.configs@[chain@[j as int] as int].commands@[x],
                            gbound,
                        ),
                decreases cmd_len - k,
            {
                match &self.configs[cfg].commands[k] {
                    Command::FindDisk(command) => {
                        let lookup = assignment_lookup(&assignments, command.name.as_str());
                        match lookup {
                            Some(ai) => {
                                // the name is already bound; the command is
                                // settled for this branch
                                proof {
                                    assert(entry_assigns[ai as int].0@ == command.name@) by {
                                        assert(assignments@[ai as int].0@
                                            == entry_assigns[ai as int].0@);
                                    }
                                    lemma_name_bound_names(entry_assigns, command.name@);
                                    assert(!cmd_unbound(
                                        self.configs@[chain@[j as int] as int].commands@[k as int],
                                        gbound,
                                    ));
                                }
                            },
                            None => {
                            proof {
                                lemma_name_bound_names(entry_assigns, command.name@);
                                assert(!name_bound(gbound, command.name@)) by {
                                    if exists|i: int|
                                        0 <= i < entry_assigns.len() && (
                                        #[trigger] entry_assigns[i]).0@ == command.name@ {
                                        let i = choose|i: int|
                                            0 <= i < entry_assigns.len() && (
                                            #[trigger] entry_assigns[i]).0@ == command.name@;
                                        assert(assignments@[i].0@ == entry_assigns[i].0@);
                                    }
                                }
                                lemma_first_unbound_at(
                                    self.configs@,
                                    chain@,
                                    gbound,
                                    j as int,
                                    k as int,
                                );
                            }
                            // branch: one recursive walk per admissible
                            // unassigned device
                            let device_count = self.devices.len();
                            let mut di: usize = 0;
                            while di < device_count
                                invariant
                                    0 <= di <= device_count,
                                    device_count == self.devices@.len(),
                                    self.inv(),
                                    strategy_index < self.configs@.len(),
                                    forall|i: int|
                                        0 <= i < chain@.len() ==> (#[trigger] chain@[i])
                                            < self.configs@.len(),
                                    assignments_wf(self.devices@, self.configs@, assignments@),
                                    assignments@.len() == alen,
                                    0 <= j < chain@.len(),
                                    cfg == chain@[j as int],
                                    k < self.configs@[cfg as int].commands@.len(),
                                    self.configs@[cfg as int].commands@[k as int]
                                        matches Command::FindDisk(fd) && fd == command,
                                    forall|i: int|
                                        0 <= i < assignments@.len() ==> (
                                        #[trigger] assignments@[i]).0@ != command.name@,
                                    forall|kk: int|
                                        0 <= kk < plans@.len() ==> plan_wf(
                                            self.devices@,
                                            self.configs@,
                                            #[trigger] plans@[kk],
                                        ),
                                    plans@.len() >= old(plans)@.len(),
                                    forall|kk: int|
                                        0 <= kk < old(plans)@.len() ==> #[trigger] plans@[kk]
                                            == old(plans)@[kk],
                                    forall|kk: int|
                                        old(plans)@.len() <= kk < plans@.len() ==> (
                                        #[trigger] plans@[kk]).strategy_index == strategy_index,
                                    plans@.len() > old(plans)@.len() || !bindable(
                                        self.configs@,
                                        chain@,
                                        self.devices@,
                                        gbound,
                                    ) || exists|dw: int|
                                        {
                                            &&& di <= dw < self.devices@.len()
                                            &&& !device_bound(gbound, dw)
                                            &&& constraint_admits(
                                                command.constraints,
                                                (#[trigger] self.devices@[dw]).spec_size(),
                                            )
                                            &&& bindable(
                                                self.configs@,
                                                chain@,
                                                self.devices@,
                                                gbound.push((command.name@, dw)),
                                            )
                                        },
                                decreases device_count - di,
                            {
                                let ghost grew_before = plans@.len() > old(plans)@.len();
                                let admitted = {
                                    let size = self.devices[di].size();
                                    match &command.constraints {
                                        Some(Constraints::AtLeast(n)) => size >= *n,
                                        Some(Constraints::Exact(n)) => size == *n,
                                        Some(Constraints::Range { min, max }) => size >= *min
                                            && size <= *max,
                                        Some(Constraints::Remaining) => true,
                                        None => true,
                                    }
                                };
                                proof {
                                    assert(admitted == constraint_admits(
                                        command.constraints,
                                        self.devices@[di as int].spec_size(),
                                    ));
                                }
                                let already = device_assigned(&assignments, di);
                                proof {
                                    lemma_device_bound_names(entry_assigns, di as int);
                                    if already {
                                        let i = choose|i: int|
                                            0 <= i < assignments@.len() && (
                                            #[trigger] assignments@[i]).1.device_index == di;
                                        assert(entry_assigns[i].1.device_index == di);
                                    }
                                    if device_bound(gbound, di as int) {
                                        let i = choose|i: int|
                                            0 <= i < entry_assigns.len() && (
                                            #[trigger] entry_assigns[i]).1.device_index == di;
                                        assert(assignments@[i].1.device_index == di);
                                    }
                                    assert(already == device_bound(gbound, di as int));
                                }
                                if admitted && !already {
                                    let mut new_assignments = clone_assignments(&assignments);
                                    let planner = Planner::new(&self.devices[di]);
                                    let dp = DevicePlan {
                                        device_index: di,
                                        planner,
                                        strategy: Strategy::new(AllocationStrategy::LargestFree),
                                    };
                                    let ghost pre = new_assignments@;
                                    new_assignments.push((command.name.clone(), dp));
                                    proof {
                                        lemma_assignment_extend(
                                            self.devices@,
                                            self.configs@,
                                            pre,
                                            new_assignments@,
                                            cfg as int,
                                            k as int,
                                        );
                                        lemma_assignment_count(
                                            self.devices@,
                                            self.configs@,
                                            pre,
                                            di as int,
                                        );
                                    }
                                    let ghost covered = plans@;
                                    proof {
                                        assert(bound_names(new_assignments@) =~= gbound.push(
                                            (command.name@, di as int),
                                        ));
                                    }
                                    self.create_plans_for_strategy(
                                        chain,
                                        strategy_index,
                                        new_assignments,
                                        plans,
                                    );
                                    proof {
                                        assert forall|kk: int|
                                            old(plans)@.len() <= kk < plans@.len() implies (
                                        #[trigger] plans@[kk]).strategy_index
                                            == strategy_index by {
                                            if kk < covered.len() {
                                                assert(plans@[kk] == covered[kk]);
                                            }
                                        }
                                    }
                                }
                                proof {
                                    // when the walk can be completed, either a
                                    // plan was already emitted or a later
                                    // device still completes it
                                    if !grew_before && !(plans@.len() > old(plans)@.len())
                                        && bindable(self.configs@, chain@, self.devices@, gbound) {
                                        let dw = choose|dw: int|
                                            {
                                                &&& di <= dw < self.devices@.len()
                                                &&& !device_bound(gbound, dw)
                                                &&& constraint_admits(
                                                    command.constraints,
                                                    (#[trigger] self.devices@[dw]).spec_size(),
                                                )
                                                &&& bindable(
                                                    self.configs@,
                                                    chain@,
                                                    self.devices@,
                                                    gbound.push((command.name@, dw)),
                                                )
                                            };
                                        assert(dw > di);
                                    }
                                }
                                di += 1;
                            }
                            proof {
                                // a find-disk command of the chain names an
                                // unbound name, so no plan of the walked
                                // bindings is owed here
                                let cmd = self.configs@[chain@[j as int] as int].commands@[k as int];
                                assert(cmd is FindDisk);
                                assert(cmd->FindDisk_0.name@ == command.name@);
                                assert forall|i: int|
                                    0 <= i < entry_assigns.len() implies (
                                #[trigger] entry_assigns[i]).0@ != cmd->FindDisk_0.name@ by {
                                    assert(assignments@[i].0@ == entry_assigns[i].0@);
                                    assert(assignments@[i].0@ != command.name@);
                                }
                                assert(has_unbound_find_disk(
                                    self.configs@,
                                    chain@,
                                    entry_assigns,
                                )) by {
                                    assert({
                                        &&& 0 <= j < chain@.len()
                                        &&& 0 <= k
                                            < self.configs@[chain@[j as int] as int].commands@.len()
                                        &&& self.configs@[chain@[j as int] as int].commands@[k as int]
                                            is FindDisk
                                        &&& !(exists|i: int|
                                            0 <= i < entry_assigns.len() && (
                                            #[trigger] entry_assigns[i]).0@
                                                == self.configs@[chain@[j as int] as int].commands@[k as int]->FindDisk_0.name@)
                                    });
                                }
                            }
                            return ;
                            },
                        }
                    },
                    Command::CreatePartitionTable(command) => {
                        proof {
                            assert(!cmd_unbound(
                                self.configs@[chain@[j as int] as int].commands@[k as int],
                                gbound,
                            ));
                        }
                        match assignment_lookup(&assignments, command.disk.as_str()) {
                            Some(ai) => {
                                let name = assignments[ai].0.clone();
                                let dp = &assignments[ai].1;
                                let replacement = DevicePlan {
                                    device_index: dp.device_index,
                                    planner: dp.planner.clone(),
                                    strategy: Strategy::new(
                                        AllocationStrategy::InitializeWholeDisk,
                                    ),
                                };
                                let ghost pre = assignments@;
                                assignments.set(ai, (name, replacement));
                                proof {
                                    lemma_assignment_update(
                                        self.devices@,
                                        self.configs@,
                                        pre,
                                        assignments@,
                                        ai as int,
                                    );
                                }
                            },
                            None => {
                                // a missing disk is tolerated; the
                                // command is skipped
                            },
                        }
                    },
                    Command::CreatePartition(command) => {
                        proof {
                            assert(!cmd_unbound(
                                self.configs@[chain@[j as int] as int].commands@[k as int],
                                gbound,
                            ));
                        }
                        match assignment_lookup(&assignments, command.disk.as_str()) {
                            Some(ai) => {
                                let name = assignments[ai].0.clone();
                                let dp = &assignments[ai].1;
                                let mut strategy = dp.strategy.clone();
                                strategy.add_request(
                                    PartitionRequest {
                                        size: match &command.constraints {
                                            Constraints::AtLeast(n) => SizeRequirement::AtLeast(
                                                *n,
                                            ),
                                            Constraints::Exact(n) => SizeRequirement::Exact(*n),
                                            Constraints::Range { min, max } => {
                                                SizeRequirement::Range { min: *min, max: *max }
                                            },
                                            Constraints::Remaining => SizeRequirement::Remaining,
                                        },
                                    },
                                );
                                let replacement = DevicePlan {
                                    device_index: dp.device_index,
                                    planner: dp.planner.clone(),
                                    strategy,
                                };
                                let ghost pre = assignments@;
                                assignments.set(ai, (name, replacement));
                                proof {
                                    lemma_assignment_update(
                                        self.devices@,
                                        self.configs@,
                                        pre,
                                        assignments@,
                                        ai as int,
                                    );
                                }
                            },
                            None => {},
                        }
                    },
                }
                k += 1;
            }
            j += 1;
        }

        // all commands processed: apply each strategy to its planner and
        // emit the plan (an application failure still emits the plan)
        let count = assignments.len();
        let mut finished: Vec<(String, DevicePlan)> = Vec::new();
        let mut i: usize = 0;
        while i < count
            invariant
                0 <= i <= count,
                count == assignments@.len(),
                self.inv(),
                assignments_wf(self.devices@, self.configs@, assignments@),
                finished@.len() == i,
                forall|x: int|
                    0 <= x < i ==> (#[trigger] finished@[x]).0@ == assignments@[x].0@ && finished@[x].1.device_index
                        == assignments@[x].1.device_index && finished@[x].1.planner.inv(),
                forall|x: int|
                    0 <= x < i ==> !((#[trigger] finished@[x]).1.strategy.allocation
                        is SpecificRegion),
                forall|x: int|
                    0 <= x < i ==> assignment_applied(entry_assigns[x], #[trigger] finished@[x]),
            decreases count - i,
        {
            let name = assignments[i].0.clone();
            let dp = &assignments[i].1;
            let mut planner = dp.planner.clone();
            let strategy = dp.strategy.clone();
            let _ = strategy.apply(&mut planner);
            finished.push((name, DevicePlan { device_index: dp.device_index, planner, strategy }));
            i += 1;
        }
        let plan = Plan { strategy_index, device_assignments: finished };
        proof {
            lemma_assignment_rebuild(self.devices@, self.configs@, assignments@, plan.device_assignments@);
        }
        plans.push(plan);
    }

}

/// The index of the assignment bound to `name`, if any.
fn assignment_lookup(assignments: &Vec<(String, DevicePlan)>, name: &str) -> (r: Option<usize>)
    ensures
        r matches Some(i) ==> i < assignments@.len() && assignments@[i as int].0@ == name@,
        r is None ==> forall|i: int|
            0 <= i < assignments@.len() ==> (#[trigger] assignments@[i]).0@ != name@,
{
    let n = assignments.len();
    let mut i: usize = 0;
    while i < n
        invariant
            0 <= i <= n,
            n == assignments@.len(),
            forall|x: int| 0 <= x < i ==> (#[trigger] assignments@[x]).0@ != name@,
        decreases n - i,
    {
        if str_eq(assignments[i].0.as_str(), name) {
            return Some(i);
        }
        i += 1;
    }
    None
}

/// Is the pool device at `di` already bound by an assignment?
fn device_assigned(assignments: &Vec<(String, DevicePlan)>, di: usize) -> (r: bool)
    ensures
        r == exists|i: int|
            0 <= i < assignments@.len() && (#[trigger] assignments@[i]).1.device_index == di,
{
    let n = assignments.len();
    let mut i: usize = 0;
    while i < n
        invariant
            0 <= i <= n,
            n == assignments@.len(),
            forall|x: int| 0 <= x < i ==> (#[trigger] assignments@[x]).1.device_index != di,
        decreases n - i,
    {
        if assignments[i].1.device_index == di {
            proof {
                assert(assignments@[i as int].1.device_index == di);
            }
            return true;
        }
        i += 1;
    }
    false
}

/// Copy an assignment list, keeping every binding's name, device index,
/// planner state and strategy.
fn clone_assignments(assignments: &Vec<(String, DevicePlan)>) -> (r: Vec<(String, DevicePlan)>)
    ensures
        r@.len() == assignments@.len(),
        forall|i: int|
            0 <= i < r@.len() ==> {
                &&& (#[trigger] r@[i]).0@ == assignments@[i].0@
                &&& r@[i].1.device_index == assignments@[i].1.device_index
                &&& r@[i].1.planner.usable_start == assignments@[i].1.planner.usable_start
                &&& r@[i].1.planner.usable_end == assignments@[i].1.planner.usable_end
                &&& r@[i].1.planner.changes@ == assignments@[i].1.planner.changes@
                &&& r@[i].1.planner.original_regions@
                    == assignments@[i].1.planner.original_regions@
                &&& r@[i].1.strategy.allocation == assignments@[i].1.strategy.allocation
                &&& r@[i].1.strategy.requests@ == assignments@[i].1.strategy.requests@
            },
{
    let n = assignments.len();
    let mut out: Vec<(String, DevicePlan)> = Vec::new();
    let mut i: usize = 0;
    while i < n
        invariant
            0 <= i <= n,
            n == assignments@.len(),
            out@.len() == i,
            forall|x: int|
                0 <= x < i ==> {
                    &&& (#[trigger] out@[x]).0@ == assignments@[x].0@
                    &&& out@[x].1.device_index == assignments@[x].1.device_index
                    &&& out@[x].1.planner.usable_start == assignments@[x].1.planner.usable_start
                    &&& out@[x].1.planner.usable_end == assignments@[x].1.planner.usable_end
                    &&& out@[x].1.planner.changes@ == assignments@[x].1.planner.changes@
                    &&& out@[x].1.planner.original_regions@
                        == assignments@[x].1.planner.original_regions@
                    &&& out@[x].1.strategy.allocation == assignments@[x].1.strategy.allocation
                    &&& out@[x].1.strategy.requests@ == assignments@[x].1.strategy.requests@
                },
        decreases n - i,
    {
        let name = assignments[i].0.clone();
        let dp = &assignments[i].1;
        out.push(
            (
                name,
                DevicePlan {
                    device_index: dp.device_index,
                    planner: dp.planner.clone(),
                    strategy: dp.strategy.clone(),
                },
            ),
        );
        i += 1;
    }
    out
}

/// Replacing one assignment's strategy or planner (keeping its name and
/// device) preserves well-formedness, provided the new planner keeps its
/// invariant and the new strategy names no caller-given region.
proof fn lemma_assignment_update(
    devices: Seq<BlockDevice>,
    configs: Seq<StrategyDefinition>,
    pre: Seq<(String, DevicePlan)>,
    post: Seq<(String, DevicePlan)>,
    ai: int,
)
    requires
        assignments_wf(devices, configs, pre),
        0 <= ai < pre.len(),
        post.len() == pre.len(),
        forall|i: int| 0 <= i < pre.len() && i != ai ==> post[i] == pre[i],
        post[ai].0@ == pre[ai].0@,
        post[ai].1.device_index == pre[ai].1.device_index,
        post[ai].1.planner.inv(),
        !(post[ai].1.strategy.allocation is SpecificRegion),
    ensures
        assignments_wf(devices, configs, post),
{
    assert forall|i: int| 0 <= i < post.len() implies exists|ci: int, k: int|
        {
            &&& 0 <= ci < configs.len()
            &&& 0 <= k < configs[ci].commands@.len()
            &&& #[trigger] configs[ci].commands@[k] matches Command::FindDisk(fd)
            &&& fd.name@ == (#[trigger] post[i]).0@
            &&& constraint_admits(
                fd.constraints,
                devices[post[i].1.device_index as int].spec_size(),
            )
        } by {
        let (ci, k) = choose|ci: int, k: int|
            {
                &&& 0 <= ci < configs.len()
                &&& 0 <= k < configs[ci].commands@.len()
                &&& #[trigger] configs[ci].commands@[k] matches Command::FindDisk(fd)
                &&& fd.name@ == pre[i].0@
                &&& constraint_admits(
                    fd.constraints,
                    devices[pre[i].1.device_index as int].spec_size(),
                )
            };
        assert(configs[ci].commands@[k] is FindDisk);
    }
}

/// Appending a binding for a fresh name and a fresh, admitted device
/// preserves well-formedness.
proof fn lemma_assignment_extend(
    devices: Seq<BlockDevice>,
    configs: Seq<StrategyDefinition>,
    pre: Seq<(String, DevicePlan)>,
    post: Seq<(String, DevicePlan)>,
    cfg: int,
    k: int,
)
    requires
        assignments_wf(devices, configs, pre),
        post == pre.push(post.last()),
        post.len() == pre.len() + 1,
        post.last().1.device_index < devices.len(),
        forall|i: int|
            0 <= i < pre.len() ==> (#[trigger] pre[i]).1.device_index
                != post.last().1.device_index,
        forall|i: int| 0 <= i < pre.len() ==> (#[trigger] pre[i]).0@ != post.last().0@,
        post.last().1.planner.inv(),
        !(post.last().1.strategy.allocation is SpecificRegion),
        0 <= cfg < configs.len(),
        0 <= k < configs[cfg].commands@.len(),
        configs[cfg].commands@[k] matches Command::FindDisk(fd) && fd.name@ == post.last().0@
            && constraint_admits(
            fd.constraints,
            devices[post.last().1.device_index as int].spec_size(),
        ),
    ensures
        assignments_wf(devices, configs, post),
{
    assert forall|i: int| 0 <= i < post.len() implies exists|ci: int, kk: int|
        {
            &&& 0 <= ci < configs.len()
            &&& 0 <= kk < configs[ci].commands@.len()
            &&& #[trigger] configs[ci].commands@[kk] matches Command::FindDisk(fd)
            &&& fd.name@ == (#[trigger] post[i]).0@
            &&& constraint_admits(
                fd.constraints,
                devices[post[i].1.device_index as int].spec_size(),
            )
        } by {
        if i < pre.len() {
            assert(post[i] == pre[i]);
            let (ci, kk) = choose|ci: int, kk: int|
                {
                    &&& 0 <= ci < configs.len()
                    &&& 0 <= kk < configs[ci].commands@.len()
                    &&& #[trigger] configs[ci].commands@[kk] matches Command::FindDisk(fd)
                    &&& fd.name@ == pre[i].0@
                    &&& constraint_admits(
                        fd.constraints,
                        devices[pre[i].1.device_index as int].spec_size(),
                    )
                };
            assert(configs[ci].commands@[kk] is FindDisk);
        } else {
            assert(configs[cfg].commands@[k] is FindDisk);
        }
    }
}

/// A well-formed assignment list never outnumbers the pool: its device
/// indices are distinct values below the pool size.
proof fn lemma_assignment_card_le(
    devices: Seq<BlockDevice>,
    configs: Seq<StrategyDefinition>,
    assigns: Seq<(String, DevicePlan)>,
)
    requires
        assignments_wf(devices, configs, assigns),
    ensures
        assigns.len() <= devices.len(),
{
    let idxs = Seq::new(assigns.len(), |i: int| assigns[i].1.device_index as int);
    assert(idxs.no_duplicates());
    idxs.unique_seq_to_set();
    let bound = vstd::set_lib::set_int_range(0, devices.len() as int);
    assert forall|x: int| idxs.to_set().contains(x) implies bound.contains(x) by {
        let i = choose|i: int| 0 <= i < idxs.len() && idxs[i] == x;
        assert(assigns[i].1.device_index < devices.len());
    }
    vstd::set_lib::lemma_int_range(0, devices.len() as int);
    vstd::set_lib::lemma_len_subset(idxs.to_set(), bound);
}

/// A well-formed assignment list that leaves some device unbound is
/// strictly smaller than the pool: distinct indices below the pool size,
/// avoiding one value, cannot number the whole pool.
proof fn lemma_assignment_count(
    devices: Seq<BlockDevice>,
    configs: Seq<StrategyDefinition>,
    assigns: Seq<(String, DevicePlan)>,
    d: int,
)
    requires
        assignments_wf(devices, configs, assigns),
        0 <= d < devices.len(),
        forall|i: int| 0 <= i < assigns.len() ==> (#[trigger] assigns[i]).1.device_index != d,
    ensures
        assigns.len() < devices.len(),
{
    let idxs = Seq::new(assigns.len(), |i: int| assigns[i].1.device_index as int);
    assert(idxs.no_duplicates());
    idxs.unique_seq_to_set();
    let bound = vstd::set_lib::set_int_range(0, devices.len() as int).remove(d);
    assert forall|x: int| idxs.to_set().contains(x) implies bound.contains(x) by {
        let i = choose|i: int| 0 <= i < idxs.len() && idxs[i] == x;
        assert(assigns[i].1.device_index < devices.len());
        assert(assigns[i].1.device_index != d);
    }
    vstd::set_lib::lemma_int_range(0, devices.len() as int);
    broadcast use vstd::set::axiom_set_remove_len;
    assert(vstd::set_lib::set_int_range(0, devices.len() as int).contains(d));
    vstd::set_lib::lemma_len_subset(idxs.to_set(), bound);
}

/// Rebuilding each assignment with an applied planner keeps the list well
/// formed when names, devices, planner invariants and allocation kinds
/// carry over.
proof fn lemma_assignment_rebuild(
    devices: Seq<BlockDevice>,
    configs: Seq<StrategyDefinition>,
    pre: Seq<(String, DevicePlan)>,
    post: Seq<(String, DevicePlan)>,
)
    requires
        assignments_wf(devices, configs, pre),
        post.len() == pre.len(),
        forall|i: int|
            0 <= i < post.len() ==> (#[trigger] post[i]).0@ == pre[i].0@ && post[i].1.device_index
                == pre[i].1.device_index && post[i].1.planner.inv(),
        forall|i: int|
            0 <= i < post.len() ==> !((#[trigger] post[i]).1.strategy.allocation
                is SpecificRegion),
    ensures
        assignments_wf(devices, configs, post),
{
    assert forall|i: int| 0 <= i < post.len() implies exists|ci: int, kk: int|
        {
            &&& 0 <= ci < configs.len()
            &&& 0 <= kk < configs[ci].commands@.len()
            &&& #[trigger] configs[ci].commands@[kk] matches Command::FindDisk(fd)
            &&& fd.name@ == (#[trigger] post[i]).0@
            &&& constraint_admits(
                fd.constraints,
                devices[post[i].1.device_index as int].spec_size(),
            )
        } by {
        let (ci, kk) = choose|ci: int, kk: int|
            {
                &&& 0 <= ci < configs.len()
                &&& 0 <= kk < configs[ci].commands@.len()
                &&& #[trigger] configs[ci].commands@[kk] matches Command::FindDisk(fd)
                &&& fd.name@ == pre[i].0@
                &&& constraint_admits(
                    fd.constraints,
                    devices[pre[i].1.device_index as int].spec_size(),
                )
            };
        assert(configs[ci].commands@[kk] is FindDisk);
    }
}

} // verus!
