//! Virtual machines, environments and the server's resource accounting.
use vstd::prelude::*;
use crate::error::CoreError;
use crate::mocker::{pause, resume};
use crate::table::{Table, has_key, lemma_remove_insert, unique_keys, without_keys};
use crate::text::{file_name_of, path_file_name};
use crate::types::{CliId, EnvId, EnvInfo, EnvMeta, Ipv4, PubPort, VmId, VmInfo, VmKind, VmPort};

verus! {

/// The longest life time, in seconds, that an ordinary client may ask for.
pub const MAX_LIFE_TIME: u64 = 6 * 3600;

/// The shortest interval, in seconds, between two starts or stops of an environment.
pub const MIN_START_STOP_ITV: u64 = 20;

/// The resources of the server: totals and what is in use.
#[derive(Clone, Copy, Debug)]
pub struct Resource {
    pub vm_active: i32,
    pub cpu_total: i32,
    pub cpu_used: i32,
    pub memory_total: i32,
    pub memory_used: i32,
    pub disk_total: i32,
    pub disk_used: i32,
}

/// A pool with the given totals and nothing in use.
pub open spec fn fresh_pool(cpu_total: i32, memory_total: i32, disk_total: i32) -> Resource {
    Resource {
        vm_active: 0,
        cpu_total,
        cpu_used: 0,
        memory_total,
        memory_used: 0,
        disk_total,
        disk_used: 0,
    }
}

impl Default for Resource {
    fn default() -> (r: Self)
        ensures
            r == (Resource {
                vm_active: 0,
                cpu_total: 0,
                cpu_used: 0,
                memory_total: 0,
                memory_used: 0,
                disk_total: 0,
                disk_used: 0,
            }),
    {
        Resource {
            vm_active: 0,
            cpu_total: 0,
            cpu_used: 0,
            memory_total: 0,
            memory_used: 0,
            disk_total: 0,
            disk_used: 0,
        }
    }
}

impl Resource {
    /// A pool with the given totals and nothing in use.
    pub fn new(cpu_total: i32, memory_total: i32, disk_total: i32) -> (r: Resource)
        ensures
            r == fresh_pool(cpu_total, memory_total, disk_total),
    {
        let mut res = Resource::default();
        res.cpu_total = cpu_total;
        res.memory_total = memory_total;
        res.disk_total = disk_total;
        res
    }
}

/// A virtual machine of an environment.
pub struct Vm {
    /// Where its disk image is.
    pub image_path: String,
    pub kind: VmKind,
    pub cpu_num: i32,
    pub memory_size: i32,
    pub disk_size: i32,
    pub id: VmId,
    pub ip: Ipv4,
    /// Which public port of the server forwards to which of its ports.
    pub port_map: Table<VmPort, PubPort>,
    pub during_stop: bool,
    pub image_cached: bool,
    pub rand_uuid: bool,
}

impl Vm {
    /// The id of the machine.
    pub fn get_id(&self) -> (id: VmId)
        ensures
            id == self.id,
    {
        self.id
    }

    /// What a client is told about the machine.
    pub fn as_info(&self) -> (info: VmInfo)
        ensures
            is_info_of(info, *self),
    {
        let os = match file_name_of(self.image_path.as_str()) {
            Some(n) => n,
            None => "Unknown".to_owned(),
        };
        VmInfo {
            os,
            cpu_num: self.cpu_num,
            memory_size: self.memory_size,
            disk_size: self.disk_size,
            ip: self.ip.clone(),
            port_map: self.port_map.copied(),
        }
    }
}

/// An environment: a group of virtual machines that a client owns.
pub struct Env {
    pub id: EnvId,
    pub start_timestamp: u64,
    pub end_timestamp: u64,
    pub is_stopped: bool,
    pub outgoing_denied: bool,
    pub last_mgmt_ts: u64,
    pub vm: Table<VmId, Vm>,
    pub cli_belong_to: Option<CliId>,
}

/// One of the three kinds of hardware that a machine is given.
pub enum Hw {
    Cpu,
    Memory,
    Disk,
}

/// A value fits in an `i32`.
pub open spec fn in_i32(x: int) -> bool {
    i32::MIN <= x <= i32::MAX
}

/// How much of one kind of hardware a machine has.
pub open spec fn hw_of(vm: Vm, f: Hw) -> int {
    match f {
        Hw::Cpu => vm.cpu_num as int,
        Hw::Memory => vm.memory_size as int,
        Hw::Disk => vm.disk_size as int,
    }
}

/// How much of one kind of hardware the machines have together.
pub open spec fn hw_sum(vms: Seq<(VmId, Vm)>, f: Hw) -> int
    decreases vms.len(),
{
    if vms.len() == 0 {
        0
    } else {
        hw_sum(vms.drop_last(), f) + hw_of(vms.last().1, f)
    }
}

/// Adding up one kind of hardware machine after machine never leaves `i32`.
pub open spec fn hw_sums_fit(vms: Seq<(VmId, Vm)>, f: Hw) -> bool {
    forall|k: int| 0 <= k <= vms.len() ==> in_i32(#[trigger] hw_sum(vms.take(k), f))
}

/// `base` plus (or minus) `s`.
pub open spec fn shifted(base: int, s: int, add: bool) -> int {
    if add {
        base + s
    } else {
        base - s
    }
}

/// All three running sums fit.
pub open spec fn all_hw_sums_fit(vms: Seq<(VmId, Vm)>) -> bool {
    &&& hw_sums_fit(vms, Hw::Cpu)
    &&& hw_sums_fit(vms, Hw::Memory)
    &&& hw_sums_fit(vms, Hw::Disk)
}

/// Integer division that rounds towards zero, as machine division does.
pub open spec fn trunc_div(a: int, b: int) -> int {
    if a >= 0 {
        a / b
    } else {
        -((-a) / b)
    }
}

/// Whether one pool can take a machine set whose demand grows from `cur` to `new`:
/// `None` if it can, otherwise the error to report.
pub open spec fn pool_verdict(total: i32, used: i32, new: int, cur: int, busy: CoreError) -> Option<
    CoreError,
> {
    if new > cur {
        if !in_i32(used + new) || !in_i32(used + new - cur) {
            Some(CoreError::Internal)
        } else if used + new - cur > total {
            Some(busy)
        } else {
            None
        }
    } else {
        None
    }
}

/// What giving every machine of `vms` the hardware `h` does to the server's
/// pool `res`: the new pool, or why the change is refused.
pub open spec fn resource_verdict(res: Resource, h: (i32, i32, i32), vms: Seq<(VmId, Vm)>) -> Result<
    Resource,
    CoreError,
> {
    let n = vms.len() as int;
    let cpu = hw_sum(vms, Hw::Cpu);
    let memory = hw_sum(vms, Hw::Memory);
    let disk = hw_sum(vms, Hw::Disk);
    if !in_i32(h.0 * n) || !in_i32(h.1 * n) || !in_i32(h.2 * n) {
        Err(CoreError::Internal)
    } else {
        match pool_verdict(
            res.cpu_total,
            res.cpu_used,
            h.0 * n,
            cpu,
            CoreError::CpuBusy { total: res.cpu_total, used: res.cpu_used, need: (h.0 * n) as i32 },
        ) {
            Some(e) => Err(e),
            None => match pool_verdict(
                res.memory_total,
                res.memory_used,
                h.1 * n,
                memory,
                CoreError::MemoryBusy {
                    total: res.memory_total,
                    used: res.memory_used,
                    need: (h.1 * n) as i32,
                },
            ) {
                Some(e) => Err(e),
                None => match pool_verdict(
                    res.disk_total,
                    res.disk_used,
                    h.2 * n,
                    disk,
                    CoreError::DiskBusy {
                        total: res.disk_total,
                        used: res.disk_used,
                        need: (h.2 * n) as i32,
                    },
                ) {
                    Some(e) => Err(e),
                    None => Ok(
                        Resource {
                            cpu_used: (res.cpu_used + h.0 - trunc_div(cpu, n)) as i32,
                            memory_used: (res.memory_used + h.1 - trunc_div(memory, n)) as i32,
                            disk_used: (res.disk_used + h.2 - trunc_div(disk, n)) as i32,
                            ..res
                        },
                    ),
                },
            },
        }
    }
}

/// Summing a kind of hardware that every machine has in the same amount
/// `c` gives `c` times the number of machines.
proof fn lemma_hw_sum_uniform(vms: Seq<(VmId, Vm)>, f: Hw, c: int)
    requires
        forall|i: int| 0 <= i < vms.len() ==> hw_of((#[trigger] vms[i]).1, f) == c,
    ensures
        hw_sum(vms, f) == c * vms.len(),
    decreases vms.len(),
{
    if vms.len() > 0 {
        let d = vms.drop_last();
        assert forall|i: int| 0 <= i < d.len() implies hw_of((#[trigger] d[i]).1, f) == c by {
            assert(d[i] == vms[i]);
        }
        lemma_hw_sum_uniform(d, f, c);
        assert(hw_of(vms[vms.len() - 1].1, f) == c);
        assert(c * d.len() + c == c * vms.len()) by (nonlinear_arith)
            requires
                vms.len() == d.len() + 1,
        ;
    }
}

/// An accepted hardware change charges each pool from its own kind only:
/// the used cpu, memory and disk each move by the new per-machine amount of
/// that kind less the old per-machine average of that kind, the totals and
/// the count of active machines stay, and a kind whose size every machine
/// already has is left as it was.
pub proof fn law_each_pool_charged_by_its_own_kind(res: Resource, vms: Seq<(VmId, Vm)>, h: (
    i32,
    i32,
    i32,
))
    requires
        vms.len() > 0,
        resource_verdict(res, h, vms) is Ok,
        in_i32(res.cpu_used + h.0 - trunc_div(hw_sum(vms, Hw::Cpu), vms.len() as int)),
        in_i32(res.memory_used + h.1 - trunc_div(hw_sum(vms, Hw::Memory), vms.len() as int)),
        in_i32(res.disk_used + h.2 - trunc_div(hw_sum(vms, Hw::Disk), vms.len() as int)),
    ensures
        ({
            let n = vms.len() as int;
            resource_verdict(res, h, vms) matches Ok(new) && {
                &&& new.cpu_used == res.cpu_used + h.0 - trunc_div(hw_sum(vms, Hw::Cpu), n)
                &&& new.memory_used == res.memory_used + h.1 - trunc_div(hw_sum(vms, Hw::Memory), n)
                &&& new.disk_used == res.disk_used + h.2 - trunc_div(hw_sum(vms, Hw::Disk), n)
                &&& new.cpu_total == res.cpu_total
                &&& new.memory_total == res.memory_total
                &&& new.disk_total == res.disk_total
                &&& new.vm_active == res.vm_active
                &&& (forall|i: int| 0 <= i < n ==> (#[trigger] vms[i]).1.cpu_num == h.0)
                    ==> new.cpu_used == res.cpu_used
                &&& (forall|i: int| 0 <= i < n ==> (#[trigger] vms[i]).1.memory_size == h.1)
                    ==> new.memory_used == res.memory_used
                &&& (forall|i: int| 0 <= i < n ==> (#[trigger] vms[i]).1.disk_size == h.2)
                    ==> new.disk_used == res.disk_used
            }
        }),
{
    let n = vms.len() as int;
    if forall|i: int| 0 <= i < n ==> (#[trigger] vms[i]).1.cpu_num == h.0 {
        assert forall|i: int| 0 <= i < vms.len() implies hw_of((#[trigger] vms[i]).1, Hw::Cpu) == h.0 by {}
        lemma_hw_sum_uniform(vms, Hw::Cpu, h.0 as int);
        lemma_trunc_div_multiple(h.0 as int, n);
        assert(h.0 * n == n * h.0) by (nonlinear_arith);
    }
    if forall|i: int| 0 <= i < n ==> (#[trigger] vms[i]).1.memory_size == h.1 {
        assert forall|i: int| 0 <= i < vms.len() implies hw_of((#[trigger] vms[i]).1, Hw::Memory) == h.1 by {}
        lemma_hw_sum_uniform(vms, Hw::Memory, h.1 as int);
        lemma_trunc_div_multiple(h.1 as int, n);
    }
    if forall|i: int| 0 <= i < n ==> (#[trigger] vms[i]).1.disk_size == h.2 {
        assert forall|i: int| 0 <= i < vms.len() implies hw_of((#[trigger] vms[i]).1, Hw::Disk) == h.2 by {}
        lemma_hw_sum_uniform(vms, Hw::Disk, h.2 as int);
        lemma_trunc_div_multiple(h.2 as int, n);
    }
}

/// The life time of an environment is bounded by [`MAX_LIFE_TIME`] on its
/// own, whatever its start: an ordinary client's request of at most that
/// many seconds is accepted and ends the environment that many seconds after
/// its start (when that fits in `u64`), a longer one is refused with
/// `LifeTimeTooLong`, and a privileged client is never refused.
pub proof fn law_life_time_bounds_duration(start: u64, other_start: u64, s: u64, is_fucker: bool)
    ensures
        s <= MAX_LIFE_TIME ==> life_verdict(start, s, false) is Ok,
        s <= MAX_LIFE_TIME && start + s <= u64::MAX ==> life_verdict(start, s, false) == Ok::<
            u64,
            CoreError,
        >((start + s) as u64),
        s > MAX_LIFE_TIME ==> life_verdict(start, s, false) == Err::<u64, CoreError>(
            CoreError::LifeTimeTooLong,
        ),
        life_verdict(start, s, true) is Ok,
        (life_verdict(start, s, is_fucker) is Ok) == (life_verdict(other_start, s, is_fucker) is Ok),
{
}

/// A pool that takes an amount takes any smaller one.
proof fn lemma_pool_verdict_smaller(
    total: i32,
    used: i32,
    new: int,
    smaller: int,
    cur: int,
    busy: CoreError,
    busy2: CoreError,
)
    requires
        pool_verdict(total, used, new, cur, busy) is None,
        0 <= smaller <= new,
    ensures
        pool_verdict(total, used, smaller, cur, busy2) is None,
{
}

/// Admission is monotone: when the pool accepts giving every machine of
/// `vms` the hardware `h`, it also accepts any request `h2` that asks, in
/// each kind, for no less than nothing and no more than `h`.
pub proof fn law_smaller_request_admitted(
    res: Resource,
    vms: Seq<(VmId, Vm)>,
    h: (i32, i32, i32),
    h2: (i32, i32, i32),
)
    requires
        0 <= h2.0 <= h.0,
        0 <= h2.1 <= h.1,
        0 <= h2.2 <= h.2,
        resource_verdict(res, h, vms) is Ok,
    ensures
        resource_verdict(res, h2, vms) is Ok,
{
    let n = vms.len() as int;
    assert(0 <= h2.0 * n <= h.0 * n) by (nonlinear_arith)
        requires
            0 <= h2.0 <= h.0,
            n >= 0,
    ;
    assert(0 <= h2.1 * n <= h.1 * n) by (nonlinear_arith)
        requires
            0 <= h2.1 <= h.1,
            n >= 0,
    ;
    assert(0 <= h2.2 * n <= h.2 * n) by (nonlinear_arith)
        requires
            0 <= h2.2 <= h.2,
            n >= 0,
    ;
    let cpu = hw_sum(vms, Hw::Cpu);
    let memory = hw_sum(vms, Hw::Memory);
    let disk = hw_sum(vms, Hw::Disk);
    lemma_pool_verdict_smaller(
        res.cpu_total,
        res.cpu_used,
        h.0 * n,
        h2.0 * n,
        cpu,
        CoreError::CpuBusy { total: res.cpu_total, used: res.cpu_used, need: (h.0 * n) as i32 },
        CoreError::CpuBusy { total: res.cpu_total, used: res.cpu_used, need: (h2.0 * n) as i32 },
    );
    lemma_pool_verdict_smaller(
        res.memory_total,
        res.memory_used,
        h.1 * n,
        h2.1 * n,
        memory,
        CoreError::MemoryBusy {
            total: res.memory_total,
            used: res.memory_used,
            need: (h.1 * n) as i32,
        },
        CoreError::MemoryBusy {
            total: res.memory_total,
            used: res.memory_used,
            need: (h2.1 * n) as i32,
        },
    );
    lemma_pool_verdict_smaller(
        res.disk_total,
        res.disk_used,
        h.2 * n,
        h2.2 * n,
        disk,
        CoreError::DiskBusy { total: res.disk_total, used: res.disk_used, need: (h.2 * n) as i32 },
        CoreError::DiskBusy { total: res.disk_total, used: res.disk_used, need: (h2.2 * n) as i32 },
    );
}

/// The bookkeeping of an accepted change stays within `i32`.
pub open spec fn final_update_fits(res: Resource, h: (i32, i32, i32), vms: Seq<(VmId, Vm)>) -> bool {
    let n = vms.len() as int;
    &&& in_i32(res.cpu_used + h.0)
    &&& in_i32(res.cpu_used + h.0 - trunc_div(hw_sum(vms, Hw::Cpu), n))
    &&& in_i32(res.memory_used + h.1)
    &&& in_i32(res.memory_used + h.1 - trunc_div(hw_sum(vms, Hw::Memory), n))
    &&& in_i32(res.disk_used + h.2)
    &&& in_i32(res.disk_used + h.2 - trunc_div(hw_sum(vms, Hw::Disk), n))
}

/// A machine given the hardware `h`.
pub open spec fn vm_with_hw(vm: Vm, h: (i32, i32, i32)) -> Vm {
    Vm { cpu_num: h.0, memory_size: h.1, disk_size: h.2, ..vm }
}

/// Every machine given the hardware `h`.
pub open spec fn vms_with_hw(vms: Seq<(VmId, Vm)>, h: (i32, i32, i32)) -> Seq<(VmId, Vm)> {
    vms.map_values(|e: (VmId, Vm)| (e.0, vm_with_hw(e.1, h)))
}

/// The public ports that forward to the machines, machine after machine.
pub open spec fn pub_ports_of(vms: Seq<(VmId, Vm)>) -> Seq<PubPort>
    decreases vms.len(),
{
    if vms.len() == 0 {
        Seq::empty()
    } else {
        pub_ports_of(vms.drop_last()) + vms.last().1.port_map@.map_values(
            |e: (VmPort, PubPort)| e.1,
        )
    }
}

/// The hardware asked for: each kind that is not given is taken from the
/// first machine of the environment.
pub open spec fn requested_hw(
    vms: Seq<(VmId, Vm)>,
    cpu: Option<i32>,
    memory: Option<i32>,
    disk: Option<i32>,
) -> (i32, i32, i32) {
    let first = vms[0].1;
    (
        match cpu {
            Some(c) => c,
            None => first.cpu_num,
        },
        match memory {
            Some(m) => m,
            None => first.memory_size,
        },
        match disk {
            Some(d) => d,
            None => first.disk_size,
        },
    )
}

/// Two environments agree on everything but their machines.
pub open spec fn same_but_vms(a: Env, b: Env) -> bool {
    &&& a.id == b.id
    &&& a.start_timestamp == b.start_timestamp
    &&& a.end_timestamp == b.end_timestamp
    &&& a.is_stopped == b.is_stopped
    &&& a.outgoing_denied == b.outgoing_denied
    &&& a.last_mgmt_ts == b.last_mgmt_ts
    &&& a.cli_belong_to == b.cli_belong_to
}

/// On the inputs of a hardware change that reach the bookkeeping, no running
/// sum and no new pool value leaves `i32`.
pub open spec fn hardware_change_fits(
    env: Env,
    res: Resource,
    cpu: Option<i32>,
    memory: Option<i32>,
    disk: Option<i32>,
) -> bool {
    (cpu is Some || memory is Some || disk is Some) && env.is_stopped && env.vm@.len() > 0 ==> {
        let h = requested_hw(env.vm@, cpu, memory, disk);
        &&& env.vm@.len() <= i32::MAX
        &&& all_hw_sums_fit(env.vm@)
        &&& resource_verdict(res, h, env.vm@) is Ok ==> final_update_fits(res, h, env.vm@)
    }
}

/// What a change of hardware of `before` does: `after` is the environment,
/// `res1` the pool and `ports1` the public ports in use afterwards, and `r`
/// the result. A change needs a stopped environment; an environment without
/// machines is left alone; otherwise the pool is charged as
/// `resource_verdict` says and, when that succeeds, every machine gets the
/// requested hardware. The ports of the machines are released when
/// `releases` holds and no earlier step stopped the change.
pub open spec fn hardware_updated(
    before: Env,
    after: Env,
    res0: Resource,
    res1: Resource,
    ports0: Seq<(PubPort, ())>,
    ports1: Seq<(PubPort, ())>,
    cpu: Option<i32>,
    memory: Option<i32>,
    disk: Option<i32>,
    releases: bool,
    r: Result<(), CoreError>,
) -> bool {
    let wants = cpu is Some || memory is Some || disk is Some;
    let vms = before.vm@;
    let h = requested_hw(vms, cpu, memory, disk);
    let released = without_keys(ports0, pub_ports_of(vms));
    &&& wants && !before.is_stopped ==> {
        &&& r == Err::<(), CoreError>(CoreError::EnvNotStopped)
        &&& after == before
        &&& res1 == res0
        &&& ports1 == ports0
    }
    &&& wants && before.is_stopped && vms.len() == 0 ==> {
        &&& r is Ok
        &&& after == before
        &&& res1 == res0
        &&& ports1 == ports0
    }
    &&& wants && before.is_stopped && vms.len() > 0 ==> match resource_verdict(res0, h, vms) {
        Err(e) => {
            &&& r == Err::<(), CoreError>(e)
            &&& after == before
            &&& res1 == res0
            &&& ports1 == ports0
        },
        Ok(new_res) => {
            &&& r is Ok
            &&& res1 == new_res
            &&& after.vm@ == vms_with_hw(vms, h)
            &&& same_but_vms(after, before)
            &&& ports1 == if releases {
                released
            } else {
                ports0
            }
        },
    }
    &&& !wants ==> {
        &&& r is Ok
        &&& after == before
        &&& res1 == res0
        &&& ports1 == if releases {
            released
        } else {
            ports0
        }
    }
}

/// Giving machines new hardware leaves their forwarded ports alone.
pub proof fn lemma_pub_ports_with_hw(vms: Seq<(VmId, Vm)>, h: (i32, i32, i32))
    ensures
        pub_ports_of(vms_with_hw(vms, h)) == pub_ports_of(vms),
    decreases vms.len(),
{
    if vms.len() > 0 {
        assert(vms_with_hw(vms, h).drop_last() =~= vms_with_hw(vms.drop_last(), h));
        lemma_pub_ports_with_hw(vms.drop_last(), h);
    }
}

/// The name shown for the system of a machine: the file name of its image,
/// or `Unknown`.
pub open spec fn os_name_of(vm: Vm) -> Seq<char> {
    match path_file_name(vm.image_path@) {
        Some(n) => n,
        None => "Unknown"@,
    }
}

/// `info` describes `vm`.
pub open spec fn is_info_of(info: VmInfo, vm: Vm) -> bool {
    &&& info.os@ == os_name_of(vm)
    &&& info.cpu_num == vm.cpu_num
    &&& info.memory_size == vm.memory_size
    &&& info.disk_size == vm.disk_size
    &&& info.ip@ == vm.ip@
    &&& info.port_map@ == vm.port_map@
}

/// The keys increase strictly.
pub open spec fn sorted_keys<B>(s: Seq<(VmId, B)>) -> bool {
    forall|i: int, j: int| 0 <= i < j < s.len() ==> #[trigger] s[i].0 < #[trigger] s[j].0
}

/// `infos` describes the machines `vms`, one entry per machine, ordered by id.
pub open spec fn infos_of(infos: Seq<(VmId, VmInfo)>, vms: Seq<(VmId, Vm)>) -> bool {
    &&& sorted_keys(infos)
    &&& infos.len() == vms.len()
    &&& forall|k: VmId| has_key(infos, k) <==> has_key(vms, k)
    &&& forall|i: int, j: int|
        0 <= i < infos.len() && 0 <= j < vms.len() && infos[i].0 == vms[j].0 ==> is_info_of(
            #[trigger] infos[i].1,
            #[trigger] vms[j].1,
        )
}

/// What extending the life of an environment to `s` seconds does to its end.
pub open spec fn life_verdict(start: u64, s: u64, is_fucker: bool) -> Result<u64, CoreError> {
    if MAX_LIFE_TIME < s && !is_fucker {
        Err(CoreError::LifeTimeTooLong)
    } else {
        Ok((start + s) as u64)
    }
}

/// Every machine with its `during_stop` flag set to `flag`.
pub open spec fn vms_during_stop(vms: Seq<(VmId, Vm)>, flag: bool) -> Seq<(VmId, Vm)> {
    vms.map_values(|e: (VmId, Vm)| (e.0, Vm { during_stop: flag, ..e.1 }))
}

/// The pool after the machines `vms` are started.
pub open spec fn started_pool(res: Resource, vms: Seq<(VmId, Vm)>) -> Resource {
    Resource {
        vm_active: (res.vm_active + vms.len()) as i32,
        cpu_used: (res.cpu_used + hw_sum(vms, Hw::Cpu)) as i32,
        memory_used: (res.memory_used + hw_sum(vms, Hw::Memory)) as i32,
        disk_used: (res.disk_used + hw_sum(vms, Hw::Disk)) as i32,
        ..res
    }
}

/// The pool after the machines `vms` are stopped.
pub open spec fn stopped_pool(res: Resource, vms: Seq<(VmId, Vm)>) -> Resource {
    Resource {
        vm_active: (res.vm_active - vms.len()) as i32,
        cpu_used: (res.cpu_used - hw_sum(vms, Hw::Cpu)) as i32,
        memory_used: (res.memory_used - hw_sum(vms, Hw::Memory)) as i32,
        disk_used: (res.disk_used - hw_sum(vms, Hw::Disk)) as i32,
        ..res
    }
}

/// Charging the pool machine after machine never leaves `i32`.
pub open spec fn start_fits(res: Resource, vms: Seq<(VmId, Vm)>) -> bool {
    &&& in_i32(res.vm_active + vms.len())
    &&& forall|k: int|
        0 <= k <= vms.len() ==> in_i32(res.cpu_used + #[trigger] hw_sum(vms.take(k), Hw::Cpu))
    &&& forall|k: int|
        0 <= k <= vms.len() ==> in_i32(res.memory_used + #[trigger] hw_sum(vms.take(k), Hw::Memory))
    &&& forall|k: int|
        0 <= k <= vms.len() ==> in_i32(res.disk_used + #[trigger] hw_sum(vms.take(k), Hw::Disk))
}

/// Releasing the pool machine after machine never leaves `i32`.
pub open spec fn stop_fits(res: Resource, vms: Seq<(VmId, Vm)>) -> bool {
    &&& in_i32(res.vm_active - vms.len())
    &&& forall|k: int|
        0 <= k <= vms.len() ==> in_i32(res.cpu_used - #[trigger] hw_sum(vms.take(k), Hw::Cpu))
    &&& forall|k: int|
        0 <= k <= vms.len() ==> in_i32(res.memory_used - #[trigger] hw_sum(vms.take(k), Hw::Memory))
    &&& forall|k: int|
        0 <= k <= vms.len() ==> in_i32(res.disk_used - #[trigger] hw_sum(vms.take(k), Hw::Disk))
}

/// Marking machines as running or stopped leaves their hardware alone.
proof fn lemma_hw_sum_during_stop(vms: Seq<(VmId, Vm)>, flag: bool, f: Hw)
    ensures
        hw_sum(vms_during_stop(vms, flag), f) == hw_sum(vms, f),
        vms_during_stop(vms, flag).len() == vms.len(),
    decreases vms.len(),
{
    if vms.len() > 0 {
        assert(vms_during_stop(vms, flag).drop_last() =~= vms_during_stop(vms.drop_last(), flag));
        lemma_hw_sum_during_stop(vms.drop_last(), flag, f);
    }
}

/// Stopping the machines that were just started gives the pool back as it
/// was before they started.
pub proof fn law_stop_undoes_start(res: Resource, vms: Seq<(VmId, Vm)>)
    requires
        start_fits(res, vms),
    ensures
        stopped_pool(started_pool(res, vms), vms_during_stop(vms, false)) == res,
{
    lemma_hw_sum_during_stop(vms, false, Hw::Cpu);
    lemma_hw_sum_during_stop(vms, false, Hw::Memory);
    lemma_hw_sum_during_stop(vms, false, Hw::Disk);
    assert(vms.take(vms.len() as int) =~= vms);
    assert(in_i32(res.cpu_used + hw_sum(vms.take(vms.len() as int), Hw::Cpu)));
    assert(in_i32(res.memory_used + hw_sum(vms.take(vms.len() as int), Hw::Memory)));
    assert(in_i32(res.disk_used + hw_sum(vms.take(vms.len() as int), Hw::Disk)));
}

/// Starting the machines that were just stopped gives the pool back as it
/// was before they stopped, and leaves every machine marked as running;
/// machines that were all running before are then exactly as they were.
pub proof fn law_start_undoes_stop(res: Resource, vms: Seq<(VmId, Vm)>)
    requires
        stop_fits(res, vms),
    ensures
        started_pool(stopped_pool(res, vms), vms_during_stop(vms, true)) == res,
        vms_during_stop(vms_during_stop(vms, true), false) == vms_during_stop(vms, false),
        (forall|i: int| 0 <= i < vms.len() ==> !(#[trigger] vms[i]).1.during_stop)
            ==> vms_during_stop(vms_during_stop(vms, true), false) == vms,
{
    lemma_hw_sum_during_stop(vms, true, Hw::Cpu);
    lemma_hw_sum_during_stop(vms, true, Hw::Memory);
    lemma_hw_sum_during_stop(vms, true, Hw::Disk);
    assert(vms.take(vms.len() as int) =~= vms);
    assert(in_i32(res.cpu_used - hw_sum(vms.take(vms.len() as int), Hw::Cpu)));
    assert(in_i32(res.memory_used - hw_sum(vms.take(vms.len() as int), Hw::Memory)));
    assert(in_i32(res.disk_used - hw_sum(vms.take(vms.len() as int), Hw::Disk)));
    assert(vms_during_stop(vms_during_stop(vms, true), false) =~= vms_during_stop(vms, false));
    if forall|i: int| 0 <= i < vms.len() ==> !(#[trigger] vms[i]).1.during_stop {
        assert(vms_during_stop(vms, false) =~= vms);
    }
}

/// Decides one pool.
fn pool_check(total: i32, used: i32, new: i32, cur: i32, busy: CoreError) -> (r: Option<CoreError>)
    ensures
        r == pool_verdict(total, used, new as int, cur as int, busy),
{
    if new > cur {
        let after = match used.checked_add(new) {
            Some(a) => a.checked_sub(cur),
            None => None,
        };
        match after {
            None => Some(CoreError::Internal),
            Some(v) => {
                if v > total {
                    Some(busy)
                } else {
                    None
                }
            },
        }
    } else {
        None
    }
}

/// Exact machine division of a multiple.
proof fn lemma_trunc_div_multiple(h: int, n: int)
    requires
        n > 0,
    ensures
        trunc_div(h * n, n) == h,
{
    if h >= 0 {
        assert(h * n >= 0) by (nonlinear_arith)
            requires
                h >= 0,
                n > 0,
        ;
        assert((h * n) / n == h) by (nonlinear_arith)
            requires
                n > 0,
        ;
    } else {
        assert(h * n < 0) by (nonlinear_arith)
            requires
                h < 0,
                n > 0,
        ;
        assert(-(h * n) == (-h) * n) by (nonlinear_arith);
        assert(((-h) * n) / n == -h) by (nonlinear_arith)
            requires
                n > 0,
        ;
    }
}

impl Env {
    /// How much of one kind of hardware the machines of the environment have together.
    fn hw_total(&self, f: Hw) -> (s: i32)
        requires
            hw_sums_fit(self.vm@, f),
        ensures
            s == hw_sum(self.vm@, f),
    {
        let n = self.vm.len();
        let mut acc: i32 = 0;
        let mut i: usize = 0;
        assert(self.vm@.take(0) =~= Seq::<(VmId, Vm)>::empty());
        while i < n
            invariant
                n == self.vm@.len(),
                i <= n,
                hw_sums_fit(self.vm@, f),
                acc == hw_sum(self.vm@.take(i as int), f),
            decreases n - i,
        {
            let vm = self.vm.value_at(i);
            assert(self.vm@.take(i + 1).drop_last() =~= self.vm@.take(i as int));
            assert(in_i32(hw_sum(self.vm@.take(i + 1), f)));
            let x = match f {
                Hw::Cpu => vm.cpu_num,
                Hw::Memory => vm.memory_size,
                Hw::Disk => vm.disk_size,
            };
            acc = acc + x;
            i = i + 1;
        }
        assert(self.vm@.take(n as int) =~= self.vm@);
        acc
    }

    /// Charges the server's pool `res` for giving every machine of the
    /// environment the hardware `hardware`, or says why it cannot.
    pub fn check_resource_and_set(&self, res: &mut Resource, hardware: (i32, i32, i32)) -> (r:
        Result<(), CoreError>)
        requires
            0 < self.vm@.len() <= i32::MAX,
            all_hw_sums_fit(self.vm@),
            resource_verdict(*old(res), hardware, self.vm@) is Ok ==> final_update_fits(
                *old(res),
                hardware,
                self.vm@,
            ),
        ensures
            match resource_verdict(*old(res), hardware, self.vm@) {
                Ok(new_res) => r is Ok && *final(res) == new_res,
                Err(e) => r == Err::<(), CoreError>(e) && *final(res) == *old(res),
            },
    {
        let vm_num = self.vm.len() as i32;
        let cpu = self.hw_total(Hw::Cpu);
        let memory = self.hw_total(Hw::Memory);
        let disk = self.hw_total(Hw::Disk);
        let (cpu_new, memory_new, disk_new) = match (
            hardware.0.checked_mul(vm_num),
            hardware.1.checked_mul(vm_num),
            hardware.2.checked_mul(vm_num),
        ) {
            (Some(c), Some(m), Some(d)) => (c, m, d),
            _ => {
                return Err(CoreError::Internal);
            },
        };
        let current = *res;
        if let Some(e) = pool_check(
            current.cpu_total,
            current.cpu_used,
            cpu_new,
            cpu,
            CoreError::CpuBusy { total: current.cpu_total, used: current.cpu_used, need: cpu_new },
        ) {
            return Err(e);
        }
        if let Some(e) = pool_check(
            current.memory_total,
            current.memory_used,
            memory_new,
            memory,
            CoreError::MemoryBusy {
                total: current.memory_total,
                used: current.memory_used,
                need: memory_new,
            },
        ) {
            return Err(e);
        }
        if let Some(e) = pool_check(
            current.disk_total,
            current.disk_used,
            disk_new,
            disk,
            CoreError::DiskBusy { total: current.disk_total, used: current.disk_used, need: disk_new },
        ) {
            return Err(e);
        }
        proof {
            lemma_trunc_div_multiple(hardware.0 as int, vm_num as int);
            lemma_trunc_div_multiple(hardware.1 as int, vm_num as int);
            lemma_trunc_div_multiple(hardware.2 as int, vm_num as int);
        }
        res.cpu_used = res.cpu_used + (cpu_new / vm_num) - (cpu / vm_num);
        res.memory_used = res.memory_used + (memory_new / vm_num) - (memory / vm_num);
        res.disk_used = res.disk_used + (disk_new / vm_num) - (disk / vm_num);
        Ok(())
    }

    /// Gives every machine of the environment the hardware `h`.
    fn set_all_hw(&mut self, h: (i32, i32, i32))
        ensures
            final(self).vm@ == vms_with_hw(old(self).vm@, h),
            same_but_vms(*final(self), *old(self)),
    {
        let n = self.vm.len();
        let ghost vms = self.vm@;
        let mut i: usize = 0;
        while i < n
            invariant
                n == vms.len(),
                i <= n,
                self.vm@.len() == n,
                same_but_vms(*self, *old(self)),
                vms == old(self).vm@,
                forall|j: int| 0 <= j < i ==> #[trigger] self.vm@[j] == (vms[j].0, vm_with_hw(vms[j].1, h)),
                forall|j: int| i <= j < n ==> #[trigger] self.vm@[j] == vms[j],
            decreases n - i,
        {
            self.vm.lemma_unique();
            let ghost before = self.vm@;
            let (k, mut vm) = self.vm.remove_at(i);
            vm.cpu_num = h.0;
            vm.memory_size = h.1;
            vm.disk_size = h.2;
            proof {
                lemma_remove_insert(before, i as int, vm);
            }
            self.vm.insert_at(i, k, vm);
            assert(self.vm@ == before.update(i as int, (before[i as int].0, vm)));
            i = i + 1;
        }
        assert(self.vm@ =~= vms_with_hw(vms, h));
    }

    /// Frees, in the set of public ports in use, every port that forwards to
    /// a machine of the environment.
    fn release_pub_ports(&self, pub_port_inuse: &mut Table<PubPort, ()>)
        ensures
            final(pub_port_inuse)@ == without_keys(old(pub_port_inuse)@, pub_ports_of(self.vm@)),
    {
        let n = self.vm.len();
        let mut i: usize = 0;
        assert(self.vm@.take(0) =~= Seq::<(VmId, Vm)>::empty());
        while i < n
            invariant
                n == self.vm@.len(),
                i <= n,
                pub_port_inuse@ == without_keys(
                    old(pub_port_inuse)@,
                    pub_ports_of(self.vm@.take(i as int)),
                ),
            decreases n - i,
        {
            let vm = self.vm.value_at(i);
            let m = vm.port_map.len();
            let ghost done = pub_ports_of(self.vm@.take(i as int));
            let ghost ports = vm.port_map@.map_values(|e: (VmPort, PubPort)| e.1);
            let mut j: usize = 0;
            assert(done + ports.take(0) =~= done);
            while j < m
                invariant
                    m == vm.port_map@.len(),
                    j <= m,
                    ports == vm.port_map@.map_values(|e: (VmPort, PubPort)| e.1),
                    pub_port_inuse@ == without_keys(
                        old(pub_port_inuse)@,
                        done + ports.take(j as int),
                    ),
                decreases m - j,
            {
                let p = *vm.port_map.value_at(j);
                let _ = pub_port_inuse.remove(&p);
                assert((done + ports.take(j + 1)).drop_last() =~= done + ports.take(j as int));
                assert((done + ports.take(j + 1)).last() == p);
                j = j + 1;
            }
            assert(ports.take(m as int) =~= ports);
            assert(self.vm@.take(i + 1).drop_last() =~= self.vm@.take(i as int));
            assert(self.vm@.take(i + 1).last() == self.vm@[i as int]);
            i = i + 1;
        }
        assert(self.vm@.take(n as int) =~= self.vm@);
    }

    /// Changes the hardware of every machine of the environment and releases
    /// the public ports that forward to them.
    ///
    /// `resource` and `pub_port_inuse` are the pool and the set of public
    /// ports in use of the server that the environment belongs to. A change
    /// of hardware needs a stopped environment; the kinds of hardware that
    /// are not given are taken from the first machine, the server is charged
    /// for the difference, and an environment without machines is left
    /// alone. The ports are released when `vm_port` is not empty.
    pub fn update_hardware(
        &mut self,
        resource: &mut Resource,
        pub_port_inuse: &mut Table<PubPort, ()>,
        cpu: Option<i32>,
        memory: Option<i32>,
        disk: Option<i32>,
        vm_port: &[VmPort],
        out_going: Option<bool>,
    ) -> (r: Result<(), CoreError>)
        requires
            hardware_change_fits(*old(self), *old(resource), cpu, memory, disk),
        ensures
            hardware_updated(
                *old(self),
                *final(self),
                *old(resource),
                *final(resource),
                old(pub_port_inuse)@,
                final(pub_port_inuse)@,
                cpu,
                memory,
                disk,
                vm_port@.len() > 0,
                r,
            ),
    {
        if cpu.is_some() || memory.is_some() || disk.is_some() {
            if !self.is_stopped {
                return Err(CoreError::EnvNotStopped);
            }
            if self.vm.len() == 0 {
                return Ok(());
            }
            let first = self.vm.value_at(0);
            let cpu_new = match cpu {
                Some(c) => c,
                None => first.cpu_num,
            };
            let memory_new = match memory {
                Some(m) => m,
                None => first.memory_size,
            };
            let disk_new = match disk {
                Some(d) => d,
                None => first.disk_size,
            };
            let h = (cpu_new, memory_new, disk_new);
            match self.check_resource_and_set(resource, h) {
                Ok(()) => {},
                Err(e) => {
                    return Err(e);
                },
            }
            self.set_all_hw(h);
            proof {
                lemma_pub_ports_with_hw(old(self).vm@, h);
            }
        }
        if vm_port.len() > 0 {
            self.release_pub_ports(pub_port_inuse);
        }
        Ok(())
    }

    /// Sets the end of the environment to its start plus `s` seconds. Only
    /// a privileged client (`is_fucker`) may go beyond [`MAX_LIFE_TIME`].
    pub fn update_life(&mut self, s: u64, is_fucker: bool) -> (r: Result<(), CoreError>)
        requires
            life_verdict(old(self).start_timestamp, s, is_fucker) is Ok ==> old(self).start_timestamp
                + s <= u64::MAX,
        ensures
            match life_verdict(old(self).start_timestamp, s, is_fucker) {
                Ok(end) => {
                    &&& r is Ok
                    &&& final(self).end_timestamp == end
                    &&& final(self).vm == old(self).vm
                    &&& final(self).id == old(self).id
                    &&& final(self).start_timestamp == old(self).start_timestamp
                    &&& final(self).is_stopped == old(self).is_stopped
                    &&& final(self).outgoing_denied == old(self).outgoing_denied
                    &&& final(self).last_mgmt_ts == old(self).last_mgmt_ts
                    &&& final(self).cli_belong_to == old(self).cli_belong_to
                },
                Err(e) => r == Err::<(), CoreError>(e) && *final(self) == *old(self),
            },
    {
        if MAX_LIFE_TIME < s && !is_fucker {
            Err(CoreError::LifeTimeTooLong)
        } else {
            self.end_timestamp = self.start_timestamp + s;
            Ok(())
        }
    }

    /// A short description of the environment.
    pub fn as_meta(&self) -> (m: EnvMeta)
        ensures
            m.id@ == self.id@,
            m.start_timestamp == self.start_timestamp,
            m.end_timestamp == self.end_timestamp,
            m.vm_cnt == self.vm@.len(),
            m.is_stopped == self.is_stopped,
    {
        EnvMeta {
            id: self.id.clone(),
            start_timestamp: self.start_timestamp,
            end_timestamp: self.end_timestamp,
            vm_cnt: self.vm.len(),
            is_stopped: self.is_stopped,
        }
    }

    /// A full description of the environment, its machines ordered by id.
    pub fn as_info(&self) -> (info: EnvInfo)
        ensures
            info.id@ == self.id@,
            info.start_timestamp == self.start_timestamp,
            info.end_timestamp == self.end_timestamp,
            info.is_stopped == self.is_stopped,
            infos_of(info.vm@, self.vm@),
    {
        self.vm.lemma_unique();
        let n = self.vm.len();
        let mut out: Table<VmId, VmInfo> = Table::new();
        let mut i: usize = 0;
        while i < n
            invariant
                n == self.vm@.len(),
                i <= n,
                unique_keys(self.vm@),
                infos_of(out@, self.vm@.take(i as int)),
            decreases n - i,
        {
            let k = *self.vm.key_at(i);
            let info = self.vm.value_at(i).as_info();
            let ghost done = self.vm@.take(i as int);
            let ghost next = self.vm@.take(i + 1);
            assert(next =~= done.push((k, self.vm@[i as int].1)));
            // position of the first key above `k`
            let m = out.len();
            let mut p: usize = 0;
            while p < m && *out.key_at(p) < k
                invariant
                    m == out@.len(),
                    p <= m,
                    forall|j: int| 0 <= j < p ==> out@[j].0 < k,
                decreases m - p,
            {
                p = p + 1;
            }
            assert(!has_key(done, k)) by {
                if has_key(done, k) {
                    let j = choose|j: int| 0 <= j < done.len() && #[trigger] done[j].0 == k;
                    assert(self.vm@[j].0 == self.vm@[i as int].0);
                }
            }
            assert(!has_key(out@, k));
            let ghost before = out@;
            out.insert_at(p, k, info);
            assert(out@ == before.insert(p as int, (k, info)));
            assert forall|a: int, b: int| 0 <= a < b < out@.len() implies #[trigger] out@[a].0
                < #[trigger] out@[b].0 by {
                if p < m {
                    assert(before[p as int].0 >= k);
                    assert(before[p as int].0 != k) by {
                        assert(has_key(before, before[p as int].0));
                    }
                }
                if a < p && b < p {
                    assert(out@[a] == before[a] && out@[b] == before[b]);
                } else if a < p && b == p {
                    assert(out@[a] == before[a]);
                } else if a < p {
                    assert(out@[a] == before[a] && out@[b] == before[b - 1]);
                    assert(before[p as int].0 <= before[b - 1].0);
                } else if a == p {
                    assert(out@[b] == before[b - 1]);
                    assert(before[p as int].0 <= before[b - 1].0);
                } else {
                    assert(out@[a] == before[a - 1] && out@[b] == before[b - 1]);
                }
            }
            assert forall|x: VmId| has_key(out@, x) <==> has_key(next, x) by {
                if has_key(out@, x) {
                    let j = choose|j: int| 0 <= j < out@.len() && #[trigger] out@[j].0 == x;
                    if j < p {
                        assert(before[j].0 == x);
                    } else if j > p {
                        assert(before[j - 1].0 == x);
                    } else {
                        assert(next[i as int].0 == x);
                    }
                    if x != k {
                        assert(has_key(before, x));
                        assert(has_key(done, x));
                        let d = choose|d: int| 0 <= d < done.len() && #[trigger] done[d].0 == x;
                        assert(next[d].0 == x);
                    }
                }
                if has_key(next, x) {
                    let d = choose|d: int| 0 <= d < next.len() && #[trigger] next[d].0 == x;
                    if d < i {
                        assert(done[d].0 == x);
                        assert(has_key(before, x));
                        let j = choose|j: int| 0 <= j < before.len() && #[trigger] before[j].0 == x;
                        if j < p {
                            assert(out@[j].0 == x);
                        } else {
                            assert(out@[j + 1].0 == x);
                        }
                    } else {
                        assert(out@[p as int].0 == x);
                    }
                }
            }
            assert forall|a: int, d: int|
                0 <= a < out@.len() && 0 <= d < next.len() && out@[a].0 == next[d].0 implies is_info_of(
                #[trigger] out@[a].1,
                #[trigger] next[d].1,
            ) by {
                if a == p {
                    if d < i {
                        assert(done[d].0 == k);
                        assert(has_key(done, k));
                    }
                } else {
                    let a0 = if a < p { a } else { a - 1 };
                    assert(out@[a] == before[a0]);
                    if d == i {
                        assert(has_key(before, k));
                    } else {
                        assert(next[d] == done[d]);
                    }
                }
            }
            i = i + 1;
        }
        assert(self.vm@.take(n as int) =~= self.vm@);
        EnvInfo {
            id: self.id.clone(),
            start_timestamp: self.start_timestamp,
            end_timestamp: self.end_timestamp,
            vm: out,
            is_stopped: self.is_stopped,
        }
    }

    /// Starts every machine: each is resumed, charged to the pool and marked
    /// as running.
    pub fn start_all(&mut self, res: &mut Resource) -> (r: Result<(), CoreError>)
        requires
            start_fits(*old(res), old(self).vm@),
        ensures
            r is Ok,
            *final(res) == started_pool(*old(res), old(self).vm@),
            final(self).vm@ == vms_during_stop(old(self).vm@, false),
            same_but_vms(*final(self), *old(self)),
    {
        let n = self.vm.len();
        let ghost vms = self.vm@;
        let mut i: usize = 0;
        assert(vms.take(0) =~= Seq::<(VmId, Vm)>::empty());
        while i < n
            invariant
                n == vms.len(),
                i <= n,
                vms == old(self).vm@,
                start_fits(*old(res), vms),
                self.vm@.len() == n,
                same_but_vms(*self, *old(self)),
                forall|j: int| 0 <= j < i ==> #[trigger] self.vm@[j] == (vms[j].0, Vm { during_stop: false, ..vms[j].1 }),
                forall|j: int| i <= j < n ==> #[trigger] self.vm@[j] == vms[j],
                *res == started_pool(*old(res), vms.take(i as int)),
            decreases n - i,
        {
            self.vm.lemma_unique();
            let ghost before = self.vm@;
            let (k, mut vm) = self.vm.remove_at(i);
            match resume(&vm) {
                Ok(()) => {},
                Err(e) => {
                    return Err(e);
                },
            }
            proof {
                assert(vms.take(i + 1).drop_last() =~= vms.take(i as int));
                assert(vms.take(i + 1).last() == vms[i as int]);
                assert(in_i32(old(res).cpu_used + hw_sum(vms.take(i as int), Hw::Cpu)));
                assert(in_i32(old(res).memory_used + hw_sum(vms.take(i as int), Hw::Memory)));
                assert(in_i32(old(res).disk_used + hw_sum(vms.take(i as int), Hw::Disk)));
                assert(in_i32(old(res).vm_active + vms.len()));
                assert(in_i32(old(res).cpu_used + hw_sum(vms.take(i + 1), Hw::Cpu)));
                assert(in_i32(old(res).memory_used + hw_sum(vms.take(i + 1), Hw::Memory)));
                assert(in_i32(old(res).disk_used + hw_sum(vms.take(i + 1), Hw::Disk)));
            }
            res.vm_active = res.vm_active + 1;
            res.cpu_used = res.cpu_used + vm.cpu_num;
            res.memory_used = res.memory_used + vm.memory_size;
            res.disk_used = res.disk_used + vm.disk_size;
            vm.during_stop = false;
            proof {
                lemma_remove_insert(before, i as int, vm);
            }
            self.vm.insert_at(i, k, vm);
            i = i + 1;
        }
        assert(vms.take(n as int) =~= vms);
        assert(self.vm@ =~= vms_during_stop(vms, false));
        Ok(())
    }

    /// Stops every machine: each is paused, released from the pool and
    /// marked as stopped.
    pub fn stop_all(&mut self, res: &mut Resource) -> (r: Result<(), CoreError>)
        requires
            stop_fits(*old(res), old(self).vm@),
        ensures
            r is Ok,
            *final(res) == stopped_pool(*old(res), old(self).vm@),
            final(self).vm@ == vms_during_stop(old(self).vm@, true),
            same_but_vms(*final(self), *old(self)),
    {
        let n = self.vm.len();
        let ghost vms = self.vm@;
        let mut i: usize = 0;
        assert(vms.take(0) =~= Seq::<(VmId, Vm)>::empty());
        while i < n
            invariant
                n == vms.len(),
                i <= n,
                vms == old(self).vm@,
                stop_fits(*old(res), vms),
                self.vm@.len() == n,
                same_but_vms(*self, *old(self)),
                forall|j: int| 0 <= j < i ==> #[trigger] self.vm@[j] == (vms[j].0, Vm { during_stop: true, ..vms[j].1 }),
                forall|j: int| i <= j < n ==> #[trigger] self.vm@[j] == vms[j],
                *res == stopped_pool(*old(res), vms.take(i as int)),
            decreases n - i,
        {
            self.vm.lemma_unique();
            let ghost before = self.vm@;
            let (k, mut vm) = self.vm.remove_at(i);
            match pause(vm.get_id()) {
                Ok(()) => {},
                Err(e) => {
                    return Err(e);
                },
            }
            proof {
                assert(vms.take(i + 1).drop_last() =~= vms.take(i as int));
                assert(vms.take(i + 1).last() == vms[i as int]);
                assert(in_i32(old(res).cpu_used - hw_sum(vms.take(i as int), Hw::Cpu)));
                assert(in_i32(old(res).memory_used - hw_sum(vms.take(i as int), Hw::Memory)));
                assert(in_i32(old(res).disk_used - hw_sum(vms.take(i as int), Hw::Disk)));
                assert(in_i32(old(res).vm_active - vms.len()));
                assert(in_i32(old(res).cpu_used - hw_sum(vms.take(i + 1), Hw::Cpu)));
                assert(in_i32(old(res).memory_used - hw_sum(vms.take(i + 1), Hw::Memory)));
                assert(in_i32(old(res).disk_used - hw_sum(vms.take(i + 1), Hw::Disk)));
            }
            res.vm_active = res.vm_active - 1;
            res.cpu_used = res.cpu_used - vm.cpu_num;
            res.memory_used = res.memory_used - vm.memory_size;
            res.disk_used = res.disk_used - vm.disk_size;
            vm.during_stop = true;
            proof {
                lemma_remove_insert(before, i as int, vm);
            }
            self.vm.insert_at(i, k, vm);
            i = i + 1;
        }
        assert(vms.take(n as int) =~= vms);
        assert(self.vm@ =~= vms_during_stop(vms, true));
        Ok(())
    }

    /// Whether every running sum of one kind of hardware fits in `i32`,
    /// starting from `base` and adding (`add`) or taking away the machines'
    /// hardware one machine after another.
    fn running_sums_fit(&self, base: i32, f: Hw, add: bool) -> (b: bool)
        ensures
            b == (forall|k: int|
                0 <= k <= self.vm@.len() ==> in_i32(
                    shifted(base as int, #[trigger] hw_sum(self.vm@.take(k), f), add),
                )),
    {
        let n = self.vm.len();
        let mut acc: i64 = base as i64;
        let mut i: usize = 0;
        assert(self.vm@.take(0) =~= Seq::<(VmId, Vm)>::empty());
        while i < n
            invariant
                n == self.vm@.len(),
                i <= n,
                acc == shifted(base as int, hw_sum(self.vm@.take(i as int), f), add),
                forall|k: int|
                    0 <= k <= i ==> in_i32(
                        shifted(base as int, #[trigger] hw_sum(self.vm@.take(k), f), add),
                    ),
            decreases n - i,
        {
            let vm = self.vm.value_at(i);
            let x: i64 = match f {
                Hw::Cpu => vm.cpu_num as i64,
                Hw::Memory => vm.memory_size as i64,
                Hw::Disk => vm.disk_size as i64,
            };
            assert(self.vm@.take(i + 1).drop_last() =~= self.vm@.take(i as int));
            acc = if add {
                acc + x
            } else {
                acc - x
            };
            if acc < i32::MIN as i64 || acc > i32::MAX as i64 {
                assert(!in_i32(shifted(base as int, hw_sum(self.vm@.take(i + 1), f), add)));
                return false;
            }
            i = i + 1;
        }
        true
    }

    /// Whether starting the machines can be charged to `res` within `i32`.
    pub fn start_fits_check(&self, res: &Resource) -> (b: bool)
        ensures
            b == start_fits(*res, self.vm@),
    {
        let n = self.vm.len();
        if n as u64 > 0x1_0000_0000u64 || (res.vm_active as i64) + (n as i64) > i32::MAX as i64 {
            return false;
        }
        let c = self.running_sums_fit(res.cpu_used, Hw::Cpu, true);
        let m = self.running_sums_fit(res.memory_used, Hw::Memory, true);
        let d = self.running_sums_fit(res.disk_used, Hw::Disk, true);
        c && m && d
    }

    /// Whether stopping the machines can be released from `res` within `i32`.
    pub fn stop_fits_check(&self, res: &Resource) -> (b: bool)
        ensures
            b == stop_fits(*res, self.vm@),
    {
        let n = self.vm.len();
        if n as u64 > 0x1_0000_0000u64 || (res.vm_active as i64) - (n as i64) < i32::MIN as i64 {
            return false;
        }
        let c = self.running_sums_fit(res.cpu_used, Hw::Cpu, false);
        let m = self.running_sums_fit(res.memory_used, Hw::Memory, false);
        let d = self.running_sums_fit(res.disk_used, Hw::Disk, false);
        c && m && d
    }

    /// Whether a change of hardware keeps every sum of its bookkeeping in `i32`.
    pub fn hardware_change_fits_check(
        &self,
        res: &Resource,
        cpu: Option<i32>,
        memory: Option<i32>,
        disk: Option<i32>,
    ) -> (b: bool)
        ensures
            b == hardware_change_fits(*self, *res, cpu, memory, disk),
    {
        if !(cpu.is_some() || memory.is_some() || disk.is_some()) || !self.is_stopped
            || self.vm.len() == 0 {
            return true;
        }
        let n = self.vm.len();
        if n > 0x7fff_ffffusize {
            return false;
        }
        let fits = self.running_sums_fit(0, Hw::Cpu, true) && self.running_sums_fit(0, Hw::Memory, true)
            && self.running_sums_fit(0, Hw::Disk, true);
        if !fits {
            return false;
        }
        let first = self.vm.value_at(0);
        let h: (i32, i32, i32) = (
            match cpu {
                Some(c) => c,
                None => first.cpu_num,
            },
            match memory {
                Some(m) => m,
                None => first.memory_size,
            },
            match disk {
                Some(d) => d,
                None => first.disk_size,
            },
        );
        let accepted = self.verdict_accepts(res, h);
        if !accepted {
            return true;
        }
        let nn = n as i64;
        let c = self.hw_total(Hw::Cpu) as i64;
        let m = self.hw_total(Hw::Memory) as i64;
        let d = self.hw_total(Hw::Disk) as i64;
        let cu = res.cpu_used as i64 + h.0 as i64;
        let mu = res.memory_used as i64 + h.1 as i64;
        let du = res.disk_used as i64 + h.2 as i64;
        let lo = i32::MIN as i64;
        let hi = i32::MAX as i64;
        lo <= cu && cu <= hi && lo <= cu - c / nn && cu - c / nn <= hi && lo <= mu && mu <= hi && lo
            <= mu - m / nn && mu - m / nn <= hi && lo <= du && du <= hi && lo <= du - d / nn && du
            - d / nn <= hi
    }

    /// Whether the pool `res` accepts giving every machine the hardware `h`.
    fn verdict_accepts(&self, res: &Resource, h: (i32, i32, i32)) -> (b: bool)
        requires
            0 < self.vm@.len() <= i32::MAX,
            all_hw_sums_fit(self.vm@),
        ensures
            b == resource_verdict(*res, h, self.vm@) is Ok,
    {
        let n = self.vm.len() as i64;
        let cpu = self.hw_total(Hw::Cpu) as i64;
        let memory = self.hw_total(Hw::Memory) as i64;
        let disk = self.hw_total(Hw::Disk) as i64;
        let lo = i32::MIN as i64;
        let hi = i32::MAX as i64;
        proof {
            assert(-0x8000_0000 * 0x7fff_ffff <= h.0 * n <= 0x8000_0000 * 0x7fff_ffff) by (nonlinear_arith)
                requires
                    -0x8000_0000 <= h.0 <= 0x7fff_ffff,
                    0 < n <= 0x7fff_ffff,
            ;
            assert(-0x8000_0000 * 0x7fff_ffff <= h.1 * n <= 0x8000_0000 * 0x7fff_ffff) by (nonlinear_arith)
                requires
                    -0x8000_0000 <= h.1 <= 0x7fff_ffff,
                    0 < n <= 0x7fff_ffff,
            ;
            assert(-0x8000_0000 * 0x7fff_ffff <= h.2 * n <= 0x8000_0000 * 0x7fff_ffff) by (nonlinear_arith)
                requires
                    -0x8000_0000 <= h.2 <= 0x7fff_ffff,
                    0 < n <= 0x7fff_ffff,
            ;
        }
        let cn = h.0 as i64 * n;
        let mn = h.1 as i64 * n;
        let dn = h.2 as i64 * n;
        if cn < lo || cn > hi || mn < lo || mn > hi || dn < lo || dn > hi {
            return false;
        }
        if cn > cpu {
            let after = res.cpu_used as i64 + cn - cpu;
            if res.cpu_used as i64 + cn < lo || res.cpu_used as i64 + cn > hi || after < lo || after
                > hi || after > res.cpu_total as i64 {
                return false;
            }
        }
        if mn > memory {
            let after = res.memory_used as i64 + mn - memory;
            if res.memory_used as i64 + mn < lo || res.memory_used as i64 + mn > hi || after < lo
                || after > hi || after > res.memory_total as i64 {
                return false;
            }
        }
        if dn > disk {
            let after = res.disk_used as i64 + dn - disk;
            if res.disk_used as i64 + dn < lo || res.disk_used as i64 + dn > hi || after < lo
                || after > hi || after > res.disk_total as i64 {
                return false;
            }
        }
        true
    }
}

} // verus!
