//! Requests and responses exchanged between the server and its clients.
use vstd::prelude::*;
use crate::error::CoreError;
use crate::text::{from_utf8_lossy, lowercase, push_str, utf8_lossy};
use crate::types::{CliId, EnvId, EXEC_PORT, Port, SSH_PORT, VmCfgProxy, VmId, VmPort};

verus! {

/// Length of an operation id.
pub const OPS_ID_LEN: usize = 4;

/// The request id used when none is given.
pub const DEFAULT_REQ_ID: u64 = 18446744073709551615;

/// The largest number of duplicates of each machine that may be asked for.
pub const DUP_MAX: u32 = 500;

/// A request id.
pub type UUID = u64;

/// The address of a server.
pub type ServerAddress = String;

/// A request of a client.
#[derive(Debug, Default)]
pub struct Request<T> {
    pub uuid: UUID,
    pub cli_id: CliId,
    pub msg: T,
}

impl<T> Request<T> {
    /// A request with the given id, client and message.
    pub fn new(uuid: UUID, cli_id: CliId, msg: T) -> (r: Self)
        ensures
            r.uuid == uuid,
            r.cli_id == cli_id,
            r.msg == msg,
    {
        Request { uuid, cli_id, msg }
    }
}

/// Whether a request succeeded.
#[derive(Debug, Clone, Copy, PartialEq, Eq, Structural, PartialOrd, Ord)]
pub enum ResultStatus {
    Fail,
    Success,
}

/// How a status is printed.
pub open spec fn status_name(s: ResultStatus) -> Seq<char> {
    match s {
        ResultStatus::Fail => "Fail"@,
        ResultStatus::Success => "Success"@,
    }
}

impl ResultStatus {
    /// The printed form of the status.
    pub fn to_display_string(&self) -> (s: String)
        ensures
            s@ == status_name(*self),
    {
        match self {
            ResultStatus::Fail => "Fail".to_owned(),
            ResultStatus::Success => "Success".to_owned(),
        }
    }
}

/// The answer to a request.
#[derive(Debug)]
pub struct Response {
    pub uuid: UUID,
    pub status: ResultStatus,
    pub msg: Vec<u8>,
}

impl Response {
    /// The printed form of the response: its status and its message read as UTF-8.
    pub fn to_display_string(&self) -> (s: String)
        ensures
            s@ == "status: "@ + status_name(self.status) + " , msg: "@ + utf8_lossy(self.msg@),
    {
        let mut s = "status: ".to_owned();
        let status = self.status.to_display_string();
        push_str(&mut s, status.as_str());
        push_str(&mut s, " , msg: ");
        let msg = from_utf8_lossy(self.msg.as_slice());
        push_str(&mut s, msg.as_str());
        s
    }
}

/// What the server reports about itself.
#[derive(Clone, Debug, Default, PartialEq, Eq, PartialOrd, Ord)]
pub struct ResponseGetServInfo {
    pub vm_total: i32,
    pub cpu_total: i32,
    pub cpu_used: i32,
    pub memory_total: i32,
    pub memory_used: i32,
    pub disk_total: i32,
    pub disk_used: i32,
    pub supported_list: Vec<String>,
}

/// Asks for the details of some environments.
#[derive(Debug, Default)]
pub struct RequestGetEnvInfo {
    pub env_set: Vec<EnvId>,
}

/// Asks for a new environment.
#[derive(Debug, Default)]
pub struct RequestAddressEnv {
    pub env_id: EnvId,
    pub life_time: Option<u64>,
    pub dup_each: Option<u32>,
    pub deny_outgoing: bool,
    pub vm_cfg: Option<Vec<VmCfgProxy>>,
    pub os_prefix: Vec<String>,
    pub cpu_num: Option<i32>,
    pub memory_size: Option<i32>,
    pub disk_size: Option<i32>,
    pub port_set: Vec<Port>,
    pub rand_bool: bool,
}

/// The entries increase strictly.
pub open spec fn strictly_sorted(s: Seq<u16>) -> bool {
    forall|i: int, j: int| 0 <= i < j < s.len() ==> #[trigger] s[i] < #[trigger] s[j]
}

/// `after` holds, sorted and once each, the ports of `before` together with
/// the ssh and exec ports.
pub open spec fn with_service_ports(before: Seq<u16>, after: Seq<u16>) -> bool {
    &&& strictly_sorted(after)
    &&& forall|p: u16| after.contains(p) <==> (before.contains(p) || p == SSH_PORT || p == EXEC_PORT)
}

/// Inserts `x` into a strictly increasing list unless it is already there.
fn insert_sorted(v: &mut Vec<u16>, x: u16)
    requires
        strictly_sorted(old(v)@),
    ensures
        strictly_sorted(final(v)@),
        forall|p: u16| final(v)@.contains(p) <==> (old(v)@.contains(p) || p == x),
{
    let n = v.len();
    let mut i: usize = 0;
    while i < n && v[i] < x
        invariant
            n == v@.len(),
            i <= n,
            forall|j: int| 0 <= j < i ==> v@[j] < x,
        decreases n - i,
    {
        i = i + 1;
    }
    if i < n && v[i] == x {
        return;
    }
    let ghost before = v@;
    v.insert(i, x);
    assert forall|a: int, b: int| 0 <= a < b < v@.len() implies #[trigger] v@[a] < #[trigger] v@[b] by {
        if a < i && b < i {
            assert(v@[a] == before[a] && v@[b] == before[b]);
        } else if a < i && b == i {
            assert(v@[a] == before[a]);
        } else if a < i {
            assert(v@[a] == before[a] && v@[b] == before[b - 1]);
        } else if a == i {
            assert(v@[b] == before[b - 1]);
            assert(before[i as int] > x);
            assert(before[i as int] <= before[b - 1]);
        } else {
            assert(v@[a] == before[a - 1] && v@[b] == before[b - 1]);
        }
    }
    assert forall|p: u16| v@.contains(p) <==> (before.contains(p) || p == x) by {
        if v@.contains(p) {
            let j = choose|j: int| 0 <= j < v@.len() && v@[j] == p;
            if j < i {
                assert(before[j] == p);
            } else if j > i {
                assert(before[j - 1] == p);
            }
        }
        if before.contains(p) {
            let j = choose|j: int| 0 <= j < before.len() && before[j] == p;
            if j < i {
                assert(v@[j] == p);
            } else {
                assert(v@[j + 1] == p);
            }
        }
        if p == x {
            assert(v@[i as int] == p);
        }
    }
}

/// Adds the ssh and exec ports to a list of ports, sorts it and drops duplicates.
pub fn add_service_ports(ports: &mut Vec<VmPort>)
    ensures
        with_service_ports(old(ports)@, final(ports)@),
{
    let ghost orig = ports@;
    ports.push(SSH_PORT);
    ports.push(EXEC_PORT);
    let ghost all = ports@;
    let n = ports.len();
    let mut out: Vec<VmPort> = Vec::new();
    let mut i: usize = 0;
    while i < n
        invariant
            n == all.len(),
            all == ports@,
            i <= n,
            strictly_sorted(out@),
            forall|p: u16| out@.contains(p) <==> all.take(i as int).contains(p),
        decreases n - i,
    {
        let ghost prev = out@;
        insert_sorted(&mut out, ports[i]);
        let ghost t0 = all.take(i as int);
        let ghost t1 = all.take(i + 1);
        assert(t1 =~= t0.push(all[i as int]));
        assert forall|p: u16| out@.contains(p) <==> t1.contains(p) by {
            if t1.contains(p) && p != all[i as int] {
                let j = choose|j: int| 0 <= j < t1.len() && #[trigger] t1[j] == p;
                assert(t0[j] == p);
            }
            if t0.contains(p) {
                let j = choose|j: int| 0 <= j < t0.len() && #[trigger] t0[j] == p;
                assert(t1[j] == p);
            }
            if p == all[i as int] {
                assert(t1[i as int] == p);
            }
        }
        i = i + 1;
    }
    assert(all.take(n as int) =~= all);
    assert forall|p: u16| all.contains(p) <==> (orig.contains(p) || p == SSH_PORT || p == EXEC_PORT) by {
        assert(all == orig.push(SSH_PORT).push(EXEC_PORT));
        if all.contains(p) {
            let j = choose|j: int| 0 <= j < all.len() && all[j] == p;
            if j < orig.len() {
                assert(orig[j] == p);
            }
        }
        if orig.contains(p) {
            let j = choose|j: int| 0 <= j < orig.len() && orig[j] == p;
            assert(all[j] == p);
        }
        if p == SSH_PORT {
            assert(all[orig.len() as int] == p);
        }
        if p == EXEC_PORT {
            assert(all[orig.len() as int + 1] == p);
        }
    }
    *ports = out;
}

/// Two strictly increasing lists with the same entries are equal.
pub proof fn lemma_sorted_same_entries(a: Seq<u16>, b: Seq<u16>)
    requires
        strictly_sorted(a),
        strictly_sorted(b),
        forall|p: u16| a.contains(p) <==> b.contains(p),
    ensures
        a == b,
    decreases a.len() + b.len(),
{
    if a.len() == 0 || b.len() == 0 {
        if a.len() > 0 {
            assert(a.contains(a[0]));
        }
        if b.len() > 0 {
            assert(b.contains(b[0]));
        }
        assert(a =~= b);
    } else {
        let x = a.last();
        let y = b.last();
        assert(a.contains(x));
        assert(b.contains(y));
        let ia = choose|i: int| 0 <= i < a.len() && a[i] == y;
        let ib = choose|i: int| 0 <= i < b.len() && b[i] == x;
        assert(y <= x) by {
            if ia < a.len() - 1 {
                assert(a[ia] < a[a.len() - 1]);
            }
        }
        assert(x <= y) by {
            if ib < b.len() - 1 {
                assert(b[ib] < b[b.len() - 1]);
            }
        }
        let a2 = a.drop_last();
        let b2 = b.drop_last();
        assert forall|p: u16| a2.contains(p) <==> b2.contains(p) by {
            if a2.contains(p) {
                let i = choose|i: int| 0 <= i < a2.len() && a2[i] == p;
                assert(a[i] == p && a[i] < x);
                assert(b.contains(p));
                let j = choose|j: int| 0 <= j < b.len() && b[j] == p;
                assert(j != b.len() - 1);
                assert(b2[j] == p);
            }
            if b2.contains(p) {
                let i = choose|i: int| 0 <= i < b2.len() && b2[i] == p;
                assert(b[i] == p && b[i] < y);
                assert(a.contains(p));
                let j = choose|j: int| 0 <= j < a.len() && a[j] == p;
                assert(j != a.len() - 1);
                assert(a2[j] == p);
            }
        }
        assert forall|i: int, j: int| 0 <= i < j < a2.len() implies #[trigger] a2[i] < #[trigger] a2[j] by {
            assert(a[i] < a[j]);
        }
        assert forall|i: int, j: int| 0 <= i < j < b2.len() implies #[trigger] b2[i] < #[trigger] b2[j] by {
            assert(b[i] < b[j]);
        }
        lemma_sorted_same_entries(a2, b2);
        assert(a =~= a2.push(x));
        assert(b =~= b2.push(y));
    }
}

/// Adding the service ports a second time changes nothing.
pub proof fn law_service_ports_idempotent(before: Seq<u16>, once: Seq<u16>, twice: Seq<u16>)
    requires
        with_service_ports(before, once),
        with_service_ports(once, twice),
    ensures
        twice == once,
{
    lemma_sorted_same_entries(twice, once);
}

/// The entries of `after` are those of `before`, each in lower case.
pub open spec fn all_lowercase(before: Seq<String>, after: Seq<String>) -> bool {
    &&& after.len() == before.len()
    &&& forall|i: int| 0 <= i < before.len() ==> (#[trigger] after[i])@ == lowercase(before[i]@)
}

/// `after` is `before` with new port lists, each given by `ok`.
pub open spec fn cfgs_with_ports(
    before: Seq<VmCfgProxy>,
    after: Seq<VmCfgProxy>,
) -> bool {
    &&& after.len() == before.len()
    &&& forall|i: int|
        0 <= i < before.len() ==> with_service_ports(before[i].port_list@, (#[trigger] after[i]).port_list@)
            && after[i] == (VmCfgProxy { port_list: after[i].port_list, ..before[i] })
}

/// The duplicates asked for, when they are allowed.
pub open spec fn dup_verdict(dup_each: Option<u32>) -> Result<u32, CoreError> {
    let dup = match dup_each {
        Some(d) => d,
        None => 0,
    };
    if DUP_MAX < dup {
        Err(CoreError::DupTooLarge { dup, max: DUP_MAX })
    } else {
        Ok(dup)
    }
}

impl RequestAddressEnv {
    /// Adds the ssh and exec ports to the port list of every machine, or to
    /// the common port list when no machine is configured.
    pub fn set_ssh_port(&mut self)
        ensures
            match old(self).vm_cfg {
                Some(vc) => final(self).vm_cfg matches Some(nvc) && cfgs_with_ports(vc@, nvc@)
                    && final(self).port_set == old(self).port_set,
                None => final(self).vm_cfg is None && with_service_ports(
                    old(self).port_set@,
                    final(self).port_set@,
                ),
            },
            final(self).env_id == old(self).env_id,
            final(self).life_time == old(self).life_time,
            final(self).dup_each == old(self).dup_each,
            final(self).deny_outgoing == old(self).deny_outgoing,
            final(self).os_prefix == old(self).os_prefix,
            final(self).cpu_num == old(self).cpu_num,
            final(self).memory_size == old(self).memory_size,
            final(self).disk_size == old(self).disk_size,
            final(self).rand_bool == old(self).rand_bool,
    {
        let mut cfg: Option<Vec<VmCfgProxy>> = None;
        std::mem::swap(&mut cfg, &mut self.vm_cfg);
        match cfg {
            Some(mut vc) => {
                let ghost orig = vc@;
                let n = vc.len();
                let mut i: usize = 0;
                while i < n
                    invariant
                        n == orig.len(),
                        vc@.len() == n,
                        i <= n,
                        forall|j: int| i <= j < n ==> #[trigger] vc@[j] == orig[j],
                        forall|j: int|
                            0 <= j < i ==> with_service_ports(orig[j].port_list@, (#[trigger] vc@[j]).port_list@)
                                && vc@[j] == (VmCfgProxy { port_list: vc@[j].port_list, ..orig[j] }),
                    decreases n - i,
                {
                    let mut ports: Vec<VmPort> = Vec::new();
                    std::mem::swap(&mut ports, &mut vc[i].port_list);
                    add_service_ports(&mut ports);
                    std::mem::swap(&mut ports, &mut vc[i].port_list);
                    i = i + 1;
                }
                self.vm_cfg = Some(vc);
            },
            None => {
                add_service_ports(&mut self.port_set);
            },
        }
    }

    /// Puts every system name prefix in lower case.
    pub fn set_os_lower(&mut self)
        ensures
            all_lowercase(old(self).os_prefix@, final(self).os_prefix@),
            final(self).env_id == old(self).env_id,
            final(self).life_time == old(self).life_time,
            final(self).dup_each == old(self).dup_each,
            final(self).deny_outgoing == old(self).deny_outgoing,
            final(self).vm_cfg == old(self).vm_cfg,
            final(self).cpu_num == old(self).cpu_num,
            final(self).memory_size == old(self).memory_size,
            final(self).disk_size == old(self).disk_size,
            final(self).port_set == old(self).port_set,
            final(self).rand_bool == old(self).rand_bool,
    {
        let n = self.os_prefix.len();
        let mut out: Vec<String> = Vec::new();
        let mut i: usize = 0;
        while i < n
            invariant
                n == self.os_prefix@.len(),
                self.os_prefix == old(self).os_prefix,
                i <= n,
                out@.len() == i,
                forall|j: int| 0 <= j < i ==> (#[trigger] out@[j])@ == lowercase(self.os_prefix@[j]@),
            decreases n - i,
        {
            let low = crate::text::to_lowercase(self.os_prefix[i].as_str());
            out.push(low);
            i = i + 1;
        }
        self.os_prefix = out;
    }

    /// The number of duplicates of each machine asked for (none means 0),
    /// refused beyond [`DUP_MAX`].
    pub fn check_dup(&self) -> (r: Result<u32, CoreError>)
        ensures
            r == dup_verdict(self.dup_each),
    {
        let dup_each = match self.dup_each {
            Some(d) => d,
            None => 0,
        };
        if DUP_MAX < dup_each {
            Err(CoreError::DupTooLarge { dup: dup_each, max: DUP_MAX })
        } else {
            Ok(dup_each)
        }
    }
}

/// Asks to stop an environment.
#[derive(Debug, Clone, Default)]
pub struct RequestStopEnv {
    pub env_id: EnvId,
}

/// Asks to start an environment.
pub type RequestStartEnv = RequestStopEnv;

/// Asks to change the life time of an environment.
#[derive(Debug, Default)]
pub struct RequestUpdateEnvLife {
    pub env_id: EnvId,
    pub life_time: u64,
    pub is_fucker: bool,
}

/// Asks to change the hardware or the ports of an environment.
#[derive(Debug, Default)]
pub struct RequestUpdateEnvResource {
    pub env_id: EnvId,
    pub cpu_num: Option<i32>,
    pub memory_size: Option<i32>,
    pub disk_size: Option<i32>,
    pub vm_port: Vec<u16>,
    pub deny_outgoing: Option<bool>,
}

/// Asks to delete an environment.
#[derive(Debug, Default)]
pub struct RequestDeleteEnv {
    pub env_id: EnvId,
}

/// Asks to remove machines from an environment.
#[derive(Debug, Default)]
pub struct RequestUpdateEnvKickVm {
    pub env_id: EnvId,
    pub vm_id: Vec<VmId>,
    pub os_prefix: Vec<String>,
}

} // verus!
