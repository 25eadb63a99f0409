//! The command lines and paths with which the Qemu engine and the control
//! groups run a machine.
use vstd::prelude::*;
use crate::env::{Vm, trunc_div};
use crate::images::{CLONE_MARK, vm_img_path};
use crate::text::{decimal, i64_to_decimal, parse_u32, u32_text_value, path_file_name, path_with_file_name, push_char, push_str};
use crate::error::CoreError;
use crate::types::{VmId, VmKind};

verus! {

/// The directory under which the control groups are mounted.
pub const CGROUP_ROOT_PATH: &'static str = "/tmp/.ttcgroup";

/// The control group of the server itself.
pub const CGROUP_ADMIN_PATH: &'static str = "/tmp/.ttcgroup/ttadmin";

/// The file that lists the processes of a control group.
pub const CGROUP_PROCS: &'static str = "cgroup.procs";

/// The network bridge that the machines' taps join.
pub const BRIDGE: &'static str = "ttcore-bridge";

/// The machine uuid used unless a random one is asked for.
pub const DEFAULT_VM_UUID: &'static str = "5ce41b72-0e2e-48f9-8422-7647b557aba8";

/// The engines that can run a machine.
#[derive(Debug, Clone, Copy, PartialEq, Eq, Structural)]
pub enum Engine {
    Qemu,
}

/// The engine that runs machines of kind `kind`; only Qemu machines can be run.
pub fn engine_of(kind: VmKind) -> (r: Result<Engine, CoreError>)
    ensures
        kind == VmKind::Qemu ==> r == Ok::<Engine, CoreError>(Engine::Qemu),
        kind != VmKind::Qemu ==> r == Err::<Engine, CoreError>(CoreError::UnsupportedVmKind),
{
    match kind {
        VmKind::Qemu => Ok(Engine::Qemu),
        _ => Err(CoreError::UnsupportedVmKind),
    }
}

/// The character of a hexadecimal digit, in lower case.
pub open spec fn hex_digit(d: int) -> char {
    if d < 10 {
        (48 + d) as char
    } else {
        (87 + d) as char
    }
}

/// The hexadecimal digits of a natural number, in lower case, most significant first.
pub open spec fn hex_of(n: nat) -> Seq<char>
    decreases n,
{
    if n < 16 {
        seq![hex_digit(n as int)]
    } else {
        hex_of(n / 16).push(hex_digit((n % 16) as int))
    }
}

/// `s` padded on the left with `c` up to `w` characters.
pub open spec fn pad_left(s: Seq<char>, c: char, w: nat) -> Seq<char> {
    if s.len() >= w {
        s
    } else {
        Seq::new((w - s.len()) as nat, |i: int| c) + s
    }
}

/// The hexadecimal text of a number.
fn hex_string(n: u32) -> (s: String)
    ensures
        s@ == hex_of(n as nat),
    decreases n,
{
    let d = n % 16;
    let c = if d < 10 {
        ((48 + d) as u8) as char
    } else {
        ((87 + d) as u8) as char
    };
    if n < 16 {
        let mut s = String::new();
        push_char(&mut s, c);
        assert(s@ =~= seq![hex_digit(n as int)]);
        s
    } else {
        let mut s = hex_string(n / 16);
        push_char(&mut s, c);
        s
    }
}

/// Pads `s` on the left with `c` up to `w` characters.
fn pad_string(s: &str, c: char, w: usize) -> (r: String)
    ensures
        r@ == pad_left(s@, c, w as nat),
{
    let n = s.unicode_len();
    let mut r = String::new();
    if n < w {
        let mut i: usize = 0;
        while i < w - n
            invariant
                n < w,
                i <= w - n,
                r@ == Seq::new(i as nat, |k: int| c),
            decreases w - n - i,
        {
            push_char(&mut r, c);
            assert(r@ =~= Seq::new((i + 1) as nat, |k: int| c));
            i = i + 1;
        }
    }
    push_str(&mut r, s);
    assert(n >= w ==> r@ =~= s@);
    r
}

/// The name of the tap device of machine `id`.
pub open spec fn tap_name_of(id: VmId) -> Seq<char> {
    "TAP-"@ + decimal(id as int)
}

/// The name of the tap device of machine `id`.
pub fn tap_name(id: VmId) -> (s: String)
    ensures
        s@ == tap_name_of(id),
{
    let mut s = "TAP-".to_owned();
    let d = i64_to_decimal(id as i64);
    push_str(&mut s, d.as_str());
    s
}

/// The drive and disk device arguments of a machine: its cloned image as a
/// raw drive, and a virtio block device on it.
pub fn gen_disk_info(vm: &Vm) -> (r: (String, String))
    ensures
        r.0@ == "file="@ + path_with_file_name(vm.image_path@, CLONE_MARK@ + decimal(vm.id as int))
            + ",if=none,format=raw,cache=none,id=DISK_"@ + decimal(vm.id as int),
        r.1@ == "virtio-blk-pci,drive=DISK_"@ + decimal(vm.id as int),
{
    let id = i64_to_decimal(vm.id as i64);
    let img = vm_img_path(vm);
    let mut disk = "file=".to_owned();
    push_str(&mut disk, img.as_str());
    push_str(&mut disk, ",if=none,format=raw,cache=none,id=DISK_");
    push_str(&mut disk, id.as_str());
    let mut drive = "virtio-blk-pci,drive=DISK_".to_owned();
    push_str(&mut drive, id.as_str());
    (disk, drive)
}

/// The network backend argument of a machine: its tap device.
pub open spec fn net_dev_of(id: VmId) -> Seq<char> {
    "tap,ifname=TAP-"@ + decimal(id as int) + ",script=no,downscript=no,id=NET_"@ + decimal(
        id as int,
    )
}

/// The network device argument of a machine. Its MAC address ends with the
/// two bytes of the machine id as two octets, each in lower-case
/// hexadecimal padded with `0` to two digits.
pub open spec fn net_device_of(id: VmId) -> Seq<char> {
    let hi = trunc_div(id as int, 256);
    let lo = id as int - 256 * hi;
    "virtio-net-pci,mac=52:54:00:11:"@ + pad_left(hex_of((hi as u32) as nat), '0', 2) + ":"@
        + pad_left(hex_of((lo as u32) as nat), '0', 2) + ",netdev=NET_"@ + decimal(id as int)
}

/// The arguments with which Qemu starts a machine in the background, given
/// the IOMMU device of the host and the machine's uuid.
pub open spec fn qemu_args_of(vm: Vm, iommu: Seq<char>, uuid: Seq<char>) -> Seq<Seq<char>> {
    seq![
        "-enable-kvm"@,
        "-machine"@,
        "q35,accel=kvm"@,
        "-device"@,
        iommu,
        "-cpu"@,
        "host"@,
        "-smp"@,
        decimal(vm.cpu_num as int),
        "-netdev"@,
        net_dev_of(vm.id),
        "-device"@,
        net_device_of(vm.id),
        "-drive"@,
        "file="@ + path_with_file_name(vm.image_path@, CLONE_MARK@ + decimal(vm.id as int))
            + ",if=none,format=raw,cache=none,id=DISK_"@ + decimal(vm.id as int),
        "-device"@,
        "virtio-blk-pci,drive=DISK_"@ + decimal(vm.id as int),
        "-boot"@,
        "order=cd"@,
        "-vnc"@,
        ":"@ + decimal(vm.id as int),
        "-uuid"@,
        uuid,
        "-daemonize"@,
    ]
}

/// The arguments with which Qemu starts machine `vm`.
pub fn qemu_args(vm: &Vm, iommu: &str, uuid: &str) -> (r: Vec<String>)
    ensures
        r@.map_values(|s: String| s@) == qemu_args_of(*vm, iommu@, uuid@),
{
    let id = i64_to_decimal(vm.id as i64);
    let cpu = i64_to_decimal(vm.cpu_num as i64);
    let mut net_dev = "tap,ifname=TAP-".to_owned();
    push_str(&mut net_dev, id.as_str());
    push_str(&mut net_dev, ",script=no,downscript=no,id=NET_");
    push_str(&mut net_dev, id.as_str());
    let hi = vm.id / 256;
    let lo = vm.id % 256;
    let hi_hex = hex_string(hi as u32);
    let lo_hex = hex_string(lo as u32);
    let mut net_device = "virtio-net-pci,mac=52:54:00:11:".to_owned();
    let hi_text = pad_string(hi_hex.as_str(), '0', 2);
    push_str(&mut net_device, hi_text.as_str());
    push_str(&mut net_device, ":");
    let lo_text = pad_string(lo_hex.as_str(), '0', 2);
    push_str(&mut net_device, lo_text.as_str());
    push_str(&mut net_device, ",netdev=NET_");
    push_str(&mut net_device, id.as_str());
    let (disk, drive) = gen_disk_info(vm);
    let mut vnc = ":".to_owned();
    push_str(&mut vnc, id.as_str());
    let mut v: Vec<String> = Vec::new();
    v.push("-enable-kvm".to_owned());
    v.push("-machine".to_owned());
    v.push("q35,accel=kvm".to_owned());
    v.push("-device".to_owned());
    v.push(iommu.to_owned());
    v.push("-cpu".to_owned());
    v.push("host".to_owned());
    v.push("-smp".to_owned());
    v.push(cpu);
    v.push("-netdev".to_owned());
    v.push(net_dev);
    v.push("-device".to_owned());
    v.push(net_device);
    v.push("-drive".to_owned());
    v.push(disk);
    v.push("-device".to_owned());
    v.push(drive);
    v.push("-boot".to_owned());
    v.push("order=cd".to_owned());
    v.push("-vnc".to_owned());
    v.push(vnc);
    v.push("-uuid".to_owned());
    v.push(uuid.to_owned());
    v.push("-daemonize".to_owned());
    assert(v@.map_values(|s: String| s@) =~= qemu_args_of(*vm, iommu@, uuid@));
    v
}

/// The command that clones the base snapshot of a machine's system into
/// its own volume, under the volume root `zfs_root`; `None` when the image
/// path has no file name to name the system by.
pub fn create_image_cmd(vm: &Vm, zfs_root: &str) -> (r: Option<String>)
    ensures
        match path_file_name(vm.image_path@) {
            Some(os) => r matches Some(s) && s@ == "zfs clone -o volmode=dev "@ + zfs_root@ + "/"@
                + os + "@base "@ + zfs_root@ + "/"@ + CLONE_MARK@ + decimal(vm.id as int),
            None => r is None,
        },
{
    let os = match crate::text::file_name_of(vm.image_path.as_str()) {
        Some(n) => n,
        None => {
            return None;
        },
    };
    let mut s = "zfs clone -o volmode=dev ".to_owned();
    push_str(&mut s, zfs_root);
    push_str(&mut s, "/");
    push_str(&mut s, os.as_str());
    push_str(&mut s, "@base ");
    push_str(&mut s, zfs_root);
    push_str(&mut s, "/");
    push_str(&mut s, CLONE_MARK);
    let id = i64_to_decimal(vm.id as i64);
    push_str(&mut s, id.as_str());
    Some(s)
}

/// The command that destroys the volume of a machine, under the volume root `zfs_root`.
pub fn remove_image_cmd(vm: &Vm, zfs_root: &str) -> (r: String)
    ensures
        r@ == "zfs destory "@ + zfs_root@ + "/"@ + CLONE_MARK@ + "/"@ + decimal(vm.id as int),
{
    let mut s = "zfs destory ".to_owned();
    push_str(&mut s, zfs_root);
    push_str(&mut s, "/");
    push_str(&mut s, CLONE_MARK);
    push_str(&mut s, "/");
    let id = i64_to_decimal(vm.id as i64);
    push_str(&mut s, id.as_str());
    s
}

/// The directory of the control group of machine `id`.
pub open spec fn cgroup_dir_of(id: VmId) -> Seq<char> {
    CGROUP_ROOT_PATH@ + "/"@ + decimal(id as int)
}

/// The directory of the control group of machine `id`.
pub fn cgroup_dir(id: VmId) -> (r: String)
    ensures
        r@ == cgroup_dir_of(id),
{
    let mut s = CGROUP_ROOT_PATH.to_owned();
    push_str(&mut s, "/");
    let d = i64_to_decimal(id as i64);
    push_str(&mut s, d.as_str());
    s
}

/// The file listing the processes of the control group of machine `id`.
pub fn cgroup_procs_path(id: VmId) -> (r: String)
    ensures
        r@ == cgroup_dir_of(id) + "/"@ + CGROUP_PROCS@,
{
    let mut s = cgroup_dir(id);
    push_str(&mut s, "/");
    push_str(&mut s, CGROUP_PROCS);
    s
}

/// The file listing the processes of the server's own control group.
pub fn cgroup_admin_procs_path() -> (r: String)
    ensures
        r@ == CGROUP_ADMIN_PATH@ + "/"@ + CGROUP_PROCS@,
{
    let mut s = CGROUP_ADMIN_PATH.to_owned();
    push_str(&mut s, "/");
    push_str(&mut s, CGROUP_PROCS);
    s
}

/// The file whose presence shows that the control groups are mounted.
pub fn cgroup_root_procs_path() -> (r: String)
    ensures
        r@ == CGROUP_ROOT_PATH@ + "/"@ + CGROUP_PROCS@,
{
    let mut s = CGROUP_ROOT_PATH.to_owned();
    push_str(&mut s, "/");
    push_str(&mut s, CGROUP_PROCS);
    s
}

/// What to do with one line of the process list of a control group that is
/// being torn down.
#[derive(Debug, Clone, Copy, PartialEq, Eq, Structural)]
pub enum KillStep {
    /// The line names the server itself: move it back to its own group.
    ResetAdmin,
    /// Send the process a termination signal.
    Kill(u32),
}

/// The step for a line of a process list, or `None` when the line is no
/// process id.
pub open spec fn kill_step_of(line: Seq<char>, own: u32) -> Option<KillStep> {
    match u32_text_value(line) {
        None => None,
        Some(pid) => if pid == own {
            Some(KillStep::ResetAdmin)
        } else {
            Some(KillStep::Kill(pid))
        },
    }
}

/// The step for one line of a control group's process list, where `own` is
/// the server's own process id.
pub fn kill_step(line: &str, own: u32) -> (r: Option<KillStep>)
    ensures
        r == kill_step_of(line@, own),
{
    match parse_u32(line) {
        None => None,
        Some(pid) => if pid == own {
            Some(KillStep::ResetAdmin)
        } else {
            Some(KillStep::Kill(pid))
        },
    }
}

/// What to do about the control group of a machine that is being started.
#[derive(Debug, Clone, Copy, PartialEq, Eq, Structural)]
pub enum MntAction {
    /// Create the group's directory.
    Create,
    /// Use the existing group, which holds no process.
    Reuse,
    /// Refuse: the groups are not mounted, or the group is in use.
    Refuse,
}

/// The decision, given whether the control groups are mounted and, when
/// the machine's group exists, the length of its process list.
pub open spec fn mnt_action_of(ready: bool, existing_procs_len: Option<u64>) -> MntAction {
    if !ready {
        MntAction::Refuse
    } else {
        match existing_procs_len {
            None => MntAction::Create,
            Some(len) => if len == 0 {
                MntAction::Reuse
            } else {
                MntAction::Refuse
            },
        }
    }
}

/// Decides how to get the control group of a machine: `ready` tells whether
/// the groups are mounted, `existing_procs_len` the length of the process
/// list of the machine's group when that group already exists.
pub fn mnt_point_action(ready: bool, existing_procs_len: Option<u64>) -> (r: MntAction)
    ensures
        r == mnt_action_of(ready, existing_procs_len),
{
    if !ready {
        MntAction::Refuse
    } else {
        match existing_procs_len {
            None => MntAction::Create,
            Some(len) => if len == 0 {
                MntAction::Reuse
            } else {
                MntAction::Refuse
            },
        }
    }
}

} // verus!
