//! Basic types shared by the server and its clients.
use vstd::prelude::*;
use crate::table::Table;

verus! {

/// Default number of CPUs of a virtual machine.
pub const CPU_DEFAULT: i32 = 2;

/// Default memory of a virtual machine, in MB.
pub const MEMORY_DEFAULT: i32 = 1024;

/// Default disk of a virtual machine, in MB.
pub const DISK_DEFAULT: i32 = 40 * 1024;

/// Client id.
pub type CliId = String;

/// Borrowed client id.
pub type CliIdRef = str;

/// Environment id.
pub type EnvId = String;

/// Borrowed environment id.
pub type EnvIdRef = str;

/// Virtual machine id: the last two bytes of its MAC address.
pub type VmId = i32;

/// Process id.
pub type Pid = u32;

/// The port that every virtual machine opens for ssh.
pub const SSH_PORT: u16 = 22;

/// The port that every virtual machine opens for remote execution.
pub const EXEC_PORT: u16 = 38888;

/// A network port.
pub type Port = u16;

/// A port inside a virtual machine.
pub type VmPort = Port;

/// A public port of the server, forwarded to a virtual machine.
pub type PubPort = Port;

/// An IPv4 address in its textual form, such as `127.0.0.1`.
#[derive(Debug)]
pub struct Ipv4 {
    addr: String,
}

impl View for Ipv4 {
    type V = Seq<char>;

    closed spec fn view(&self) -> Seq<char> {
        self.addr@
    }
}

impl Ipv4 {
    /// Wraps an address.
    pub fn new(addr: String) -> (ip: Ipv4)
        ensures
            ip@ == addr@,
    {
        Ipv4 { addr }
    }

    /// The address as text.
    pub fn as_str(&self) -> (s: &str)
        ensures
            s@ == self@,
    {
        self.addr.as_str()
    }

    /// The address as it is printed.
    pub fn to_display_string(&self) -> (s: String)
        ensures
            s@ == self@,
    {
        self.addr.clone()
    }
}

impl Clone for Ipv4 {
    fn clone(&self) -> (r: Self)
        ensures
            r@ == self@,
    {
        Ipv4 { addr: self.addr.clone() }
    }
}

impl Default for Ipv4 {
    fn default() -> (r: Self)
        ensures
            r@ == Seq::<char>::empty(),
    {
        Ipv4 { addr: String::new() }
    }
}

/// The kinds of virtual machine engines.
#[derive(Debug, Clone, Copy, PartialEq, Eq, Structural)]
pub enum VmKind {
    Qemu,
    Bhyve,
    FireCracker,
    Docker,
    Unknown,
}

/// How each kind of engine is printed.
pub open spec fn vm_kind_name(k: VmKind) -> Seq<char> {
    match k {
        VmKind::Qemu => "qemu"@,
        VmKind::Bhyve => "bhyve"@,
        VmKind::FireCracker => "fireCracker"@,
        VmKind::Docker => "docker"@,
        VmKind::Unknown => "unKnow"@,
    }
}

impl VmKind {
    /// The printed name of the engine.
    pub fn to_display_string(&self) -> (s: String)
        ensures
            s@ == vm_kind_name(*self),
    {
        match self {
            VmKind::Qemu => "qemu".to_owned(),
            VmKind::Bhyve => "bhyve".to_owned(),
            VmKind::FireCracker => "fireCracker".to_owned(),
            VmKind::Docker => "docker".to_owned(),
            VmKind::Unknown => "unKnow".to_owned(),
        }
    }
}

impl Default for VmKind {
    /// On Linux the default engine is Docker.
    fn default() -> (r: Self)
        ensures
            r == VmKind::Docker,
    {
        VmKind::Docker
    }
}

/// What a client is told about one virtual machine.
pub struct VmInfo {
    pub os: String,
    pub cpu_num: i32,
    pub memory_size: i32,
    pub disk_size: i32,
    pub ip: Ipv4,
    pub port_map: Table<VmPort, PubPort>,
}

/// A short description of an environment.
#[derive(Debug)]
pub struct EnvMeta {
    /// Environment id.
    pub id: EnvId,
    /// When the environment was created.
    pub start_timestamp: u64,
    /// When the environment expires.
    pub end_timestamp: u64,
    /// How many virtual machines it holds.
    pub vm_cnt: usize,
    /// Whether it is stopped.
    pub is_stopped: bool,
}

/// A full description of an environment; its machines are ordered by id.
pub struct EnvInfo {
    pub id: EnvId,
    pub start_timestamp: u64,
    pub end_timestamp: u64,
    pub vm: Table<VmId, VmInfo>,
    pub is_stopped: bool,
}

/// The configuration of one virtual machine to create.
#[derive(Debug)]
pub struct VmCfg {
    pub image_tag: String,
    pub port_list: Vec<VmPort>,
    pub kind: VmKind,
    pub cpu_num: Option<i32>,
    pub memory_size: Option<i32>,
    pub disk_szie: Option<i32>,
    pub rand_uuid: bool,
}

/// The configuration of one virtual machine, as a client sends it.
#[derive(Debug)]
pub struct VmCfgProxy {
    pub image_tag: String,
    pub port_list: Vec<VmPort>,
    pub cpu_num: Option<i32>,
    pub memoy_size: Option<i32>,
    pub disk_size: Option<i32>,
    pub rand_uuid: bool,
}

} // verus!
