//! Errors reported by the library.
use vstd::prelude::*;

verus! {

/// Why an operation was refused.
#[derive(Debug, Clone, Copy, PartialEq, Eq, Structural)]
pub enum CoreError {
    /// An inconsistency that should not happen: an arithmetic overflow in
    /// resource accounting, or an environment that is not attached to a server.
    Internal,
    /// The environment must be stopped before its hardware is changed.
    EnvNotStopped,
    /// Not enough CPU left on the server.
    CpuBusy { total: i32, used: i32, need: i32 },
    /// Not enough memory left on the server.
    MemoryBusy { total: i32, used: i32, need: i32 },
    /// Not enough disk left on the server.
    DiskBusy { total: i32, used: i32, need: i32 },
    /// The requested life time is longer than allowed.
    LifeTimeTooLong,
    /// No such environment.
    EnvNotExists,
    /// No such client.
    ClientNotExists,
    /// The client is already registered.
    ClientAlreadyExists,
    /// The environment is already registered.
    EnvAlreadyExists,
    /// The environment was started or stopped too recently; retry after the given seconds.
    TooSoon { wait_secs: u64 },
    /// The image name names no supported engine.
    InvalidOsName,
    /// Too many duplicates of each virtual machine were requested.
    DupTooLarge { dup: u32, max: u32 },
    /// The virtual machine engine is not supported.
    UnsupportedVmKind,
    /// The compressed stream could not be produced or read.
    Zlib,
}

} // verus!
