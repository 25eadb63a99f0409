//! The virtual machine engine used when machines are only simulated.
use vstd::prelude::*;
use crate::env::Vm;
use crate::error::CoreError;
use crate::types::VmId;

verus! {

/// Pauses the machine `_id`; simulated machines always pause.
pub fn pause(_id: VmId) -> (r: Result<(), CoreError>)
    ensures
        r is Ok,
{
    Ok(())
}

/// Resumes the machine `_vm`; simulated machines always resume.
pub fn resume(_vm: &Vm) -> (r: Result<(), CoreError>)
    ensures
        r is Ok,
{
    Ok(())
}

} // verus!
