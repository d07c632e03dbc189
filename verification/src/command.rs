//! The decisions around the workload: whether there is one to launch, how a
//! failed launch is reported and what its exit code is.

use crate::error::JouleProfilerError;
use vstd::prelude::*;

pub mod list_sensors;
pub mod phases;
pub mod simple;

verus! {

/// Whether there is a command to launch: an empty command line is refused.
pub fn check_command(cmd: &Vec<String>) -> (r: Result<(), JouleProfilerError>)
    ensures
        match r {
            Ok(()) => cmd@.len() > 0,
            Err(e) => cmd@.len() == 0 && e is NoCommand,
        },
{
    if cmd.len() == 0 {
        return Err(JouleProfilerError::NoCommand);
    }
    Ok(())
}

/// The failure to report when `program` could not be launched: that it was
/// not found, or the reason `why`.
pub fn launch_failure(program: &str, not_found: bool, why: &str) -> (e: JouleProfilerError)
    ensures
        not_found ==> (e matches JouleProfilerError::CommandNotFound(name) && name@ == program@),
        !not_found ==> (e matches JouleProfilerError::CommandExecutionFailed(text) && text@
            == why@),
{
    if not_found {
        JouleProfilerError::CommandNotFound(program.to_owned())
    } else {
        JouleProfilerError::CommandExecutionFailed(why.to_owned())
    }
}

/// The exit code of a workload: its own, or one where it has none
/// because a signal ended it.
pub fn exit_code_of(code: Option<i32>) -> (exit_code: i32)
    ensures
        exit_code == (match code {
            Some(c) => c,
            None => 1,
        }),
{
    match code {
        Some(c) => c,
        None => 1,
    }
}

/// The time between two timestamps in microseconds, in whole milliseconds.
pub open spec fn duration_ms_between(begin_us: u128, end_us: u128) -> int {
    (end_us - begin_us) / 1000
}

} // verus!
