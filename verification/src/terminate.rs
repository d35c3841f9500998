//! The two-stage termination protocol: first a graceful termination signal;
//! only if that command ran and reported failure, a forceful kill signal.
//! The protocol is synchronous and bounded — no retry, no waiting for the
//! process to exit: success means the OS accepted signal delivery. The
//! caller performs the actual signal commands and feeds their outcomes in.
use vstd::prelude::*;

verus! {

/// What became of one signal command.
pub enum CmdOutcome {
    /// The command ran to completion; `success` is its reported exit status,
    /// `stderr` its diagnostic text.
    Completed { success: bool, stderr: String },
    /// The command could not be invoked at all; `error` describes why.
    NotRun { error: String },
}

/// What the protocol does after the graceful stage.
pub enum EscalationStep {
    /// The protocol is over with this result.
    Finished(Result<bool, String>),
    /// The graceful command ran but reported failure: send the forceful
    /// kill signal next.
    Escalate,
}

/// Decides the protocol's course from the graceful command's outcome: a
/// reported success ends the protocol successfully (the forceful stage is
/// never entered); a reported failure escalates; a command that could not
/// run at all ends the protocol with an execution error.
pub fn graceful_step(first: &CmdOutcome) -> (r: EscalationStep)
    ensures
        match *first {
            CmdOutcome::Completed { success, .. } => if success {
                r == EscalationStep::Finished(Result::<bool, String>::Ok(true))
            } else {
                r == EscalationStep::Escalate
            },
            CmdOutcome::NotRun { error } => r matches EscalationStep::Finished(res)
                && res matches Err(m) && m@ == "Error executing kill command: "@ + error@,
        },
{
    match first {
        CmdOutcome::Completed { success, .. } => {
            if *success {
                EscalationStep::Finished(Ok(true))
            } else {
                EscalationStep::Escalate
            }
        },
        CmdOutcome::NotRun { error } => {
            EscalationStep::Finished(
                Err(String::from_str("Error executing kill command: ").concat(error.as_str())),
            )
        },
    }
}

/// Decides the protocol's final result from the forceful command's outcome:
/// its reported status is the protocol's result; a reported failure carries
/// the command's diagnostic text; a command that could not run at all is an
/// execution error.
pub fn forceful_step(second: &CmdOutcome) -> (r: Result<bool, String>)
    ensures
        match *second {
            CmdOutcome::Completed { success, stderr } => if success {
                r == Result::<bool, String>::Ok(true)
            } else {
                r matches Err(m) && m@ == "Failed to kill process: "@ + stderr@
            },
            CmdOutcome::NotRun { error } => r matches Err(m) && m@
                == "Error executing kill command: "@ + error@,
        },
{
    match second {
        CmdOutcome::Completed { success, stderr } => {
            if *success {
                Ok(true)
            } else {
                Err(String::from_str("Failed to kill process: ").concat(stderr.as_str()))
            }
        },
        CmdOutcome::NotRun { error } => {
            Err(String::from_str("Error executing kill command: ").concat(error.as_str()))
        },
    }
}

} // verus!
