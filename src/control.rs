//! Deciding the outcome of a request to terminate a process.
//!
//! Running the platform's termination tool happens outside the library; the
//! library says whether the platform can terminate processes at all, and what
//! a finished or failed run of the tool means for the caller.
use vstd::prelude::*;
use vstd::string::StringExecFns;

verus! {

/// The termination facility of the platform.
#[derive(Clone, Copy, Debug, PartialEq, Eq, Structural)]
pub enum KillSupport {
    /// Processes are terminated by running `taskkill /F /PID <pid>`.
    Taskkill,
    /// The platform offers no way to terminate a process.
    Unsupported,
}

/// What became of one run of the termination tool.
#[derive(Debug)]
pub enum KillAttempt {
    /// The tool ran to its end, successfully or not, and wrote `stderr`.
    Exited { success: bool, stderr: String },
    /// The tool could not be started, for `reason`.
    NotStarted { reason: String },
}

/// Why a termination request failed.
#[derive(Debug)]
pub enum KillError {
    /// The platform cannot terminate processes.
    Unsupported,
    /// The tool ran and reported failure, with what it wrote to `stderr`.
    Refused { stderr: String },
    /// The tool could not be started.
    NotStarted { reason: String },
}

/// The text made of a fixed `head` followed by `tail`.
fn joined(head: &str, tail: &str) -> (r: String)
    ensures
        r@ == head@ + tail@,
{
    let mut r = head.to_owned();
    r.append(tail);
    r
}

impl KillError {
    /// The description of this failure that is handed to the caller.
    pub open spec fn describe(&self) -> Seq<char> {
        match self {
            KillError::Unsupported => "Esta función solo está disponible en Windows"@,
            KillError::Refused { stderr } => "No se pudo terminar el proceso: "@ + stderr@,
            KillError::NotStarted { reason } => "Error al ejecutar taskkill: "@ + reason@,
        }
    }

    /// The description of this failure, with the tool's own words verbatim.
    pub fn message(&self) -> (r: String)
        ensures
            r@ == self.describe(),
    {
        match self {
            KillError::Unsupported => "Esta función solo está disponible en Windows".to_owned(),
            KillError::Refused { stderr } => joined("No se pudo terminar el proceso: ", stderr.as_str()),
            KillError::NotStarted { reason } => joined("Error al ejecutar taskkill: ", reason.as_str()),
        }
    }
}

/// The first step of a request to terminate `pid`.
#[derive(Debug)]
pub enum KillStep {
    /// Run the termination tool on `pid`, then hand what it gave to
    /// `kill_outcome`.
    Run { pid: u32 },
    /// The request is over, with this result; no tool is run.
    Done(Result<bool, KillError>),
}

/// How a request to terminate `pid` begins. Where the platform has a
/// termination facility, the tool is to be run on `pid`. Where it has none,
/// the request ends at once with `KillError::Unsupported`, and nothing is
/// asked of the operating system.
pub fn begin_kill(support: KillSupport, pid: u32) -> (step: KillStep)
    ensures
        support == KillSupport::Taskkill ==> step == (KillStep::Run { pid }),
        support == KillSupport::Unsupported ==> step == KillStep::Done(
            Err::<bool, KillError>(KillError::Unsupported),
        ),
        (step is Run) == (support == KillSupport::Taskkill),
{
    match support {
        KillSupport::Taskkill => KillStep::Run { pid },
        KillSupport::Unsupported => KillStep::Done(Err(KillError::Unsupported)),
    }
}

/// The result of a termination request from what its run of the tool gave:
/// `Ok(true)` when the tool succeeded, else the failure with the tool's
/// words. No check is made that the process is gone.
pub fn kill_outcome(attempt: KillAttempt) -> (r: Result<bool, KillError>)
    ensures
        match attempt {
            KillAttempt::Exited { success: true, .. } => r == Ok::<bool, KillError>(true),
            KillAttempt::Exited { success: false, stderr } => r == Err::<bool, KillError>(
                KillError::Refused { stderr },
            ),
            KillAttempt::NotStarted { reason } => r == Err::<bool, KillError>(
                KillError::NotStarted { reason },
            ),
        },
{
    match attempt {
        KillAttempt::Exited { success, stderr } => {
            if success {
                Ok(true)
            } else {
                Err(KillError::Refused { stderr })
            }
        },
        KillAttempt::NotStarted { reason } => Err(KillError::NotStarted { reason }),
    }
}

} // verus!
