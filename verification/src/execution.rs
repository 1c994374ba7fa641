//! Per-execution host controls, separate from guest memory and async semantics.
use crate::fault::Fault;
use std::sync::atomic::AtomicBool;
use std::sync::Arc;
use vstd::prelude::*;
use vstd::string::StringExecFns;

verus! {

/// A shared, monotonic cancellation request. Create a new token for independent work.
/// Cancelling does not wait for execution to stop and cannot interrupt native code.
#[derive(Debug)]
pub struct CancellationToken {
    cancelled: Arc<AtomicBool>,
}

impl CancellationToken {
    /// A token on which no cancellation has been requested.
    pub fn new() -> Self {
        CancellationToken { cancelled: Arc::new(AtomicBool::new(false)) }
    }

    /// Request cancellation for every execution using this token or one of its clones.
    pub fn cancel(&self) {
        self.cancelled.store(true, std::sync::atomic::Ordering::Relaxed);
    }

    /// Whether cancellation has been requested through this token or a clone.
    /// The flag is shared across threads, so no contract fixes the answer.
    pub fn is_cancelled(&self) -> bool {
        self.cancelled.load(std::sync::atomic::Ordering::Relaxed)
    }
}

/// A further handle on the same shared flag (`Arc::clone`).
#[verifier::external_body]
fn share_flag(flag: &Arc<AtomicBool>) -> Arc<AtomicBool> {
    Arc::clone(flag)
}

impl Clone for CancellationToken {
    /// A handle on the same request: cancelling either cancels both.
    fn clone(&self) -> Self {
        CancellationToken { cancelled: share_flag(&self.cancelled) }
    }
}

impl Default for CancellationToken {
    fn default() -> Self {
        CancellationToken::new()
    }
}

/// Interpreter resource limits that the runtime policies in this crate consult.
#[derive(Debug, Clone, Copy, PartialEq, Eq)]
pub struct Limits {
    /// Managed array elements, counted across nested arrays.
    pub array_elements: usize,
    /// Managed array payload bytes.
    pub array_bytes: usize,
}

/// Interpreter limits and optional cooperative cancellation for one execution.
#[derive(Debug, Clone)]
pub struct ExecutionOptions {
    pub limits: Limits,
    pub cancellation: Option<CancellationToken>,
}

impl ExecutionOptions {
    /// Options with the given limits and no cancellation.
    pub fn from_limits(limits: Limits) -> (o: ExecutionOptions)
        ensures
            o.limits == limits,
            o.cancellation is None,
    {
        ExecutionOptions { limits, cancellation: None }
    }

    /// Fails with a located "execution cancelled" fault once the token, if
    /// any, reports cancellation. Without a token execution always continues.
    /// Whether a token reports cancellation rests on the shared flag, which
    /// other clones may set at any time; `cancellation_outcome` says what
    /// follows from either answer.
    pub fn check_cancellation(&self, function: &str, instruction: usize) -> (r: Result<(), Fault>)
        ensures
            self.cancellation is None ==> r is Ok,
            cancellation_outcome_spec(r, r is Err, function@, instruction),
    {
        let cancelled = match &self.cancellation {
            Some(token) => token.is_cancelled(),
            None => false,
        };
        cancellation_outcome(cancelled, function, instruction)
    }
}

/// Whether `r` is the outcome of a cancellation check at `instruction` of
/// `function` once the flag has been read as `cancelled`: continuing when it
/// was clear, the located "execution cancelled" fault when it was set.
pub open spec fn cancellation_outcome_spec(
    r: Result<(), Fault>,
    cancelled: bool,
    function: Seq<char>,
    instruction: usize,
) -> bool {
    match r {
        Ok(()) => !cancelled,
        Err(f) => {
            &&& cancelled
            &&& f.message@ == "execution cancelled"@
            &&& f.function matches Some(name) && name@ == function
            &&& f.instruction == Some(instruction)
        },
    }
}

/// The outcome of a cancellation check once the flag has been read (see
/// `cancellation_outcome_spec`).
pub fn cancellation_outcome(cancelled: bool, function: &str, instruction: usize) -> (r: Result<(), Fault>)
    ensures
        cancellation_outcome_spec(r, cancelled, function@, instruction),
{
    if cancelled {
        return Err(
            Fault {
                message: String::from_str("execution cancelled"),
                function: Some(String::from_str(function)),
                instruction: Some(instruction),
            },
        );
    }
    Ok(())
}

} // verus!
