//! Terminal runtime failures carried to the host.
use vstd::prelude::*;
use vstd::string::StringExecFns;

verus! {

/// A terminal failure with its diagnostic message and, when known, the
/// function and instruction that raised it.
#[derive(Debug, Clone, PartialEq, Eq)]
pub struct Fault {
    pub message: String,
    pub function: Option<String>,
    pub instruction: Option<usize>,
}

impl Fault {
    /// A fault with a message and no location.
    pub fn new(message: &str) -> (f: Fault)
        ensures
            f.message@ == message@,
            f.function is None,
            f.instruction is None,
    {
        Fault { message: String::from_str(message), function: None, instruction: None }
    }

    /// A fault whose message is an owned string.
    pub fn from_message(message: String) -> (f: Fault)
        ensures
            f.message == message,
            f.function is None,
            f.instruction is None,
    {
        Fault { message, function: None, instruction: None }
    }
}

} // verus!
