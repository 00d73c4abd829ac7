use vstd::prelude::*;

verus! {

/// Configuration errors, raised before the pipeline starts and fatal to it.
/// Each variant carries the name of the offending configuration key.
#[derive(Debug, PartialEq)]
pub enum Error {
    /// The key is absent from the environment.
    VarNotPresent(String),
    /// The key is present but its value cannot be used.
    VarNotValid(String),
}

/// Per-cycle resolution failures. They are recovered locally by the
/// resolver: the failed cycle is skipped and the loop goes on.
#[derive(Clone, Debug, PartialEq)]
pub enum DnsError {
    /// The external lookup could not be started or exited non-zero;
    /// carries the command name.
    CommandFailed(String),
    /// The lookup produced text from which no valid dotted-quad address
    /// could be extracted; carries the extracted text.
    IpNotValid(String),
}

} // verus!
