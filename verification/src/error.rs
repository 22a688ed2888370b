//! The kinds of failure the engine knows.

use vstd::prelude::*;

verus! {

/// What went wrong.
#[derive(Clone, Copy, Debug, PartialEq, Eq, Structural)]
pub enum ErrorKind {
    /// The registry gave no answer.
    RegistryUnreachable,
    /// The registry answered with something that is no tag listing.
    RegistryResponseInvalid,
    /// The registry knows no such repository.
    RegistryNotFound,
    /// The container runtime could not be started, or did not exit with
    /// success.
    RuntimeInvocationFailed,
    /// A profile was named that the store does not hold.
    ProfileNotFound,
}

impl ErrorKind {
    /// The name of the kind.
    pub fn name(&self) -> (s: &'static str)
        ensures
            s@ == match *self {
                ErrorKind::RegistryUnreachable => "RegistryUnreachable"@,
                ErrorKind::RegistryResponseInvalid => "RegistryResponseInvalid"@,
                ErrorKind::RegistryNotFound => "RegistryNotFound"@,
                ErrorKind::RuntimeInvocationFailed => "RuntimeInvocationFailed"@,
                ErrorKind::ProfileNotFound => "ProfileNotFound"@,
            },
    {
        match self {
            ErrorKind::RegistryUnreachable => "RegistryUnreachable",
            ErrorKind::RegistryResponseInvalid => "RegistryResponseInvalid",
            ErrorKind::RegistryNotFound => "RegistryNotFound",
            ErrorKind::RuntimeInvocationFailed => "RuntimeInvocationFailed",
            ErrorKind::ProfileNotFound => "ProfileNotFound",
        }
    }
}

} // verus!
