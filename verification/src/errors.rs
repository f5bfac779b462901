//! The one failure taxonomy of the build-and-execute pipeline. Every phase
//! reports through these variants, and each carries enough context to
//! localize the fault.

use vstd::prelude::*;

verus! {

/// A failure of one build-and-execute cycle.
#[derive(Debug)]
pub enum RunnerError {
    /// Source text could not be parsed into a program.
    ParseFailure { message: String },
    /// Resolution rejected the program.
    ResolutionFailure { message: String },
    /// One package failed to lower to an object; names the package.
    CodegenFailure { pkgpath: String, message: String },
    /// Linking failed or an expected object was missing; names the package.
    LinkFailure { pkgpath: String, message: String },
    /// The execution deadline was exceeded. Carries nothing further.
    TimeoutFailure,
    /// The invoked artifact misbehaved at run time.
    RuntimeFault { message: String },
    /// A cache, temp-file or library read or write failed; names the path.
    IoFailure { path: String, message: String },
}

/// The message text of a failure, over views.
pub open spec fn error_message_view(e: RunnerError) -> Seq<char> {
    match e {
        RunnerError::ParseFailure { message } => "parse failed: "@ + message@,
        RunnerError::ResolutionFailure { message } => "resolve failed: "@ + message@,
        RunnerError::CodegenFailure { pkgpath, message } => "compile failed in package "@
            + pkgpath@ + ": "@ + message@,
        RunnerError::LinkFailure { pkgpath, message } => "link failed for package "@ + pkgpath@
            + ": "@ + message@,
        RunnerError::TimeoutFailure => "Timeout"@,
        RunnerError::RuntimeFault { message } => "run failed: "@ + message@,
        RunnerError::IoFailure { path, message } => "io failed at "@ + path@ + ": "@ + message@,
    }
}

impl RunnerError {
    /// The message surfaced to the caller for this failure.
    pub fn message(&self) -> (r: String)
        ensures
            r@ == error_message_view(*self),
    {
        match self {
            RunnerError::ParseFailure { message } => crate::strutil::str_concat(
                "parse failed: ",
                message.as_str(),
            ),
            RunnerError::ResolutionFailure { message } => crate::strutil::str_concat(
                "resolve failed: ",
                message.as_str(),
            ),
            RunnerError::CodegenFailure { pkgpath, message } => {
                let mut s = crate::strutil::str_concat3(
                    "compile failed in package ",
                    pkgpath.as_str(),
                    ": ",
                );
                s.append(message.as_str());
                s
            },
            RunnerError::LinkFailure { pkgpath, message } => {
                let mut s = crate::strutil::str_concat3(
                    "link failed for package ",
                    pkgpath.as_str(),
                    ": ",
                );
                s.append(message.as_str());
                s
            },
            RunnerError::TimeoutFailure => String::from_str("Timeout"),
            RunnerError::RuntimeFault { message } => crate::strutil::str_concat(
                "run failed: ",
                message.as_str(),
            ),
            RunnerError::IoFailure { path, message } => {
                let mut s = crate::strutil::str_concat3("io failed at ", path.as_str(), ": ");
                s.append(message.as_str());
                s
            },
        }
    }
}

} // verus!
