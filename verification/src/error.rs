use vstd::prelude::*;
use vstd::string::*;
use crate::version::{Version, version_chars};

verus! {

/// The user-visible failure kinds of the manager. Install finding its target
/// already present is not an error (it is reported and exits successfully),
/// so it has no variant here.
#[derive(Debug)]
pub enum AvmError {
    /// Bad argument shape or combination.
    Usage(String),
    /// The named version has no binary on disk.
    NotInstalled(Version),
    /// No object on the registry starts with the given commit prefix.
    UnknownCommit(String),
    /// More than one object on the registry starts with the given prefix.
    AmbiguousCommit(String),
    /// The registry lists no published versions.
    EmptyRegistry,
    /// The current-selection file or the binary directory holds unparseable
    /// content.
    CorruptState(String),
    /// Transport failed after retries were exhausted.
    Network(String),
    /// The external build driver exited with an error.
    BuildFailed,
    /// Another process holds the install lock for this target.
    LockBusy,
    /// A filesystem permission problem.
    PermissionDenied(String),
    /// `use` was given no version and stdin is not a terminal.
    NoVersionSpecified,
}

/// The single-line diagnostic for each failure kind.
pub open spec fn error_message(e: &AvmError) -> Seq<char> {
    match e {
        AvmError::Usage(s) => s@,
        AvmError::NotInstalled(v) => "anchor-cli "@ + version_chars(v@)
            + " is not installed. Run `avm install "@ + version_chars(v@) + "`."@,
        AvmError::UnknownCommit(c) => "unknown commit: "@ + c@,
        AvmError::AmbiguousCommit(c) => "ambiguous commit prefix: "@ + c@,
        AvmError::EmptyRegistry => "the registry lists no published versions"@,
        AvmError::CorruptState(s) => "corrupt state: "@ + s@,
        AvmError::Network(s) => "network error: "@ + s@,
        AvmError::BuildFailed => "the build driver exited with an error"@,
        AvmError::LockBusy => "another process is installing this target; wait and retry"@,
        AvmError::PermissionDenied(s) => "permission denied: "@ + s@,
        AvmError::NoVersionSpecified => "no version given and stdin is not a terminal"@,
    }
}

impl AvmError {
    /// The diagnostic line that the top-level entry point prints to stderr.
    pub fn message(&self) -> (r: String)
        ensures
            r@ == error_message(self),
    {
        match self {
            AvmError::Usage(s) => s.clone(),
            AvmError::NotInstalled(v) => {
                let mut m = "anchor-cli ".to_owned();
                let vs = v.to_version_string();
                m.append(vs.as_str());
                m.append(" is not installed. Run `avm install ");
                m.append(vs.as_str());
                m.append("`.");
                m
            },
            AvmError::UnknownCommit(c) => {
                let mut m = "unknown commit: ".to_owned();
                m.append(c.as_str());
                m
            },
            AvmError::AmbiguousCommit(c) => {
                let mut m = "ambiguous commit prefix: ".to_owned();
                m.append(c.as_str());
                m
            },
            AvmError::EmptyRegistry => "the registry lists no published versions".to_owned(),
            AvmError::CorruptState(s) => {
                let mut m = "corrupt state: ".to_owned();
                m.append(s.as_str());
                m
            },
            AvmError::Network(s) => {
                let mut m = "network error: ".to_owned();
                m.append(s.as_str());
                m
            },
            AvmError::BuildFailed => "the build driver exited with an error".to_owned(),
            AvmError::LockBusy => "another process is installing this target; wait and retry"
                .to_owned(),
            AvmError::PermissionDenied(s) => {
                let mut m = "permission denied: ".to_owned();
                m.append(s.as_str());
                m
            },
            AvmError::NoVersionSpecified => "no version given and stdin is not a terminal"
                .to_owned(),
        }
    }

    /// The process exit code for this failure: 2 for usage errors, 1
    /// otherwise.
    pub fn exit_code(&self) -> (r: i32)
        ensures
            r == (if self is Usage { 2int } else { 1int }),
    {
        match self {
            AvmError::Usage(_) => 2,
            _ => 1,
        }
    }
}

} // verus!
