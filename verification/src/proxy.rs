use vstd::prelude::*;
use vstd::string::*;
use crate::version::{Version, str_eq, version_chars};

verus! {

/// The front binary runs as a transparent proxy exactly when it was invoked
/// under the managed tool's name.
pub fn is_proxy_invocation(stem: &str) -> (r: bool)
    ensures
        r == (stem@ == "anchor"@),
{
    str_eq(stem, "anchor")
}

/// What the proxy does, given the current selection and whether the
/// selected binary is present on disk.
pub enum ProxyAction {
    /// Exec the selected version's binary with the original arguments.
    Run(Version),
    /// The selection names a version whose binary is gone.
    MissingBinary(Version),
    /// Nothing is selected.
    NoSelection,
}

pub fn plan_proxy(current: Option<Version>, binary_exists: bool) -> (r: ProxyAction)
    ensures
        match (current, r) {
            (Some(v), ProxyAction::Run(w)) => binary_exists && w@ == v@,
            (Some(v), ProxyAction::MissingBinary(w)) => !binary_exists && w@ == v@,
            (None, ProxyAction::NoSelection) => true,
            _ => false,
        },
{
    match current {
        Some(v) => {
            if binary_exists {
                ProxyAction::Run(v)
            } else {
                ProxyAction::MissingBinary(v)
            }
        },
        None => ProxyAction::NoSelection,
    }
}

/// The diagnostic when the proxy runs with no version selected.
pub fn proxy_no_selection_message() -> (r: String)
    ensures
        r@ == "Anchor version not set. Please run `avm use latest`."@,
{
    "Anchor version not set. Please run `avm use latest`.".to_owned()
}

/// The diagnostic when the selected version's binary is missing on disk.
pub fn proxy_missing_binary_message(v: &Version) -> (r: String)
    ensures
        r@ == "anchor-cli "@ + version_chars(v@) + " not installed. Please run `avm use "@
            + version_chars(v@) + "`."@,
{
    let mut m = "anchor-cli ".to_owned();
    let vs = v.to_version_string();
    m.append(vs.as_str());
    m.append(" not installed. Please run `avm use ");
    m.append(vs.as_str());
    m.append("`.");
    m
}

/// The manager's own exit code after waiting for the proxied child: the
/// child's code is propagated verbatim; a child that failed without a code
/// (killed by a signal) maps to 1; success is 0.
pub fn propagate_exit_code(child_success: bool, child_code: Option<i32>) -> (r: i32)
    ensures
        child_success ==> r == 0,
        !child_success ==> r == (match child_code {
            Some(c) => c,
            None => 1,
        }),
{
    if child_success {
        0
    } else {
        match child_code {
            Some(c) => c,
            None => 1,
        }
    }
}

} // verus!
