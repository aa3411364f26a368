use vstd::prelude::*;
use vstd::string::*;
use crate::error::AvmError;
use crate::version::Version;
use crate::parse::InstallTarget;
use crate::catalog::{AvmState, commit_key_view};

verus! {

/// How a binary is materialized: downloaded prebuilt, or compiled by the
/// external build driver.
pub enum InstallMethod {
    Prebuilt,
    SourceBuild,
}

/// The pre-flight decision of an install.
pub enum InstallPlan {
    /// The canonical binary already exists and `force` was not given: select
    /// it and report; nothing is acquired.
    AlreadyInstalled,
    /// Acquire the binary by the given method.
    Proceed(InstallMethod),
}

/// The canonical on-disk key of a commit install: `0.0.0-<sha>`.
pub fn commit_key(sha: String) -> (r: Version)
    ensures
        r@ == commit_key_view(sha@),
{
    Version::new(0, 0, 0, sha, String::new())
}

/// The canonical on-disk key of an install target. A published version is
/// its own key; a commit is keyed as `0.0.0-<sha>`; a local source tree is
/// keyed by the version its manifest declares, which the caller reads and
/// passes in (`None` when the manifest holds no readable version).
pub fn canonical_key(target: InstallTarget, path_manifest: Option<Version>) -> (r: Result<
    Version,
    AvmError,
>)
    ensures
        match target {
            InstallTarget::Version(v) => r matches Ok(k) && k@ == v@,
            InstallTarget::Commit(c) => r matches Ok(k) && k@ == commit_key_view(c@),
            InstallTarget::Path(_) => match path_manifest {
                Some(m) => r matches Ok(k) && k@ == m@,
                None => r matches Err(e) && e is CorruptState,
            },
        },
{
    match target {
        InstallTarget::Version(v) => Ok(v),
        InstallTarget::Commit(c) => Ok(commit_key(c)),
        InstallTarget::Path(_) => match path_manifest {
            Some(m) => Ok(m),
            None => Err(
                AvmError::CorruptState(
                    "the local source tree declares no readable version".to_owned(),
                ),
            ),
        },
    }
}

/// The pre-flight of an install: short-circuit when the canonical key is
/// already on disk and `force` was not given; otherwise download a prebuilt
/// only for a published version not forced to build from source, and build
/// from source in every other case.
pub fn plan_install(state: &AvmState, key: &Version, target: &InstallTarget, force: bool,
    from_source: bool) -> (r: InstallPlan)
    ensures
        r is AlreadyInstalled <==> (state@.installed.contains(key@) && !force),
        r matches InstallPlan::Proceed(m) ==> ((m is Prebuilt) <==> (target is Version
            && !from_source)),
{
    if state.contains(key) && !force {
        InstallPlan::AlreadyInstalled
    } else {
        match target {
            InstallTarget::Version(_) => {
                if !from_source {
                    InstallPlan::Proceed(InstallMethod::Prebuilt)
                } else {
                    InstallPlan::Proceed(InstallMethod::SourceBuild)
                }
            },
            _ => InstallPlan::Proceed(InstallMethod::SourceBuild),
        }
    }
}

/// A failed prebuilt download falls back to a source build exactly when the
/// artifact is absent upstream (HTTP 404); every other failure is an error.
pub fn download_fallback_to_source(http_status: u16) -> (r: bool)
    ensures
        r == (http_status == 404),
{
    http_status == 404
}

/// The report printed when an install finds its target already present.
pub fn already_installed_message(v: &Version) -> (r: String)
    ensures
        r@ == "anchor-cli "@ + crate::version::version_chars(v@) + " is already installed"@,
{
    let mut m = "anchor-cli ".to_owned();
    let vs = v.to_version_string();
    m.append(vs.as_str());
    m.append(" is already installed");
    m
}

/// What `update` does: install the latest published version when it is
/// missing, then select it.
pub enum UpdateStep {
    InstallThenUse,
    UseOnly,
}

pub fn plan_update(state: &AvmState, latest: &Version) -> (r: UpdateStep)
    ensures
        (r is InstallThenUse) <==> !state@.installed.contains(latest@),
{
    if state.contains(latest) {
        UpdateStep::UseOnly
    } else {
        UpdateStep::InstallThenUse
    }
}

/// What `use` does for a given argument: select the named version, or open
/// the interactive picker when no version was named and stdin is a
/// terminal; without a terminal that is a failure.
pub enum UseAction {
    Select(Version),
    InteractivePick,
}

pub fn plan_use(requested: Option<Version>, stdin_is_tty: bool) -> (r: Result<UseAction, AvmError>)
    ensures
        match (requested, r) {
            (Some(v), Ok(UseAction::Select(w))) => w@ == v@,
            (None, Ok(UseAction::InteractivePick)) => stdin_is_tty,
            (None, Err(e)) => !stdin_is_tty && e is NoVersionSpecified,
            _ => false,
        },
{
    match requested {
        Some(v) => Ok(UseAction::Select(v)),
        None => {
            if stdin_is_tty {
                Ok(UseAction::InteractivePick)
            } else {
                Err(AvmError::NoVersionSpecified)
            }
        },
    }
}

} // verus!
