use vstd::prelude::*;
use vstd::string::*;
use crate::error::AvmError;
use crate::version::{Version, VersionView, is_digit, str_eq};

verus! {

/// What `semver::Version::parse` returns on a given text: `None` when the
/// text is not a valid semantic version, otherwise its numeric core and its
/// pre-release and build segments. The full grammar lives in the semver
/// crate; nothing else is assumed of it here.
pub uninterp spec fn semver_of(s: Seq<char>) -> Option<VersionView>;

/// Relies on semver::Version::parse for strict SemVer parsing; the result is
/// a function of the text alone.
#[verifier::external_body]
fn semver_parse(s: &str) -> (r: Option<Version>)
    ensures
        match r {
            Some(v) => semver_of(s@) == Some(v@),
            None => semver_of(s@) is None,
        },
{
    match semver::Version::parse(s) {
        Ok(v) => Some(Version {
            major: v.major,
            minor: v.minor,
            patch: v.patch,
            pre: v.pre.as_str().to_string(),
            build: v.build.as_str().to_string(),
        }),
        Err(_) => None,
    }
}

/// Parses a version text, with no special treatment of any literal.
pub(crate) fn parse_version_text(s: &str) -> (r: Option<Version>)
    ensures
        match r {
            Some(v) => semver_of(s@) == Some(v@),
            None => semver_of(s@) is None,
        },
{
    semver_parse(s)
}

/// What an install invocation names, after parsing.
#[derive(Debug)]
pub enum InstallTarget {
    /// A published version.
    Version(Version),
    /// A full commit identifier on the upstream source forge.
    Commit(String),
    /// A local source tree.
    Path(String),
}

impl Clone for InstallTarget {
    fn clone(&self) -> (r: Self)
        ensures
            match (self, r) {
                (InstallTarget::Version(a), InstallTarget::Version(b)) => a@ == b@,
                (InstallTarget::Commit(a), InstallTarget::Commit(b)) => a@ == b@,
                (InstallTarget::Path(a), InstallTarget::Path(b)) => a@ == b@,
                _ => false,
            },
    {
        match self {
            InstallTarget::Version(v) => InstallTarget::Version(v.clone()),
            InstallTarget::Commit(c) => InstallTarget::Commit(c.clone()),
            InstallTarget::Path(p) => InstallTarget::Path(p.clone()),
        }
    }
}

/// The outcome of parsing a version argument: either an exact version, or
/// the `latest` literal, which the caller resolves against the registry.
pub enum VersionRequest {
    Latest,
    Exact(Version),
}

/// The outcome of parsing an install argument. Lookups that need the
/// registry (the `latest` literal, a commit prefix) are handed back to the
/// caller as requests.
pub enum TargetRequest {
    Ready(InstallTarget),
    NeedLatest,
    NeedCommitLookup(String),
}

pub open spec fn is_hex_digit(c: char) -> bool {
    is_digit(c) || ('a' <= c && c <= 'f') || ('A' <= c && c <= 'F')
}

/// An acceptable commit prefix: 7 to 40 hexadecimal characters. Shorter
/// prefixes are rejected as a usage error rather than resolved.
pub open spec fn is_commit_prefix(s: Seq<char>) -> bool {
    7 <= s.len() <= 40 && forall|i: int| 0 <= i < s.len() ==> is_hex_digit(#[trigger] s[i])
}

fn check_commit_prefix(s: &str) -> (r: bool)
    ensures
        r == is_commit_prefix(s@),
{
    let len: usize = s.unicode_len();
    if len < 7 || len > 40 {
        return false;
    }
    let mut i: usize = 0;
    while i < len
        invariant
            i <= len,
            len == s@.len(),
            7 <= len <= 40,
            forall|j: int| 0 <= j < i ==> is_hex_digit(#[trigger] s@[j]),
        decreases len - i,
    {
        let c = s.get_char(i);
        let ok = ('0' <= c && c <= '9') || ('a' <= c && c <= 'f') || ('A' <= c && c <= 'F');
        if !ok {
            return false;
        }
        i = i + 1;
    }
    true
}

/// Parses a version argument. The literal `latest` stands for the highest
/// published version and is resolved by the caller against the registry;
/// anything else must be a valid semantic version.
pub fn parse_version(version: &str) -> (r: Result<VersionRequest, AvmError>)
    ensures
        match r {
            Ok(VersionRequest::Latest) => version@ == "latest"@,
            Ok(VersionRequest::Exact(v)) => version@ != "latest"@ && semver_of(version@) == Some(
                v@,
            ),
            Err(e) => version@ != "latest"@ && semver_of(version@) is None && e is Usage,
        },
{
    if str_eq(version, "latest") {
        return Ok(VersionRequest::Latest);
    }
    match semver_parse(version) {
        Some(v) => Ok(VersionRequest::Exact(v)),
        None => {
            let mut m = "not a valid version: ".to_owned();
            m.append(version);
            Err(AvmError::Usage(m))
        },
    }
}

/// Classifies an install argument.
///
/// The `latest` literal becomes a request for the highest published version.
/// A valid semantic version with an empty pre-release segment names that
/// version; one with a non-empty pre-release segment, such as
/// `0.28.0-<sha>`, names the commit held in the segment. Any other text must
/// be a commit prefix of 7 to 40 hexadecimal characters, handed back for
/// resolution against the registry; the rest is a usage error.
pub fn parse_install_target(version_or_commit: &str) -> (r: Result<TargetRequest, AvmError>)
    ensures
        match r {
            Ok(TargetRequest::NeedLatest) => version_or_commit@ == "latest"@,
            Ok(TargetRequest::Ready(t)) => version_or_commit@ != "latest"@ && match (
                semver_of(version_or_commit@),
                t,
            ) {
                (Some(v), InstallTarget::Version(w)) => v.pre.len() == 0 && w@ == v,
                (Some(v), InstallTarget::Commit(c)) => v.pre.len() > 0 && c@ == v.pre,
                _ => false,
            },
            Ok(TargetRequest::NeedCommitLookup(p)) => version_or_commit@ != "latest"@ && semver_of(
                version_or_commit@,
            ) is None && is_commit_prefix(version_or_commit@) && p@ == version_or_commit@,
            Err(e) => version_or_commit@ != "latest"@ && semver_of(version_or_commit@) is None
                && !is_commit_prefix(version_or_commit@) && e is Usage,
        },
{
    if str_eq(version_or_commit, "latest") {
        return Ok(TargetRequest::NeedLatest);
    }
    match semver_parse(version_or_commit) {
        Some(v) => {
            if v.pre.as_str().is_empty() {
                Ok(TargetRequest::Ready(InstallTarget::Version(v)))
            } else {
                let Version { pre, .. } = v;
                Ok(TargetRequest::Ready(InstallTarget::Commit(pre)))
            }
        },
        None => {
            if check_commit_prefix(version_or_commit) {
                Ok(TargetRequest::NeedCommitLookup(version_or_commit.to_owned()))
            } else {
                let mut m = "not a valid version or commit: ".to_owned();
                m.append(version_or_commit);
                Err(AvmError::Usage(m))
            }
        },
    }
}

/// The install target a fully resolved version names: the version itself
/// when its pre-release segment is empty, else the commit the segment holds.
pub fn target_for_version(v: Version) -> (t: InstallTarget)
    ensures
        match t {
            InstallTarget::Version(w) => v@.pre.len() == 0 && w@ == v@,
            InstallTarget::Commit(c) => v@.pre.len() > 0 && c@ == v@.pre,
            InstallTarget::Path(_) => false,
        },
{
    if v.pre.as_str().is_empty() {
        InstallTarget::Version(v)
    } else {
        let Version { pre, .. } = v;
        InstallTarget::Commit(pre)
    }
}

} // verus!
