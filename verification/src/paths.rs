use vstd::prelude::*;
use vstd::string::*;
use crate::version::{Version, VersionView, version_chars};

verus! {

/// The file name under `bin/` for an installed version: `anchor-<version>`.
pub open spec fn binary_name_chars(v: VersionView) -> Seq<char> {
    "anchor-"@ + version_chars(v)
}

/// The file name of the per-target install lock.
pub open spec fn lock_name_chars(v: VersionView) -> Seq<char> {
    binary_name_chars(v) + ".lock"@
}

/// The staging name of a download in flight.
pub open spec fn part_name_chars(v: VersionView) -> Seq<char> {
    binary_name_chars(v) + ".part"@
}

/// The download location of a prebuilt artifact for a released version on a
/// given host: a fixed template over the tool name, the version and the host
/// triple parts.
pub open spec fn prebuilt_url_chars(v: VersionView, arch: Seq<char>, os: Seq<char>) -> Seq<char> {
    "https://github.com/coral-xyz/anchor/releases/download/v"@ + version_chars(v) + "/anchor-"@
        + version_chars(v) + "-"@ + arch + "-"@ + os
}

/// The name of the binary file for `v` in the binary directory.
pub fn binary_file_name(v: &Version) -> (r: String)
    ensures
        r@ == binary_name_chars(v@),
{
    let mut s = "anchor-".to_owned();
    let vs = v.to_version_string();
    s.append(vs.as_str());
    s
}

/// The name of the lock file that serializes installs of `v`.
pub fn lock_file_name(v: &Version) -> (r: String)
    ensures
        r@ == lock_name_chars(v@),
{
    let mut s = binary_file_name(v);
    s.append(".lock");
    s
}

/// The name of the staging file for a download of `v`.
pub fn part_file_name(v: &Version) -> (r: String)
    ensures
        r@ == part_name_chars(v@),
{
    let mut s = binary_file_name(v);
    s.append(".part");
    s
}

/// The URL a prebuilt artifact is fetched from, for the host named by
/// `arch` and `os`.
pub fn prebuilt_url(v: &Version, arch: &str, os: &str) -> (r: String)
    ensures
        r@ == prebuilt_url_chars(v@, arch@, os@),
{
    let mut s = "https://github.com/coral-xyz/anchor/releases/download/v".to_owned();
    let vs = v.to_version_string();
    s.append(vs.as_str());
    s.append("/anchor-");
    s.append(vs.as_str());
    s.append("-");
    s.append(arch);
    s.append("-");
    s.append(os);
    s
}

/// The position of the first `:` in `s`, or -1 when there is none.
pub open spec fn first_colon(s: Seq<char>) -> int
    decreases s.len(),
{
    if s.len() == 0 {
        -1
    } else if s[0] == ':' {
        0
    } else if first_colon(s.drop_first()) < 0 {
        -1
    } else {
        first_colon(s.drop_first()) + 1
    }
}

pub proof fn lemma_first_colon_bound(s: Seq<char>)
    ensures
        -1 <= first_colon(s) < s.len(),
        first_colon(s) >= 0 ==> s[first_colon(s)] == ':',
        forall|i: int| 0 <= i < first_colon(s) ==> s[i] != ':',
        first_colon(s) == -1 ==> forall|i: int| 0 <= i < s.len() ==> s[i] != ':',
    decreases s.len(),
{
    if s.len() > 0 && s[0] != ':' {
        lemma_first_colon_bound(s.drop_first());
        assert forall|i: int| 0 <= i < first_colon(s) implies s[i] != ':' by {
            if i > 0 {
                assert(s.drop_first()[i - 1] != ':');
            }
        }
        if first_colon(s) == -1 {
            assert forall|i: int| 0 <= i < s.len() implies s[i] != ':' by {
                if i > 0 {
                    assert(s.drop_first()[i - 1] != ':');
                }
            }
        }
    }
}

/// The entries of a search-path variable, split at its colons.
pub open spec fn path_entries(s: Seq<char>) -> Seq<Seq<char>>
    decreases s.len(),
    via path_entries_decreases
{
    let d = first_colon(s);
    if d < 0 {
        seq![s]
    } else {
        seq![s.take(d)] + path_entries(s.skip(d + 1))
    }
}

#[via_fn]
proof fn path_entries_decreases(s: Seq<char>) {
    lemma_first_colon_bound(s);
}

fn find_first_colon(s: &str) -> (r: Option<usize>)
    ensures
        match r {
            Some(i) => first_colon(s@) == i as int,
            None => first_colon(s@) == -1,
        },
{
    let len: usize = s.unicode_len();
    let mut i: usize = 0;
    while i < len
        invariant
            i <= len,
            len == s@.len(),
            forall|j: int| 0 <= j < i ==> s@[j] != ':',
        decreases len - i,
    {
        if s.get_char(i) == ':' {
            proof {
                lemma_first_colon_bound(s@);
            }
            return Some(i);
        }
        i = i + 1;
    }
    proof {
        lemma_first_colon_bound(s@);
    }
    None
}

/// Whether the search-path variable already lists the given directory; when
/// it does not, `ensure_paths` prints an informational warning (it never
/// edits the user's shell configuration).
pub fn path_has_entry(path_var: &str, dir: &str) -> (r: bool)
    ensures
        r == path_entries(path_var@).contains(dir@),
    decreases path_var@.len(),
{
    match find_first_colon(path_var) {
        None => {
            let hit = crate::version::str_eq(path_var, dir);
            proof {
                assert(path_entries(path_var@)[0] == path_var@);
                if !hit && path_entries(path_var@).contains(dir@) {
                    let k = choose|k: int|
                        0 <= k < path_entries(path_var@).len() && path_entries(path_var@)[k]
                            == dir@;
                }
            }
            hit
        },
        Some(d) => {
            let len: usize = path_var.unicode_len();
            proof {
                lemma_first_colon_bound(path_var@);
            }
            let head = path_var.substring_char(0, d);
            if crate::version::str_eq(head, dir) {
                proof {
                    assert(path_var@.subrange(0, d as int) =~= path_var@.take(d as int));
                    assert(path_entries(path_var@)[0] == dir@);
                }
                return true;
            }
            let tail = path_var.substring_char(d + 1, len);
            let rest = path_has_entry(tail, dir);
            proof {
                assert(path_var@.subrange(0, d as int) =~= path_var@.take(d as int));
                assert(path_var@.subrange(d as int + 1, path_var@.len() as int) =~= path_var@.skip(
                    d as int + 1,
                ));
                let es = path_entries(path_var@);
                let ts = path_entries(path_var@.skip(d as int + 1));
                assert(es =~= seq![path_var@.take(d as int)] + ts);
                if rest {
                    let k = choose|k: int| 0 <= k < ts.len() && ts[k] == dir@;
                    assert(es[k + 1] == dir@);
                } else {
                    if es.contains(dir@) {
                        let k = choose|k: int| 0 <= k < es.len() && es[k] == dir@;
                        assert(k != 0);
                        assert(ts[k - 1] == dir@);
                    }
                }
            }
            rest
        },
    }
}

/// Strips the tool prefix from a file name in the binary directory: for
/// `anchor-<rest>` returns `<rest>`, for anything else returns `None`.
pub fn version_part_of_file_name(name: &str) -> (r: Option<String>)
    ensures
        match r {
            Some(rest) => name@.len() >= "anchor-"@.len() && name@.take("anchor-"@.len() as int)
                == "anchor-"@ && rest@ == name@.skip("anchor-"@.len() as int),
            None => !(name@.len() >= "anchor-"@.len() && name@.take("anchor-"@.len() as int)
                == "anchor-"@),
        },
{
    proof {
        reveal_strlit("anchor-");
    }
    let plen: usize = 7;
    let len: usize = name.unicode_len();
    if len < plen {
        proof {
            assert(name@.len() < "anchor-"@.len());
        }
        return None;
    }
    let mut i: usize = 0;
    while i < plen
        invariant
            i <= plen,
            plen == "anchor-"@.len(),
            len == name@.len(),
            len >= plen,
            forall|j: int| 0 <= j < i ==> name@[j] == "anchor-"@[j],
        decreases plen - i,
    {
        let c = name.get_char(i);
        let p = "anchor-".get_char(i);
        if c != p {
            proof {
                assert(name@.take(plen as int)[i as int] == name@[i as int]);
            }
            return None;
        }
        i = i + 1;
    }
    let rest = name.substring_char(plen, len).to_owned();
    proof {
        assert(name@.take(plen as int) =~= "anchor-"@);
        assert(rest@ =~= name@.skip(plen as int));
    }
    Some(rest)
}

} // verus!
