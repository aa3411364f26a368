use vstd::prelude::*;
use vstd::string::*;
use vstd::seq_lib::*;
use crate::error::AvmError;
use crate::version::{
    Version, VersionView, version_cmp, lemma_version_cmp_antisym, lemma_version_cmp_trans,
};
use crate::parse::semver_of;
use crate::parse::parse_version_text;

verus! {

/// The models of a sequence of versions.
pub open spec fn views_of(s: Seq<Version>) -> Seq<VersionView> {
    s.map_values(|v: Version| v@)
}

pub open spec fn sorted_ascending(s: Seq<VersionView>) -> bool {
    forall|i: int, j: int| 0 <= i < j < s.len() ==> version_cmp(#[trigger] s[i], #[trigger] s[j])
        <= 0
}

pub open spec fn sorted_descending(s: Seq<VersionView>) -> bool {
    forall|i: int, j: int| 0 <= i < j < s.len() ==> version_cmp(#[trigger] s[i], #[trigger] s[j])
        >= 0
}

proof fn lemma_views_of_insert(s: Seq<Version>, i: int, v: Version)
    requires
        0 <= i <= s.len(),
    ensures
        views_of(s.insert(i, v)) =~= views_of(s).insert(i, v@),
{
}

pub proof fn lemma_views_of_push(s: Seq<Version>, v: Version)
    ensures
        views_of(s.push(v)) =~= views_of(s).push(v@),
{
}

pub proof fn lemma_views_of_remove(s: Seq<Version>, i: int)
    requires
        0 <= i < s.len(),
    ensures
        views_of(s.remove(i)) =~= views_of(s).remove(i),
{
}

fn insert_position(out: &Vec<Version>, x: &Version) -> (j: usize)
    ensures
        j <= out@.len(),
        forall|k: int| 0 <= k < j ==> version_cmp(views_of(out@)[k], x@) <= 0,
        j < out@.len() ==> version_cmp(x@, views_of(out@)[j as int]) < 0,
{
    let mut j: usize = 0;
    while j < out.len()
        invariant
            j <= out@.len(),
            forall|k: int| 0 <= k < j ==> version_cmp(views_of(out@)[k], x@) <= 0,
        decreases out@.len() - j,
    {
        if out[j].compare(x) > 0 {
            proof {
                lemma_version_cmp_antisym(x@, out@[j as int]@);
            }
            return j;
        }
        j = j + 1;
    }
    j
}

/// Sorts versions by semver precedence, ascending. The result holds exactly
/// the given versions.
pub fn sort_versions_ascending(input: &Vec<Version>) -> (r: Vec<Version>)
    ensures
        views_of(r@).to_multiset() == views_of(input@).to_multiset(),
        sorted_ascending(views_of(r@)),
        r@.len() == input@.len(),
{
    broadcast use vstd::seq_lib::group_to_multiset_ensures;

    let mut out: Vec<Version> = Vec::new();
    let mut i: usize = 0;
    proof {
        assert(input@.take(0) =~= Seq::<Version>::empty());
        assert(views_of(out@) =~= Seq::<VersionView>::empty());
        assert(views_of(input@.take(0)) =~= Seq::<VersionView>::empty());
    }
    while i < input.len()
        invariant
            i <= input@.len(),
            out@.len() == i,
            views_of(out@).to_multiset() == views_of(input@.take(i as int)).to_multiset(),
            sorted_ascending(views_of(out@)),
        decreases input@.len() - i,
    {
        let x = input[i].clone();
        let j = insert_position(&out, &x);
        proof {
            let vs = views_of(out@);
            let vs2 = vs.insert(j as int, x@);
            assert forall|i1: int, j1: int| 0 <= i1 < j1 < vs2.len() implies version_cmp(
                vs2[i1],
                vs2[j1],
            ) <= 0 by {
                if i1 < j && j1 < j {
                } else if i1 < j && j1 == j {
                } else if i1 < j && j1 > j {
                } else if i1 == j {
                    if j1 > j + 1 {
                        lemma_version_cmp_trans(x@, vs[j as int], vs[j1 - 1]);
                    }
                } else {
                }
            }
            lemma_views_of_insert(out@, j as int, x);
            assert(input@.take(i as int + 1) =~= input@.take(i as int).push(input@[i as int]));
            lemma_views_of_push(input@.take(i as int), input@[i as int]);
            to_multiset_insert(views_of(out@), j as int, x@);
            assert(views_of(out@).insert(j as int, x@).to_multiset() == views_of(
                out@,
            ).to_multiset().insert(x@));
            assert(views_of(input@.take(i as int + 1)) == views_of(input@.take(i as int)).push(
                x@,
            ));
            to_multiset_build(views_of(input@.take(i as int)), x@);
        }
        out.insert(j, x);
        i = i + 1;
    }
    proof {
        assert(input@.take(i as int) =~= input@);
    }
    out
}

/// Reverses a list of versions.
fn reverse_versions(input: &Vec<Version>) -> (r: Vec<Version>)
    ensures
        views_of(r@) =~= views_of(input@).reverse(),
{
    let len: usize = input.len();
    let mut out: Vec<Version> = Vec::new();
    let mut i: usize = 0;
    while i < len
        invariant
            i <= len,
            len == input@.len(),
            out@.len() == i,
            forall|k: int| 0 <= k < i ==> views_of(out@)[k] == views_of(input@)[len - 1 - k],
        decreases len - i,
    {
        let x = input[len - 1 - i].clone();
        proof {
            lemma_views_of_push(out@, x);
        }
        out.push(x);
        i = i + 1;
    }
    proof {
        assert(views_of(out@) =~= views_of(input@).reverse());
    }
    out
}

/// The versions named by a list of release entries, in order: each entry
/// whose name parses as a semantic version contributes that version.
pub open spec fn parsed_versions(names: Seq<Seq<char>>) -> Seq<VersionView>
    decreases names.len(),
{
    if names.len() == 0 {
        Seq::<VersionView>::empty()
    } else {
        let rest = parsed_versions(names.drop_first());
        match semver_of(names[0]) {
            Some(v) => seq![v] + rest,
            None => rest,
        }
    }
}

proof fn lemma_parsed_versions_append(a: Seq<Seq<char>>, b: Seq<Seq<char>>)
    ensures
        parsed_versions(a + b) =~= parsed_versions(a) + parsed_versions(b),
    decreases a.len(),
{
    if a.len() == 0 {
        assert(a + b =~= b);
        assert(parsed_versions(a) =~= Seq::<VersionView>::empty());
    } else {
        lemma_parsed_versions_append(a.drop_first(), b);
        assert((a + b).drop_first() =~= a.drop_first() + b);
        assert((a + b)[0] == a[0]);
    }
}

/// The published versions behind a list of release names from the registry:
/// the names that parse as semantic versions, sorted by precedence,
/// descending.
pub fn published_from_names(names: &Vec<String>) -> (r: Vec<Version>)
    ensures
        views_of(r@).to_multiset() == parsed_versions(names.deep_view()).to_multiset(),
        sorted_descending(views_of(r@)),
{
    broadcast use vstd::seq_lib::group_to_multiset_ensures;

    let mut collected: Vec<Version> = Vec::new();
    let mut i: usize = 0;
    proof {
        assert(names.deep_view().take(0) =~= Seq::<Seq<char>>::empty());
        assert(views_of(collected@) =~= Seq::<VersionView>::empty());
    }
    while i < names.len()
        invariant
            i <= names@.len(),
            names.deep_view().len() == names@.len(),
            forall|k: int| 0 <= k < names@.len() ==> names.deep_view()[k] == names@[k]@,
            views_of(collected@) =~= parsed_versions(names.deep_view().take(i as int)),
        decreases names@.len() - i,
    {
        let ghost dv = names.deep_view();
        proof {
            reveal_with_fuel(parsed_versions, 3);
            assert(dv.take(i as int + 1) =~= dv.take(i as int) + seq![dv[i as int]]);
            lemma_parsed_versions_append(dv.take(i as int), seq![dv[i as int]]);
            assert(seq![dv[i as int]].drop_first() =~= Seq::<Seq<char>>::empty());
        }
        match parse_version_text(&names[i]) {
            Some(v) => {
                proof {
                    reveal_with_fuel(parsed_versions, 3);
                    assert(semver_of(dv[i as int]) == Some(v@));
                    assert(parsed_versions(seq![dv[i as int]]) =~= seq![v@]);
                    lemma_views_of_push(collected@, v);
                }
                collected.push(v);
                proof {
                    assert(views_of(collected@) =~= parsed_versions(dv.take(i as int + 1)));
                }
            },
            None => {
                proof {
                    reveal_with_fuel(parsed_versions, 3);
                    assert(semver_of(dv[i as int]) is None);
                    assert(parsed_versions(seq![dv[i as int]]) =~= Seq::<VersionView>::empty());
                    assert(views_of(collected@) =~= parsed_versions(dv.take(i as int + 1)));
                }
            },
        }
        i = i + 1;
    }
    proof {
        assert(names.deep_view().take(i as int) =~= names.deep_view());
    }
    let ascending = sort_versions_ascending(&collected);
    let descending = reverse_versions(&ascending);
    proof {
        views_of(ascending@).lemma_reverse_to_multiset();
        assert forall|i1: int, j1: int|
            0 <= i1 < j1 < views_of(descending@).len() implies version_cmp(
            #[trigger] views_of(descending@)[i1],
            #[trigger] views_of(descending@)[j1],
        ) >= 0 by {
            let n = views_of(ascending@).len();
            assert(views_of(descending@)[i1] == views_of(ascending@)[n - 1 - i1]);
            assert(views_of(descending@)[j1] == views_of(ascending@)[n - 1 - j1]);
            assert(version_cmp(views_of(ascending@)[n - 1 - j1], views_of(ascending@)[n - 1 - i1])
                <= 0);
            lemma_version_cmp_antisym(
                views_of(ascending@)[n - 1 - j1],
                views_of(ascending@)[n - 1 - i1],
            );
        }
    }
    descending
}

/// The highest published version: the registry's listing is empty exactly
/// when this fails.
pub fn get_latest_version(published: &Vec<Version>) -> (r: Result<Version, AvmError>)
    ensures
        match r {
            Ok(m) => published@.len() > 0 && views_of(published@).contains(m@) && forall|k: int|
                0 <= k < published@.len() ==> version_cmp(views_of(published@)[k], m@) <= 0,
            Err(e) => published@.len() == 0 && e is EmptyRegistry,
        },
{
    if published.len() == 0 {
        return Err(AvmError::EmptyRegistry);
    }
    let mut best = published[0].clone();
    let mut i: usize = 1;
    proof {
        assert(views_of(published@)[0] == best@);
        assert(views_of(published@).contains(best@));
        crate::version::lemma_version_cmp_refl(best@);
        assert forall|k: int| 0 <= k < 1 implies version_cmp(views_of(published@)[k], best@)
            <= 0 by {
            assert(views_of(published@)[0] == best@);
        }
    }
    while i < published.len()
        invariant
            1 <= i <= published@.len(),
            views_of(published@).contains(best@),
            forall|k: int| 0 <= k < i ==> version_cmp(views_of(published@)[k], best@) <= 0,
        decreases published@.len() - i,
    {
        let c = published[i].compare(&best);
        proof {
            assert(views_of(published@)[i as int] == published@[i as int]@);
        }
        if c > 0 {
            proof {
                lemma_version_cmp_antisym(published@[i as int]@, best@);
                assert forall|k: int| 0 <= k < i + 1 implies version_cmp(
                    views_of(published@)[k],
                    published@[i as int]@,
                ) <= 0 by {
                    assert(views_of(published@)[k] == published@[k]@);
                    if k < i {
                        lemma_version_cmp_trans(
                            views_of(published@)[k],
                            best@,
                            published@[i as int]@,
                        );
                    } else {
                        lemma_version_cmp_antisym(published@[i as int]@, best@);
                        crate::version::lemma_version_cmp_refl(published@[i as int]@);
                    }
                }
                assert(views_of(published@).contains(published@[i as int]@));
            }
            best = published[i].clone();
        }
        i = i + 1;
    }
    Ok(best)
}

/// Whether a failed registry request is tried again: at most three tries in
/// all, and only for transient failures — no response at all (connection
/// trouble), a server-side error, or throttling.
pub fn should_retry(status: Option<u16>, attempts_made: u32) -> (r: bool)
    ensures
        r == (attempts_made < 3 && match status {
            None => true,
            Some(s) => (500 <= s < 600) || s == 429,
        }),
{
    if attempts_made >= 3 {
        return false;
    }
    match status {
        None => true,
        Some(s) => (500 <= s && s < 600) || s == 429,
    }
}

/// The backoff before the next try, doubling each time.
pub fn retry_delay_ms(attempts_made: u32) -> (r: u64)
    ensures
        r == (if attempts_made == 0 {
            500int
        } else if attempts_made == 1 {
            1000int
        } else {
            2000int
        }),
{
    if attempts_made == 0 {
        500
    } else if attempts_made == 1 {
        1000
    } else {
        2000
    }
}

/// `p` is a prefix of `s`.
pub open spec fn starts_with(s: Seq<char>, p: Seq<char>) -> bool {
    p.len() <= s.len() && s.take(p.len() as int) == p
}

fn str_starts_with(s: &str, p: &str) -> (r: bool)
    ensures
        r == starts_with(s@, p@),
{
    let plen: usize = p.unicode_len();
    let slen: usize = s.unicode_len();
    if plen > slen {
        return false;
    }
    let mut i: usize = 0;
    while i < plen
        invariant
            i <= plen,
            plen == p@.len(),
            slen == s@.len(),
            plen <= slen,
            forall|j: int| 0 <= j < i ==> s@[j] == p@[j],
        decreases plen - i,
    {
        if s.get_char(i) != p.get_char(i) {
            proof {
                assert(s@.take(plen as int)[i as int] == s@[i as int]);
            }
            return false;
        }
        i = i + 1;
    }
    proof {
        assert(s@.take(plen as int) =~= p@);
    }
    true
}

/// The candidates that begin with the given prefix.
pub open spec fn matching_commits(candidates: Seq<Seq<char>>, prefix: Seq<char>) -> Seq<Seq<char>> {
    candidates.filter(|c: Seq<char>| starts_with(c, prefix))
}

proof fn lemma_filter_mono(s: Seq<Seq<char>>, p: spec_fn(Seq<char>) -> bool, q: spec_fn(
    Seq<char>,
) -> bool)
    requires
        forall|x: Seq<char>| #[trigger] q(x) ==> p(x),
    ensures
        s.filter(q).len() <= s.filter(p).len(),
    decreases s.len(),
{
    reveal(Seq::filter);
    if s.len() > 0 {
        lemma_filter_mono(s.drop_last(), p, q);
    }
}

proof fn lemma_filter_elem_in(s: Seq<Seq<char>>, p: spec_fn(Seq<char>) -> bool, i: int)
    requires
        0 <= i < s.filter(p).len(),
    ensures
        s.contains(s.filter(p)[i]),
    decreases s.len(),
{
    reveal(Seq::filter);
    if s.len() > 0 {
        let sub = s.drop_last().filter(p);
        if i < sub.len() {
            lemma_filter_elem_in(s.drop_last(), p, i);
            let k = choose|k: int| 0 <= k < s.drop_last().len() && s.drop_last()[k] == sub[i];
            assert(s[k] == sub[i]);
            assert(s.filter(p)[i] == sub[i]);
        } else {
            assert(s.filter(p)[i] == s.last());
            assert(s[s.len() - 1] == s.last());
        }
    }
}

/// Resolution round trip: when a prefix resolves to a single full commit
/// identifier, resolving that identifier itself gives the same identifier
/// back (the candidates are the registry's full 40-character identifiers).
pub proof fn lemma_resolve_commit_roundtrip(
    candidates: Seq<Seq<char>>,
    prefix: Seq<char>,
    sha: Seq<char>,
)
    requires
        forall|i: int| 0 <= i < candidates.len() ==> #[trigger] candidates[i].len() == 40,
        matching_commits(candidates, prefix).len() == 1,
        sha == matching_commits(candidates, prefix)[0],
    ensures
        matching_commits(candidates, sha).len() == 1,
        matching_commits(candidates, sha)[0] == sha,
{
    let p = |c: Seq<char>| starts_with(c, prefix);
    let q = |c: Seq<char>| starts_with(c, sha);
    lemma_filter_elem_in(candidates, p, 0);
    let k = choose|k: int| 0 <= k < candidates.len() && candidates[k] == sha;
    assert(sha.len() == 40);
    candidates.lemma_filter_pred(p, 0);
    assert(starts_with(sha, prefix));
    assert forall|x: Seq<char>| #[trigger] q(x) implies p(x) by {
        assert(x.take(sha.len() as int) == sha);
        assert(x.take(prefix.len() as int) =~= x.take(sha.len() as int).take(
            prefix.len() as int,
        ));
        assert(x.take(prefix.len() as int) =~= sha.take(prefix.len() as int));
    }
    lemma_filter_mono(candidates, p, q);
    assert(q(candidates[k])) by {
        assert(sha.take(sha.len() as int) =~= sha);
    }
    candidates.lemma_filter_contains(q, k);
    assert(matching_commits(candidates, sha).contains(sha));
    assert(matching_commits(candidates, sha).len() >= 1);
    assert(matching_commits(candidates, sha).len() == 1);
    candidates.lemma_filter_pred(q, 0);
    lemma_filter_elem_in(candidates, q, 0);
    let m0 = matching_commits(candidates, sha)[0];
    let k2 = choose|k2: int| 0 <= k2 < candidates.len() && candidates[k2] == m0;
    assert(m0.len() == 40);
    assert(m0.take(sha.len() as int) == sha);
    assert(m0.take(sha.len() as int) =~= m0);
}

/// Resolves a commit prefix against the objects the registry knows: exactly
/// one candidate may begin with the prefix; none is an unknown commit, more
/// than one is ambiguous.
pub fn resolve_commit_from(prefix: &str, candidates: &Vec<String>) -> (r: Result<String, AvmError>)
    ensures
        match r {
            Ok(c) => matching_commits(candidates.deep_view(), prefix@).len() == 1 && c@
                == matching_commits(candidates.deep_view(), prefix@)[0],
            Err(e) => match e {
                AvmError::UnknownCommit(p) => matching_commits(candidates.deep_view(), prefix@).len()
                    == 0 && p@ == prefix@,
                AvmError::AmbiguousCommit(p) => matching_commits(
                    candidates.deep_view(),
                    prefix@,
                ).len() > 1 && p@ == prefix@,
                _ => false,
            },
        },
{
    let ghost pred = |c: Seq<char>| starts_with(c, prefix@);
    let mut found: Option<String> = None;
    let mut count: usize = 0;
    let mut i: usize = 0;
    proof {
        assert(candidates.deep_view().take(0) =~= Seq::<Seq<char>>::empty());
        reveal_with_fuel(Seq::<_>::filter, 2);
        assert(candidates.deep_view().take(0).filter(pred) =~= Seq::<Seq<char>>::empty());
    }
    while i < candidates.len()
        invariant
            i <= candidates@.len(),
            candidates.deep_view().len() == candidates@.len(),
            forall|k: int| 0 <= k < candidates@.len() ==> candidates.deep_view()[k]
                == candidates@[k]@,
            count <= i,
            count as int == candidates.deep_view().take(i as int).filter(pred).len(),
            pred == (|c: Seq<char>| starts_with(c, prefix@)),
            count > 0 ==> (found matches Some(f) && f@ == candidates.deep_view().take(
                i as int,
            ).filter(pred)[0]),
            count == 0 ==> found is None,
        decreases candidates@.len() - i,
    {
        let ghost dv = candidates.deep_view();
        let ghost prev = dv.take(i as int).filter(pred);
        let hit = str_starts_with(candidates[i].as_str(), prefix);
        proof {
            assert(dv.take(i as int + 1) =~= dv.take(i as int).push(dv[i as int]));
            reveal_with_fuel(Seq::<_>::filter, 2);
            assert(dv.take(i as int).push(dv[i as int]).drop_last() =~= dv.take(i as int));
            assert(dv.take(i as int + 1).filter(pred) =~= (if pred(dv[i as int]) {
                prev.push(dv[i as int])
            } else {
                prev
            }));
        }
        if hit {
            if count == 0 {
                found = Some(candidates[i].clone());
            }
            count = count + 1;
        }
        i = i + 1;
    }
    proof {
        assert(candidates.deep_view().take(i as int) =~= candidates.deep_view());
    }
    if count == 0 {
        Err(AvmError::UnknownCommit(prefix.to_owned()))
    } else if count > 1 {
        Err(AvmError::AmbiguousCommit(prefix.to_owned()))
    } else {
        match found {
            Some(c) => Ok(c),
            None => Err(AvmError::UnknownCommit(prefix.to_owned())),
        }
    }
}

} // verus!
