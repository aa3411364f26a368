use vstd::prelude::*;
use vstd::string::*;
use vstd::seq_lib::*;
use crate::error::AvmError;
use crate::version::{Version, VersionView, version_chars};
use crate::registry::{views_of, sorted_ascending, sort_versions_ascending};

verus! {

/// The manager's on-disk state, as values: which versions have a binary in
/// the binary directory, and which one the current-selection file names.
/// The surrounding program scans the directory and reads the file to build
/// this, and performs the filesystem changes the operations here decide.
pub struct AvmState {
    pub installed: Vec<Version>,
    pub current: Option<Version>,
}

/// The mathematical model of the manager's state.
pub ghost struct AvmStateView {
    pub installed: Seq<VersionView>,
    pub current: Option<VersionView>,
}

pub open spec fn opt_view(o: Option<Version>) -> Option<VersionView> {
    match o {
        Some(v) => Some(v@),
        None => None,
    }
}

impl View for AvmState {
    type V = AvmStateView;

    open spec fn view(&self) -> AvmStateView {
        AvmStateView { installed: views_of(self.installed@), current: opt_view(self.current) }
    }
}

impl AvmStateView {
    /// State invariant: the selection, when present, names an installed
    /// version, and no version is listed twice.
    pub open spec fn wf(self) -> bool {
        &&& match self.current {
            Some(c) => self.installed.contains(c),
            None => true,
        }
        &&& forall|i: int, j: int|
            0 <= i < j < self.installed.len() ==> self.installed[i] != self.installed[j]
    }
}

/// What a successful install of canonical key `v` leaves behind: the key is
/// on disk (once), and it becomes the selection.
pub open spec fn install_effect(s: AvmStateView, v: VersionView) -> AvmStateView {
    AvmStateView {
        installed: if s.installed.contains(v) {
            s.installed
        } else {
            s.installed.push(v)
        },
        current: Some(v),
    }
}

/// When an uninstall is allowed: the version is on disk and is not the
/// current selection.
pub open spec fn uninstall_allowed(s: AvmStateView, v: VersionView) -> bool {
    s.installed.contains(v) && s.current != Some(v)
}

impl AvmState {
    /// A clean home: nothing installed, nothing selected.
    pub fn empty() -> (r: AvmState)
        ensures
            r@.installed =~= Seq::<VersionView>::empty(),
            r@.current is None,
            r@.wf(),
    {
        let r = AvmState { installed: Vec::new(), current: None };
        proof {
            assert(r@.installed =~= Seq::<VersionView>::empty());
        }
        r
    }

    /// Whether `v` is installed.
    pub fn contains(&self, v: &Version) -> (r: bool)
        ensures
            r == self@.installed.contains(v@),
    {
        let mut i: usize = 0;
        while i < self.installed.len()
            invariant
                i <= self.installed@.len(),
                forall|k: int| 0 <= k < i ==> views_of(self.installed@)[k] != v@,
            decreases self.installed@.len() - i,
        {
            if self.installed[i].same(v) {
                proof {
                    assert(views_of(self.installed@)[i as int] == v@);
                }
                return true;
            }
            i = i + 1;
        }
        proof {
            if self@.installed.contains(v@) {
                let k = choose|k: int|
                    0 <= k < self@.installed.len() && self@.installed[k] == v@;
                assert(views_of(self.installed@)[k] != v@);
            }
        }
        false
    }

    /// The current selection.
    pub fn current(&self) -> (r: Option<Version>)
        ensures
            opt_view(r) == self@.current,
    {
        match &self.current {
            Some(c) => Some(c.clone()),
            None => None,
        }
    }

    /// Records a finished install of canonical key `v`: the binary is now on
    /// disk under `v`'s name, and the selection moves to `v`.
    pub fn record_install(&mut self, v: Version)
        ensures
            final (self)@ == install_effect(old(self)@, v@),
            old(self)@.wf() ==> final (self)@.wf(),
    {
        let had = self.contains(&v);
        if !had {
            let w = v.clone();
            proof {
                crate::registry::lemma_views_of_push(self.installed@, w);
            }
            self.installed.push(w);
        }
        self.current = Some(v);
        proof {
            let s = old(self)@;
            assert(self@.installed =~= install_effect(s, v@).installed);
            assert(self@ == install_effect(s, v@));
            if !s.installed.contains(v@) {
                assert(s.installed.push(v@)[s.installed.len() as int] == v@);
                assert(self@.installed.contains(v@));
            } else {
                assert(self@.installed.contains(v@));
            }
            if s.wf() && !s.installed.contains(v@) {
                assert forall|i1: int, j1: int|
                    0 <= i1 < j1 < self@.installed.len() implies self@.installed[i1]
                    != self@.installed[j1] by {
                    if j1 < s.installed.len() {
                    } else {
                        assert(self@.installed[j1] == v@);
                        assert(self@.installed[i1] == s.installed[i1]);
                        if s.installed[i1] == v@ {
                            assert(s.installed.contains(v@));
                        }
                    }
                }
            }
        }
    }

    /// Selects an installed version; selecting one that is not installed
    /// fails and changes nothing.
    pub fn set_current(&mut self, v: &Version) -> (r: Result<(), AvmError>)
        ensures
            match r {
                Ok(()) => old(self)@.installed.contains(v@) && final (self)@
                    == (AvmStateView { installed: old(self)@.installed, current: Some(v@) }),
                Err(e) => !old(self)@.installed.contains(v@) && final (self)@ == old(self)@ && (
                e matches AvmError::NotInstalled(w) && w@ == v@),
            },
            old(self)@.wf() ==> final (self)@.wf(),
    {
        if self.contains(v) {
            self.current = Some(v.clone());
            Ok(())
        } else {
            Err(AvmError::NotInstalled(v.clone()))
        }
    }

    /// Removes an installed version. Removing the currently selected
    /// version, or one that is not installed, fails and changes nothing.
    #[verifier::loop_isolation(false)]
    pub fn uninstall(&mut self, v: &Version) -> (r: Result<(), AvmError>)
        requires
            old(self)@.wf(),
        ensures
            match r {
                Ok(()) => uninstall_allowed(old(self)@, v@) && final (self)@.current == old(
                    self,
                )@.current && (forall|x: VersionView|
                    final (self)@.installed.contains(x) <==> (old(self)@.installed.contains(x) && x
                        != v@)),
                Err(e) => !uninstall_allowed(old(self)@, v@) && final (self)@ == old(self)@ && (
                match e {
                    AvmError::Usage(_) => old(self)@.current == Some(v@),
                    AvmError::NotInstalled(w) => w@ == v@ && !old(self)@.installed.contains(v@),
                    _ => false,
                }),
            },
            final (self)@.wf(),
    {
        let is_current = match &self.current {
            Some(c) => c.same(v),
            None => false,
        };
        if is_current {
            return Err(
                AvmError::Usage(
                    "cannot uninstall the currently selected version; select another first"
                        .to_owned(),
                ),
            );
        }
        let mut i: usize = 0;
        while i < self.installed.len()
            invariant
                self.installed@ == old(self).installed@,
                self.current == old(self).current,
                i <= self.installed@.len(),
                forall|k: int| 0 <= k < i ==> views_of(self.installed@)[k] != v@,
            decreases self.installed@.len() - i,
        {
            if self.installed[i].same(v) {
                proof {
                    let s = self@.installed;
                    assert(s[i as int] == v@);
                    assert(s.contains(v@));
                }
                let ghost vec_pre = self.installed@;
                let ghost pre = self@;
                self.installed.remove(i);
                proof {
                    let s = pre.installed;
                    let t = self@.installed;
                    crate::registry::lemma_views_of_remove(vec_pre, i as int);
                    assert(t =~= s.remove(i as int));
                    assert(t =~= s.take(i as int) + s.skip(i as int + 1));
                    assert(pre.wf());
                    assert(t.len() == s.len() - 1);
                    assert forall|x: VersionView| t.contains(x) <==> (s.contains(x) && x != v@) by {
                        if t.contains(x) {
                            let k = choose|k: int| 0 <= k < t.len() && t[k] == x;
                            if k < i {
                                assert(s[k] == x);
                                assert(s.contains(x));
                                if x == v@ {
                                    assert(s[k] == s[i as int]);
                                    assert(k < (i as int));
                                    assert(s[k] != s[i as int]);
                                    assert(false);
                                }
                            } else {
                                assert(s[k + 1] == x);
                                assert(s.contains(x));
                                if x == v@ {
                                    assert(s[k + 1] == s[i as int]);
                                    assert((i as int) < k + 1);
                                    assert(s[i as int] != s[k + 1]);
                                    assert(false);
                                }
                            }
                        }
                        if s.contains(x) && x != v@ {
                            let k = choose|k: int| 0 <= k < s.len() && s[k] == x;
                            if k < i {
                                assert(t[k] == x);
                                assert(t.contains(x));
                            } else {
                                assert(k != i);
                                assert(t[k - 1] == x);
                                assert(t.contains(x));
                            }
                        }
                    }
                    assert forall|i1: int, j1: int|
                        0 <= i1 < j1 < t.len() implies t[i1] != t[j1] by {
                        if j1 < i {
                            assert(t[i1] == s[i1]);
                            assert(t[j1] == s[j1]);
                            assert(s[i1] != s[j1]);
                        } else if i1 < i {
                            assert(t[i1] == s[i1]);
                            assert(t[j1] == s[j1 + 1]);
                            assert(s[i1] != s[j1 + 1]);
                        } else {
                            assert(t[i1] == s[i1 + 1]);
                            assert(t[j1] == s[j1 + 1]);
                            assert(s[i1 + 1] != s[j1 + 1]);
                        }
                    }
                    match self@.current {
                        Some(c) => {
                            assert(c != v@);
                            assert(pre.installed.contains(c));
                            assert(t.contains(c));
                        },
                        None => {},
                    }
                }
                return Ok(());
            }
            i = i + 1;
        }
        proof {
            if self@.installed.contains(v@) {
                let k = choose|k: int|
                    0 <= k < self@.installed.len() && self@.installed[k] == v@;
                assert(views_of(self.installed@)[k] != v@);
            }
        }
        Err(AvmError::NotInstalled(v.clone()))
    }

    /// The installed versions, sorted ascending by semver precedence.
    pub fn list_installed(&self) -> (r: Vec<Version>)
        ensures
            views_of(r@).to_multiset() == self@.installed.to_multiset(),
            sorted_ascending(views_of(r@)),
            r@.len() == self@.installed.len(),
    {
        sort_versions_ascending(&self.installed)
    }
}

/// The versions behind the binary directory's file names, in order: every
/// name of the form `anchor-<version>` contributes the version it names.
pub open spec fn scanned_versions(names: Seq<Seq<char>>) -> Seq<VersionView>
    decreases names.len(),
{
    if names.len() == 0 {
        Seq::<VersionView>::empty()
    } else {
        let rest = scanned_versions(names.drop_first());
        let n = names[0];
        if n.len() >= "anchor-"@.len() && n.take("anchor-"@.len() as int) == "anchor-"@ {
            match crate::parse::semver_of(n.skip("anchor-"@.len() as int)) {
                Some(v) => seq![v] + rest,
                None => rest,
            }
        } else {
            rest
        }
    }
}

/// The file names that carry the tool prefix but name no valid version:
/// these are corrupt entries, reported as a warning by `list`.
pub open spec fn corrupt_names(names: Seq<Seq<char>>) -> Seq<Seq<char>>
    decreases names.len(),
{
    if names.len() == 0 {
        Seq::<Seq<char>>::empty()
    } else {
        let rest = corrupt_names(names.drop_first());
        let n = names[0];
        if n.len() >= "anchor-"@.len() && n.take("anchor-"@.len() as int) == "anchor-"@
            && crate::parse::semver_of(n.skip("anchor-"@.len() as int)) is None {
            seq![n] + rest
        } else {
            rest
        }
    }
}

proof fn lemma_scan_append(a: Seq<Seq<char>>, b: Seq<Seq<char>>)
    ensures
        scanned_versions(a + b) =~= scanned_versions(a) + scanned_versions(b),
        corrupt_names(a + b) =~= corrupt_names(a) + corrupt_names(b),
    decreases a.len(),
{
    if a.len() == 0 {
        assert(a + b =~= b);
        assert(scanned_versions(a) =~= Seq::<VersionView>::empty());
        assert(corrupt_names(a) =~= Seq::<Seq<char>>::empty());
    } else {
        lemma_scan_append(a.drop_first(), b);
        assert((a + b).drop_first() =~= a.drop_first() + b);
        assert((a + b)[0] == a[0]);
    }
}

/// Reads the binary directory's file names: the installed versions, in
/// the order given, and the corrupt tool-prefixed names beside them.
pub fn versions_from_file_names(names: &Vec<String>) -> (r: (Vec<Version>, Vec<String>))
    ensures
        views_of(r.0@) == scanned_versions(names.deep_view()),
        r.1.deep_view() == corrupt_names(names.deep_view()),
{
    let mut found: Vec<Version> = Vec::new();
    let mut corrupt: Vec<String> = Vec::new();
    let mut i: usize = 0;
    proof {
        assert(names.deep_view().take(0) =~= Seq::<Seq<char>>::empty());
        assert(views_of(found@) =~= scanned_versions(names.deep_view().take(0)));
        assert(corrupt.deep_view() =~= corrupt_names(names.deep_view().take(0)));
    }
    while i < names.len()
        invariant
            i <= names@.len(),
            names.deep_view().len() == names@.len(),
            forall|k: int| 0 <= k < names@.len() ==> names.deep_view()[k] == names@[k]@,
            views_of(found@) =~= scanned_versions(names.deep_view().take(i as int)),
            corrupt.deep_view() =~= corrupt_names(names.deep_view().take(i as int)),
        decreases names@.len() - i,
    {
        let ghost dv = names.deep_view();
        proof {
            reveal_with_fuel(scanned_versions, 3);
            reveal_with_fuel(corrupt_names, 3);
            assert(dv.take(i as int + 1) =~= dv.take(i as int) + seq![dv[i as int]]);
            lemma_scan_append(dv.take(i as int), seq![dv[i as int]]);
            assert(seq![dv[i as int]].drop_first() =~= Seq::<Seq<char>>::empty());
        }
        match crate::paths::version_part_of_file_name(names[i].as_str()) {
            Some(rest) => {
                match crate::parse::parse_version_text(rest.as_str()) {
                    Some(v) => {
                        proof {
                            crate::registry::lemma_views_of_push(found@, v);
                            assert(scanned_versions(seq![dv[i as int]]) =~= seq![v@]);
                            assert(corrupt_names(seq![dv[i as int]]) =~= Seq::<Seq<char>>::empty());
                        }
                        found.push(v);
                    },
                    None => {
                        proof {
                            assert(scanned_versions(seq![dv[i as int]])
                                =~= Seq::<VersionView>::empty());
                            assert(corrupt_names(seq![dv[i as int]]) =~= seq![dv[i as int]]);
                        }
                        corrupt.push(names[i].clone());
                        proof {
                            assert(corrupt.deep_view() =~= corrupt_names(dv.take(i as int + 1)));
                        }
                    },
                }
            },
            None => {
                proof {
                    assert(scanned_versions(seq![dv[i as int]]) =~= Seq::<VersionView>::empty());
                    assert(corrupt_names(seq![dv[i as int]]) =~= Seq::<Seq<char>>::empty());
                }
            },
        }
        i = i + 1;
        proof {
            assert(views_of(found@) =~= scanned_versions(dv.take(i as int)));
            assert(corrupt.deep_view() =~= corrupt_names(dv.take(i as int)));
        }
    }
    proof {
        assert(names.deep_view().take(i as int) =~= names.deep_view());
    }
    (found, corrupt)
}

impl AvmState {
    /// Builds the manager's state from a directory scan and the
    /// current-selection file. Duplicate scan entries collapse; a selection
    /// that names no installed version is dropped, and the flag then set
    /// says that `list` should warn.
    pub fn from_scan(installed: Vec<Version>, current: Option<Version>) -> (r: (AvmState, bool))
        ensures
            r.0@.wf(),
            forall|x: VersionView| r.0@.installed.contains(x) <==> views_of(installed@).contains(
                x,
            ),
            match opt_view(current) {
                Some(c) => (views_of(installed@).contains(c) ==> r.0@.current == Some(c) && !r.1)
                    && (!views_of(installed@).contains(c) ==> r.0@.current is None && r.1),
                None => r.0@.current is None && !r.1,
            },
    {
        let mut st = AvmState::empty();
        let mut i: usize = 0;
        proof {
            assert(views_of(installed@.take(0)) =~= Seq::<VersionView>::empty());
        }
        while i < installed.len()
            invariant
                i <= installed@.len(),
                st@.wf(),
                st@.current is None,
                forall|x: VersionView| st@.installed.contains(x) <==> views_of(
                    installed@.take(i as int),
                ).contains(x),
            decreases installed@.len() - i,
        {
            let ghost pre = st@;
            proof {
                assert(views_of(installed@.take(i as int + 1)) =~= views_of(
                    installed@.take(i as int),
                ).push(installed@[i as int]@));
            }
            if !st.contains(&installed[i]) {
                let w = installed[i].clone();
                proof {
                    crate::registry::lemma_views_of_push(st.installed@, w);
                }
                st.installed.push(w);
                proof {
                    assert(st@.installed =~= pre.installed.push(w@));
                    assert(st@.installed[pre.installed.len() as int] == w@);
                    assert forall|i1: int, j1: int|
                        0 <= i1 < j1 < st@.installed.len() implies st@.installed[i1]
                        != st@.installed[j1] by {
                        if j1 < pre.installed.len() {
                        } else {
                            assert(st@.installed[j1] == w@);
                            assert(st@.installed[i1] == pre.installed[i1]);
                            if pre.installed[i1] == w@ {
                                assert(pre.installed.contains(w@));
                            }
                        }
                    }
                    assert forall|x: VersionView|
                        st@.installed.contains(x) <==> views_of(
                            installed@.take(i as int + 1),
                        ).contains(x) by {
                        let next = views_of(installed@.take(i as int + 1));
                        if st@.installed.contains(x) {
                            let k = choose|k: int|
                                0 <= k < st@.installed.len() && st@.installed[k] == x;
                            if k < pre.installed.len() {
                                assert(pre.installed.contains(x));
                            } else {
                                assert(x == w@);
                                assert(next[next.len() - 1] == w@);
                            }
                            if pre.installed.contains(x) {
                                let m = choose|m: int|
                                    0 <= m < views_of(installed@.take(i as int)).len() && views_of(
                                        installed@.take(i as int),
                                    )[m] == x;
                                assert(next[m] == x);
                            }
                        }
                        if next.contains(x) {
                            let k = choose|k: int| 0 <= k < next.len() && next[k] == x;
                            if k < next.len() - 1 {
                                assert(views_of(installed@.take(i as int))[k] == x);
                                assert(pre.installed.contains(x));
                                let m = choose|m: int|
                                    0 <= m < pre.installed.len() && pre.installed[m] == x;
                                assert(st@.installed[m] == x);
                            } else {
                                assert(x == w@);
                                assert(st@.installed[pre.installed.len() as int] == x);
                            }
                        }
                    }
                }
            } else {
                proof {
                    assert forall|x: VersionView|
                        st@.installed.contains(x) <==> views_of(
                            installed@.take(i as int + 1),
                        ).contains(x) by {
                        let next = views_of(installed@.take(i as int + 1));
                        let cur = views_of(installed@.take(i as int));
                        if st@.installed.contains(x) {
                            let m = choose|m: int| 0 <= m < cur.len() && cur[m] == x;
                            assert(next[m] == x);
                        }
                        if next.contains(x) {
                            let k = choose|k: int| 0 <= k < next.len() && next[k] == x;
                            if k < next.len() - 1 {
                                assert(cur[k] == x);
                            } else {
                                assert(x == installed@[i as int]@);
                                assert(st@.installed.contains(x));
                            }
                        }
                    }
                }
            }
            i = i + 1;
        }
        proof {
            assert(installed@.take(i as int) =~= installed@);
        }
        match current {
            Some(c) => {
                if st.contains(&c) {
                    st.current = Some(c);
                    (st, false)
                } else {
                    (st, true)
                }
            },
            None => (st, false),
        }
    }
}

/// One line of `avm list`: the version, with the current one marked.
pub open spec fn list_line_chars(v: VersionView, current: Option<VersionView>) -> Seq<char> {
    version_chars(v) + if current == Some(v) {
        " (current)"@
    } else {
        Seq::<char>::empty()
    }
}

/// Renders the lines that `avm list` prints, one per version, in the given
/// order, marking the current selection.
pub fn render_list(versions: &Vec<Version>, current: &Option<Version>) -> (r: Vec<String>)
    ensures
        r@.len() == versions@.len(),
        forall|i: int| 0 <= i < r@.len() ==> r@[i]@ == list_line_chars(
            views_of(versions@)[i],
            opt_view(*current),
        ),
{
    let mut out: Vec<String> = Vec::new();
    let mut i: usize = 0;
    while i < versions.len()
        invariant
            i <= versions@.len(),
            out@.len() == i,
            forall|k: int| 0 <= k < i ==> out@[k]@ == list_line_chars(
                views_of(versions@)[k],
                opt_view(*current),
            ),
        decreases versions@.len() - i,
    {
        let mut line = versions[i].to_version_string();
        let is_current = match current {
            Some(c) => c.same(&versions[i]),
            None => false,
        };
        if is_current {
            line.append(" (current)");
        }
        out.push(line);
        i = i + 1;
    }
    out
}

/// Installing leaves the key listed: any listing that holds exactly the
/// installed versions after an install contains the installed key.
pub proof fn lemma_install_then_listed(s: AvmStateView, v: VersionView, listed: Seq<VersionView>)
    requires
        listed.to_multiset() == install_effect(s, v).installed.to_multiset(),
    ensures
        listed.contains(v),
{
    broadcast use vstd::seq_lib::group_to_multiset_ensures;

    let t = install_effect(s, v).installed;
    if !s.installed.contains(v) {
        assert(s.installed.push(v)[s.installed.len() as int] == v);
    }
    assert(t.contains(v));
    assert(t.to_multiset().count(v) > 0);
    assert(listed.to_multiset().count(v) > 0);
}

/// Installing the same target again without `force` is a no-op: the target
/// is already present, and the already-installed path (which only re-selects
/// it) leaves the state exactly where it was.
pub proof fn lemma_install_idempotent(s: AvmStateView, v: VersionView)
    ensures
        install_effect(s, v).installed.contains(v),
        install_effect(install_effect(s, v), v) == install_effect(s, v),
{
    let once = install_effect(s, v);
    if !s.installed.contains(v) {
        assert(s.installed.push(v)[s.installed.len() as int] == v);
    }
    assert(once.installed.contains(v));
    assert(install_effect(once, v) =~~= once);
}

/// The canonical key of a commit install: core `0.0.0` with the commit as
/// the pre-release segment.
pub open spec fn commit_key_view(sha: Seq<char>) -> VersionView {
    VersionView { major: 0, minor: 0, patch: 0, pre: sha, build: Seq::<char>::empty() }
}

/// Installing a commit leaves a listed entry whose core is `0.0.0` and whose
/// pre-release segment is the commit itself.
pub proof fn lemma_commit_key_listed(s: AvmStateView, sha: Seq<char>, listed: Seq<VersionView>)
    requires
        listed.to_multiset() == install_effect(s, commit_key_view(sha)).installed.to_multiset(),
    ensures
        exists|i: int|
            0 <= i < listed.len() && listed[i].major == 0 && listed[i].minor == 0
                && listed[i].patch == 0 && listed[i].pre == sha,
{
    lemma_install_then_listed(s, commit_key_view(sha), listed);
    let i = choose|i: int| 0 <= i < listed.len() && listed[i] == commit_key_view(sha);
    assert(listed[i].pre == sha);
}

/// Uninstalling the currently selected version is never allowed, and the
/// failing operation leaves the state unchanged.
pub proof fn lemma_uninstall_current_refused(s: AvmStateView, v: VersionView)
    requires
        s.current == Some(v),
    ensures
        !uninstall_allowed(s, v),
{
}

} // verus!
