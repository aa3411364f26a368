use vstd::prelude::*;
use vstd::string::*;

verus! {

/// A semantic version held as plain values: the numeric core plus the
/// pre-release and build-metadata segments (without their leading `-` / `+`).
/// Commit installs are keyed as `0.0.0-<sha>`, so the pre-release segment is
/// the part of the key that can carry a commit identifier.
#[derive(Debug)]
pub struct Version {
    pub major: u64,
    pub minor: u64,
    pub patch: u64,
    pub pre: String,
    pub build: String,
}

/// The mathematical model of a `Version`.
pub ghost struct VersionView {
    pub major: int,
    pub minor: int,
    pub patch: int,
    pub pre: Seq<char>,
    pub build: Seq<char>,
}

impl View for Version {
    type V = VersionView;

    open spec fn view(&self) -> VersionView {
        VersionView {
            major: self.major as int,
            minor: self.minor as int,
            patch: self.patch as int,
            pre: self.pre@,
            build: self.build@,
        }
    }
}

impl Clone for Version {
    fn clone(&self) -> (r: Self)
        ensures
            r@ == self@,
    {
        Version {
            major: self.major,
            minor: self.minor,
            patch: self.patch,
            pre: self.pre.clone(),
            build: self.build.clone(),
        }
    }
}

impl Version {
    /// A release version `major.minor.patch` with no pre-release or build part.
    pub fn release(major: u64, minor: u64, patch: u64) -> (r: Version)
        ensures
            r@ == (VersionView {
                major: major as int,
                minor: minor as int,
                patch: patch as int,
                pre: Seq::<char>::empty(),
                build: Seq::<char>::empty(),
            }),
    {
        Version { major, minor, patch, pre: String::new(), build: String::new() }
    }

    /// A version with explicit pre-release and build segments.
    pub fn new(major: u64, minor: u64, patch: u64, pre: String, build: String) -> (r: Version)
        ensures
            r@ == (VersionView {
                major: major as int,
                minor: minor as int,
                patch: patch as int,
                pre: pre@,
                build: build@,
            }),
    {
        Version { major, minor, patch, pre, build }
    }

    /// Two versions are the same exactly when their models agree.
    pub fn same(&self, other: &Version) -> (r: bool)
        ensures
            r == (self@ == other@),
    {
        let fields_eq = self.major == other.major && self.minor == other.minor
            && self.patch == other.patch && self.pre.eq(&other.pre)
            && self.build.eq(&other.build);
        proof {
            if fields_eq {
                assert(self@ == other@);
            }
        }
        fields_eq
    }
}

pub open spec fn is_digit(c: char) -> bool {
    '0' <= c && c <= '9'
}

/// A numeric identifier: one or more digits (pre-release identifiers that are
/// all digits are compared numerically under semver precedence).
pub open spec fn is_numeric_ident(s: Seq<char>) -> bool {
    s.len() > 0 && forall|i: int| 0 <= i < s.len() ==> is_digit(#[trigger] s[i])
}

/// Lexicographic (code-point) comparison of two character sequences, as a sign:
/// negative, zero or positive.
pub open spec fn lex_cmp(a: Seq<char>, b: Seq<char>) -> int
    decreases a.len(),
{
    if a.len() == 0 && b.len() == 0 {
        0
    } else if a.len() == 0 {
        -1
    } else if b.len() == 0 {
        1
    } else if a[0] != b[0] {
        if a[0] < b[0] { -1 } else { 1 }
    } else {
        lex_cmp(a.drop_first(), b.drop_first())
    }
}

/// Comparison of two numeric identifiers by numeric value. Without leading
/// zeros, the shorter decimal string is the smaller number, and equal-length
/// strings order lexicographically.
pub open spec fn numeric_cmp(a: Seq<char>, b: Seq<char>) -> int {
    if a.len() < b.len() {
        -1
    } else if a.len() > b.len() {
        1
    } else {
        lex_cmp(a, b)
    }
}

/// Semver precedence of a single pre-release identifier: numeric identifiers
/// compare numerically, a numeric identifier is lower than an alphanumeric
/// one, and alphanumeric identifiers compare lexicographically.
pub open spec fn ident_cmp(a: Seq<char>, b: Seq<char>) -> int {
    if is_numeric_ident(a) && is_numeric_ident(b) {
        numeric_cmp(a, b)
    } else if is_numeric_ident(a) {
        -1
    } else if is_numeric_ident(b) {
        1
    } else {
        lex_cmp(a, b)
    }
}

/// Dot-separated identifier lists compare identifier by identifier; a list
/// that is a strict prefix of another is lower.
pub open spec fn ident_seq_cmp(a: Seq<Seq<char>>, b: Seq<Seq<char>>) -> int
    decreases a.len(),
{
    if a.len() == 0 && b.len() == 0 {
        0
    } else if a.len() == 0 {
        -1
    } else if b.len() == 0 {
        1
    } else if ident_cmp(a[0], b[0]) != 0 {
        ident_cmp(a[0], b[0])
    } else {
        ident_seq_cmp(a.drop_first(), b.drop_first())
    }
}

/// The position of the first `.` in `s`, or -1 when there is none.
pub open spec fn first_dot(s: Seq<char>) -> int
    decreases s.len(),
{
    if s.len() == 0 {
        -1
    } else if s[0] == '.' {
        0
    } else if first_dot(s.drop_first()) < 0 {
        -1
    } else {
        first_dot(s.drop_first()) + 1
    }
}

/// `first_dot` stays within the sequence.
pub proof fn lemma_first_dot_bound(s: Seq<char>)
    ensures
        -1 <= first_dot(s) < s.len(),
        first_dot(s) >= 0 ==> s[first_dot(s)] == '.',
        forall|i: int| 0 <= i < first_dot(s) ==> s[i] != '.',
        first_dot(s) == -1 ==> forall|i: int| 0 <= i < s.len() ==> s[i] != '.',
    decreases s.len(),
{
    if s.len() > 0 && s[0] != '.' {
        lemma_first_dot_bound(s.drop_first());
        assert forall|i: int| 0 <= i < first_dot(s) implies s[i] != '.' by {
            if i > 0 {
                assert(s.drop_first()[i - 1] != '.');
            }
        }
        if first_dot(s) == -1 {
            assert forall|i: int| 0 <= i < s.len() implies s[i] != '.' by {
                if i > 0 {
                    assert(s.drop_first()[i - 1] != '.');
                }
            }
        }
    }
}

/// Splits a non-empty segment at its dots.
pub open spec fn split_dots(s: Seq<char>) -> Seq<Seq<char>>
    decreases s.len(),
    via split_dots_decreases
{
    let d = first_dot(s);
    if d < 0 {
        seq![s]
    } else {
        seq![s.take(d)] + split_dots(s.skip(d + 1))
    }
}

#[via_fn]
proof fn split_dots_decreases(s: Seq<char>) {
    lemma_first_dot_bound(s);
}

/// Semver precedence of whole pre-release segments: an empty segment (a plain
/// release) is higher than any pre-release.
pub open spec fn pre_cmp(a: Seq<char>, b: Seq<char>) -> int {
    if a.len() == 0 && b.len() == 0 {
        0
    } else if a.len() == 0 {
        1
    } else if b.len() == 0 {
        -1
    } else {
        ident_seq_cmp(split_dots(a), split_dots(b))
    }
}

/// Standard semver precedence: the numeric core ordered lexicographically,
/// then the pre-release segment; build metadata never affects precedence.
pub open spec fn version_cmp(a: VersionView, b: VersionView) -> int {
    if a.major != b.major {
        if a.major < b.major { -1 } else { 1 }
    } else if a.minor != b.minor {
        if a.minor < b.minor { -1 } else { 1 }
    } else if a.patch != b.patch {
        if a.patch < b.patch { -1 } else { 1 }
    } else {
        pre_cmp(a.pre, b.pre)
    }
}

/// `a` strictly precedes `b` under semver precedence.
pub open spec fn precedes(a: VersionView, b: VersionView) -> bool {
    version_cmp(a, b) < 0
}

pub proof fn lemma_lex_cmp_antisym(a: Seq<char>, b: Seq<char>)
    ensures
        lex_cmp(a, b) == -lex_cmp(b, a),
    decreases a.len(),
{
    if a.len() > 0 && b.len() > 0 && a[0] == b[0] {
        lemma_lex_cmp_antisym(a.drop_first(), b.drop_first());
    }
}

pub proof fn lemma_lex_cmp_refl(a: Seq<char>)
    ensures
        lex_cmp(a, a) == 0,
    decreases a.len(),
{
    if a.len() > 0 {
        lemma_lex_cmp_refl(a.drop_first());
    }
}

pub proof fn lemma_ident_cmp_antisym(a: Seq<char>, b: Seq<char>)
    ensures
        ident_cmp(a, b) == -ident_cmp(b, a),
{
    lemma_lex_cmp_antisym(a, b);
}

pub proof fn lemma_ident_seq_cmp_antisym(a: Seq<Seq<char>>, b: Seq<Seq<char>>)
    ensures
        ident_seq_cmp(a, b) == -ident_seq_cmp(b, a),
    decreases a.len(),
{
    if a.len() > 0 && b.len() > 0 {
        lemma_ident_cmp_antisym(a[0], b[0]);
        if ident_cmp(a[0], b[0]) == 0 {
            lemma_ident_seq_cmp_antisym(a.drop_first(), b.drop_first());
        }
    }
}

pub proof fn lemma_ident_seq_cmp_refl(a: Seq<Seq<char>>)
    ensures
        ident_seq_cmp(a, a) == 0,
    decreases a.len(),
{
    if a.len() > 0 {
        lemma_lex_cmp_refl(a[0]);
        lemma_ident_seq_cmp_refl(a.drop_first());
    }
}

/// Semver precedence is antisymmetric: comparing in the other direction
/// flips the sign.
pub proof fn lemma_version_cmp_antisym(a: VersionView, b: VersionView)
    ensures
        version_cmp(a, b) == -version_cmp(b, a),
{
    if a.major == b.major && a.minor == b.minor && a.patch == b.patch && a.pre.len() > 0
        && b.pre.len() > 0 {
        lemma_ident_seq_cmp_antisym(split_dots(a.pre), split_dots(b.pre));
    }
}

/// Semver precedence is reflexive at sign zero.
pub proof fn lemma_version_cmp_refl(a: VersionView)
    ensures
        version_cmp(a, a) == 0,
{
    if a.pre.len() > 0 {
        lemma_ident_seq_cmp_refl(split_dots(a.pre));
    }
}

/// Semver precedence is total: of two versions, one compares at or below the
/// other.
pub proof fn lemma_version_cmp_total(a: VersionView, b: VersionView)
    ensures
        version_cmp(a, b) <= 0 || version_cmp(b, a) <= 0,
{
    lemma_version_cmp_antisym(a, b);
}

pub open spec fn pow10(n: nat) -> int
    decreases n,
{
    if n == 0 {
        1
    } else {
        10 * pow10((n - 1) as nat)
    }
}

pub open spec fn digit_val(c: char) -> int {
    (c as int) - ('0' as int)
}

/// The number a decimal digit string denotes.
pub open spec fn dec_value(s: Seq<char>) -> int
    decreases s.len(),
{
    if s.len() == 0 {
        0
    } else {
        10 * dec_value(s.drop_last()) + digit_val(s.last())
    }
}

/// A numeric identifier without a leading zero (a single `0` is allowed).
pub open spec fn no_leading_zero(s: Seq<char>) -> bool {
    s.len() == 1 || (s.len() > 1 && s[0] != '0')
}

proof fn lemma_pow10_pos(n: nat)
    ensures
        pow10(n) >= 1,
    decreases n,
{
    if n > 0 {
        lemma_pow10_pos((n - 1) as nat);
    }
}

proof fn lemma_pow10_mono(m: nat, n: nat)
    requires
        m <= n,
    ensures
        pow10(m) <= pow10(n),
    decreases n,
{
    if m < n {
        lemma_pow10_mono(m, (n - 1) as nat);
        lemma_pow10_pos((n - 1) as nat);
    }
}

proof fn lemma_dec_value_bounds(s: Seq<char>)
    requires
        forall|i: int| 0 <= i < s.len() ==> is_digit(#[trigger] s[i]),
    ensures
        0 <= dec_value(s) < pow10(s.len()),
        s.len() > 0 && s[0] != '0' ==> dec_value(s) >= pow10((s.len() - 1) as nat),
    decreases s.len(),
{
    if s.len() > 0 {
        assert forall|i: int| 0 <= i < s.drop_last().len() implies is_digit(
            #[trigger] s.drop_last()[i],
        ) by {
            assert(s.drop_last()[i] == s[i]);
        }
        lemma_dec_value_bounds(s.drop_last());
        assert(is_digit(s.last()));
        assert(0 <= digit_val(s.last()) <= 9);
        if s.len() > 1 && s[0] != '0' {
            assert(s.drop_last()[0] == s[0]);
            assert(dec_value(s.drop_last()) >= pow10((s.len() - 2) as nat));
        }
        if s.len() == 1 && s[0] != '0' {
            assert(digit_val(s[0]) >= 1);
        }
    }
}

proof fn lemma_dec_value_front(s: Seq<char>)
    requires
        s.len() > 0,
    ensures
        dec_value(s) == digit_val(s[0]) * pow10((s.len() - 1) as nat) + dec_value(s.drop_first()),
    decreases s.len(),
{
    if s.len() == 1 {
        assert(s.drop_first() =~= Seq::<char>::empty());
        assert(s.drop_last() =~= Seq::<char>::empty());
        assert(dec_value(Seq::<char>::empty()) == 0);
        assert(pow10(0) == 1);
        assert(dec_value(s) == 10 * dec_value(s.drop_last()) + digit_val(s.last()));
        assert(s.last() == s[0]);
    } else {
        lemma_dec_value_front(s.drop_last());
        assert(s.drop_last()[0] == s[0]);
        assert(s.drop_last().drop_first() =~= s.drop_first().drop_last());
        assert(s.drop_first().last() == s.last());
        assert(s.drop_first().len() > 0);
        assert(dec_value(s.drop_first()) == 10 * dec_value(s.drop_first().drop_last())
            + digit_val(s.drop_first().last()));
        let p = pow10((s.len() - 2) as nat);
        let d0 = digit_val(s[0]);
        assert(dec_value(s.drop_last()) == d0 * p + dec_value(s.drop_last().drop_first()));
        assert(dec_value(s) == 10 * (d0 * p + dec_value(s.drop_first().drop_last())) + digit_val(
            s.last(),
        ));
        assert(10 * (d0 * p + dec_value(s.drop_first().drop_last())) == d0 * (10 * p) + 10
            * dec_value(s.drop_first().drop_last())) by (nonlinear_arith);
        assert(pow10((s.len() - 1) as nat) == 10 * p);
    }
}

proof fn lemma_equal_len_lex_value(a: Seq<char>, b: Seq<char>)
    requires
        a.len() == b.len(),
        forall|i: int| 0 <= i < a.len() ==> is_digit(#[trigger] a[i]),
        forall|i: int| 0 <= i < b.len() ==> is_digit(#[trigger] b[i]),
        lex_cmp(a, b) < 0,
    ensures
        dec_value(a) < dec_value(b),
    decreases a.len(),
{
    assert(a.len() > 0);
    if a[0] == b[0] {
        assert forall|i: int| 0 <= i < a.drop_first().len() implies is_digit(
            #[trigger] a.drop_first()[i],
        ) by {
            assert(a.drop_first()[i] == a[i + 1]);
        }
        assert forall|i: int| 0 <= i < b.drop_first().len() implies is_digit(
            #[trigger] b.drop_first()[i],
        ) by {
            assert(b.drop_first()[i] == b[i + 1]);
        }
        lemma_equal_len_lex_value(a.drop_first(), b.drop_first());
        lemma_dec_value_front(a);
        lemma_dec_value_front(b);
    } else {
        assert(a[0] < b[0]);
        let p = pow10((a.len() - 1) as nat);
        let da = digit_val(a[0]);
        let db = digit_val(b[0]);
        assert(da + 1 <= db);
        lemma_dec_value_front(a);
        lemma_dec_value_front(b);
        assert forall|i: int| 0 <= i < a.drop_first().len() implies is_digit(
            #[trigger] a.drop_first()[i],
        ) by {
            assert(a.drop_first()[i] == a[i + 1]);
        }
        assert forall|i: int| 0 <= i < b.drop_first().len() implies is_digit(
            #[trigger] b.drop_first()[i],
        ) by {
            assert(b.drop_first()[i] == b[i + 1]);
        }
        lemma_dec_value_bounds(a.drop_first());
        lemma_dec_value_bounds(b.drop_first());
        lemma_pow10_pos((a.len() - 1) as nat);
        assert(dec_value(a) < da * p + p);
        assert(da * p + p == (da + 1) * p) by (nonlinear_arith);
        assert((da + 1) * p <= db * p) by (nonlinear_arith)
            requires
                da + 1 <= db,
                p >= 1,
        ;
        assert(dec_value(b) >= db * p);
    }
}

/// On numeric identifiers without leading zeros, the length-first order of
/// `numeric_cmp` is exactly the order of the numbers the digits denote.
pub proof fn lemma_numeric_cmp_is_value_order(a: Seq<char>, b: Seq<char>)
    requires
        is_numeric_ident(a),
        is_numeric_ident(b),
        no_leading_zero(a),
        no_leading_zero(b),
    ensures
        numeric_cmp(a, b) < 0 <==> dec_value(a) < dec_value(b),
        numeric_cmp(a, b) == 0 <==> dec_value(a) == dec_value(b),
{
    lemma_dec_value_bounds(a);
    lemma_dec_value_bounds(b);
    if a.len() < b.len() {
        lemma_pow10_mono(a.len(), (b.len() - 1) as nat);
        assert(dec_value(a) < pow10(a.len()) <= pow10((b.len() - 1) as nat) <= dec_value(b));
    } else if b.len() < a.len() {
        lemma_pow10_mono(b.len(), (a.len() - 1) as nat);
        assert(dec_value(b) < pow10(b.len()) <= pow10((a.len() - 1) as nat) <= dec_value(a));
    } else {
        if lex_cmp(a, b) < 0 {
            lemma_equal_len_lex_value(a, b);
        } else if lex_cmp(a, b) > 0 {
            lemma_lex_cmp_antisym(a, b);
            lemma_equal_len_lex_value(b, a);
        } else {
            lemma_lex_cmp_eq(a, b);
        }
    }
}

pub proof fn lemma_lex_cmp_eq(a: Seq<char>, b: Seq<char>)
    requires
        lex_cmp(a, b) == 0,
    ensures
        a == b,
    decreases a.len(),
{
    if a.len() > 0 && b.len() > 0 {
        lemma_lex_cmp_eq(a.drop_first(), b.drop_first());
        assert forall|i: int| 0 <= i < a.len() implies a[i] == b[i] by {
            if i > 0 {
                assert(a.drop_first()[i - 1] == b.drop_first()[i - 1]);
            }
        }
        assert(a =~= b);
    } else {
        assert(a =~= b);
    }
}

proof fn lemma_lex_cmp_trans_strict(a: Seq<char>, b: Seq<char>, c: Seq<char>)
    requires
        lex_cmp(a, b) < 0,
        lex_cmp(b, c) < 0,
    ensures
        lex_cmp(a, c) < 0,
    decreases a.len(),
{
    if a.len() > 0 {
        if a[0] == b[0] && b[0] == c[0] {
            lemma_lex_cmp_trans_strict(a.drop_first(), b.drop_first(), c.drop_first());
        }
    }
}

/// Transitivity of the lexicographic sign, with strictness carried through.
pub proof fn lemma_lex_cmp_trans(a: Seq<char>, b: Seq<char>, c: Seq<char>)
    requires
        lex_cmp(a, b) <= 0,
        lex_cmp(b, c) <= 0,
    ensures
        lex_cmp(a, c) <= 0,
        lex_cmp(a, b) < 0 || lex_cmp(b, c) < 0 ==> lex_cmp(a, c) < 0,
{
    if lex_cmp(a, b) == 0 {
        lemma_lex_cmp_eq(a, b);
    } else if lex_cmp(b, c) == 0 {
        lemma_lex_cmp_eq(b, c);
    } else {
        lemma_lex_cmp_trans_strict(a, b, c);
    }
}

pub proof fn lemma_ident_cmp_eq(a: Seq<char>, b: Seq<char>)
    requires
        ident_cmp(a, b) == 0,
    ensures
        a == b,
{
    lemma_lex_cmp_eq(a, b);
}

/// Transitivity of single-identifier precedence, with strictness carried
/// through.
pub proof fn lemma_ident_cmp_trans(a: Seq<char>, b: Seq<char>, c: Seq<char>)
    requires
        ident_cmp(a, b) <= 0,
        ident_cmp(b, c) <= 0,
    ensures
        ident_cmp(a, c) <= 0,
        ident_cmp(a, b) < 0 || ident_cmp(b, c) < 0 ==> ident_cmp(a, c) < 0,
{
    if ident_cmp(a, b) == 0 {
        lemma_ident_cmp_eq(a, b);
    } else if ident_cmp(b, c) == 0 {
        lemma_ident_cmp_eq(b, c);
    } else {
        if is_numeric_ident(a) && is_numeric_ident(b) && is_numeric_ident(c) {
            if a.len() == b.len() && b.len() == c.len() {
                lemma_lex_cmp_trans(a, b, c);
            }
        } else if !is_numeric_ident(a) && !is_numeric_ident(b) && !is_numeric_ident(c) {
            lemma_lex_cmp_trans(a, b, c);
        }
    }
}

pub proof fn lemma_ident_seq_cmp_eq(a: Seq<Seq<char>>, b: Seq<Seq<char>>)
    requires
        ident_seq_cmp(a, b) == 0,
    ensures
        a == b,
    decreases a.len(),
{
    if a.len() > 0 && b.len() > 0 {
        lemma_ident_cmp_eq(a[0], b[0]);
        lemma_ident_seq_cmp_eq(a.drop_first(), b.drop_first());
        assert forall|i: int| 0 <= i < a.len() implies a[i] == b[i] by {
            if i > 0 {
                assert(a.drop_first()[i - 1] == b.drop_first()[i - 1]);
            }
        }
        assert(a =~= b);
    } else {
        assert(a =~= b);
    }
}

/// Transitivity of identifier-list precedence, with strictness carried
/// through.
pub proof fn lemma_ident_seq_cmp_trans(a: Seq<Seq<char>>, b: Seq<Seq<char>>, c: Seq<Seq<char>>)
    requires
        ident_seq_cmp(a, b) <= 0,
        ident_seq_cmp(b, c) <= 0,
    ensures
        ident_seq_cmp(a, c) <= 0,
        ident_seq_cmp(a, b) < 0 || ident_seq_cmp(b, c) < 0 ==> ident_seq_cmp(a, c) < 0,
    decreases a.len(),
{
    if ident_seq_cmp(a, b) == 0 {
        lemma_ident_seq_cmp_eq(a, b);
    } else if ident_seq_cmp(b, c) == 0 {
        lemma_ident_seq_cmp_eq(b, c);
    } else if a.len() > 0 && b.len() > 0 && c.len() > 0 {
        lemma_ident_cmp_trans(a[0], b[0], c[0]);
        if ident_cmp(a[0], b[0]) == 0 {
            lemma_ident_cmp_eq(a[0], b[0]);
            if ident_cmp(b[0], c[0]) == 0 {
                lemma_ident_cmp_eq(b[0], c[0]);
                lemma_ident_seq_cmp_trans(a.drop_first(), b.drop_first(), c.drop_first());
            }
        } else if ident_cmp(b[0], c[0]) == 0 {
            lemma_ident_cmp_eq(b[0], c[0]);
        }
    }
}

/// Transitivity of pre-release segment precedence.
pub proof fn lemma_pre_cmp_trans(a: Seq<char>, b: Seq<char>, c: Seq<char>)
    requires
        pre_cmp(a, b) <= 0,
        pre_cmp(b, c) <= 0,
    ensures
        pre_cmp(a, c) <= 0,
{
    if a.len() > 0 && b.len() > 0 && c.len() > 0 {
        lemma_ident_seq_cmp_trans(split_dots(a), split_dots(b), split_dots(c));
    }
}

/// Semver precedence is transitive.
pub proof fn lemma_version_cmp_trans(a: VersionView, b: VersionView, c: VersionView)
    requires
        version_cmp(a, b) <= 0,
        version_cmp(b, c) <= 0,
    ensures
        version_cmp(a, c) <= 0,
{
    if a.major == b.major && b.major == c.major && a.minor == b.minor && b.minor == c.minor
        && a.patch == b.patch && b.patch == c.patch {
        lemma_pre_cmp_trans(a.pre, b.pre, c.pre);
    }
}

fn str_lex_cmp(a: &str, b: &str) -> (r: i32)
    ensures
        r == lex_cmp(a@, b@),
{
    let alen: usize = a.unicode_len();
    let blen: usize = b.unicode_len();
    let mut i: usize = 0;
    proof {
        assert(a@.skip(0) =~= a@);
        assert(b@.skip(0) =~= b@);
    }
    loop
        invariant
            i <= alen,
            i <= blen,
            alen == a@.len(),
            blen == b@.len(),
            lex_cmp(a@, b@) == lex_cmp(a@.skip(i as int), b@.skip(i as int)),
        decreases alen - i,
    {
        if i == alen && i == blen {
            return 0;
        }
        if i == alen {
            return -1;
        }
        if i == blen {
            return 1;
        }
        let ca = a.get_char(i);
        let cb = b.get_char(i);
        proof {
            assert(a@.skip(i as int)[0] == a@[i as int]);
            assert(b@.skip(i as int)[0] == b@[i as int]);
        }
        if ca != cb {
            if ca < cb {
                return -1;
            } else {
                return 1;
            }
        }
        proof {
            assert(a@.skip(i as int).drop_first() =~= a@.skip(i as int + 1));
            assert(b@.skip(i as int).drop_first() =~= b@.skip(i as int + 1));
        }
        i = i + 1;
    }
}

fn str_is_numeric_ident(s: &str) -> (r: bool)
    ensures
        r == is_numeric_ident(s@),
{
    let len: usize = s.unicode_len();
    if len == 0 {
        return false;
    }
    let mut i: usize = 0;
    while i < len
        invariant
            i <= len,
            len == s@.len(),
            forall|j: int| 0 <= j < i ==> is_digit(#[trigger] s@[j]),
        decreases len - i,
    {
        let c = s.get_char(i);
        if !('0' <= c && c <= '9') {
            return false;
        }
        i = i + 1;
    }
    true
}

fn str_ident_cmp(a: &str, b: &str) -> (r: i32)
    ensures
        r == ident_cmp(a@, b@),
{
    let a_num = str_is_numeric_ident(a);
    let b_num = str_is_numeric_ident(b);
    if a_num && b_num {
        let alen: usize = a.unicode_len();
        let blen: usize = b.unicode_len();
        if alen < blen {
            -1
        } else if alen > blen {
            1
        } else {
            str_lex_cmp(a, b)
        }
    } else if a_num {
        -1
    } else if b_num {
        1
    } else {
        str_lex_cmp(a, b)
    }
}

fn find_first_dot(s: &str) -> (r: Option<usize>)
    ensures
        match r {
            Some(i) => first_dot(s@) == i as int,
            None => first_dot(s@) == -1,
        },
{
    let len: usize = s.unicode_len();
    let mut i: usize = 0;
    while i < len
        invariant
            i <= len,
            len == s@.len(),
            forall|j: int| 0 <= j < i ==> s@[j] != '.',
        decreases len - i,
    {
        let c = s.get_char(i);
        if c == '.' {
            proof {
                lemma_first_dot_bound(s@);
            }
            return Some(i);
        }
        i = i + 1;
    }
    proof {
        lemma_first_dot_bound(s@);
    }
    None
}

fn split_pre(s: &str) -> (r: Vec<String>)
    ensures
        r.deep_view() == split_dots(s@),
    decreases s@.len(),
{
    match find_first_dot(s) {
        None => {
            let mut v: Vec<String> = Vec::new();
            v.push(s.to_owned());
            proof {
                assert(v.deep_view() =~~= split_dots(s@));
            }
            v
        },
        Some(d) => {
            let len: usize = s.unicode_len();
            proof {
                lemma_first_dot_bound(s@);
            }
            let head = s.substring_char(0, d).to_owned();
            let tail = s.substring_char(d + 1, len);
            let mut v: Vec<String> = Vec::new();
            v.push(head);
            let mut rest = split_pre(tail);
            v.append(&mut rest);
            proof {
                assert(s@.subrange(0, d as int) =~= s@.take(d as int));
                assert(s@.subrange(d as int + 1, s@.len() as int) =~= s@.skip(d as int + 1));
                assert(v.deep_view() =~~= split_dots(s@));
            }
            v
        },
    }
}

fn ident_vec_cmp(a: &Vec<String>, b: &Vec<String>) -> (r: i32)
    ensures
        r == ident_seq_cmp(a.deep_view(), b.deep_view()),
{
    let alen: usize = a.len();
    let blen: usize = b.len();
    let mut i: usize = 0;
    proof {
        assert(a.deep_view().skip(0) =~= a.deep_view());
        assert(b.deep_view().skip(0) =~= b.deep_view());
        assert(a.deep_view().len() == a@.len());
        assert(b.deep_view().len() == b@.len());
    }
    loop
        invariant
            i <= alen,
            i <= blen,
            alen == a@.len(),
            blen == b@.len(),
            ident_seq_cmp(a.deep_view(), b.deep_view()) == ident_seq_cmp(
                a.deep_view().skip(i as int),
                b.deep_view().skip(i as int),
            ),
        decreases alen - i,
    {
        if i == alen && i == blen {
            return 0;
        }
        if i == alen {
            return -1;
        }
        if i == blen {
            return 1;
        }
        proof {
            assert(a.deep_view().skip(i as int)[0] == a.deep_view()[i as int]);
            assert(b.deep_view().skip(i as int)[0] == b.deep_view()[i as int]);
        }
        let c = str_ident_cmp(a[i].as_str(), b[i].as_str());
        if c != 0 {
            return c;
        }
        proof {
            assert(a.deep_view().skip(i as int).drop_first() =~= a.deep_view().skip(i as int + 1));
            assert(b.deep_view().skip(i as int).drop_first() =~= b.deep_view().skip(i as int + 1));
        }
        i = i + 1;
    }
}

impl Version {
    /// The sign of semver precedence between `self` and `other`.
    pub fn compare(&self, other: &Version) -> (r: i32)
        ensures
            r == version_cmp(self@, other@),
    {
        if self.major != other.major {
            return if self.major < other.major { -1 } else { 1 };
        }
        if self.minor != other.minor {
            return if self.minor < other.minor { -1 } else { 1 };
        }
        if self.patch != other.patch {
            return if self.patch < other.patch { -1 } else { 1 };
        }
        let a_empty = self.pre.as_str().is_empty();
        let b_empty = other.pre.as_str().is_empty();
        if a_empty && b_empty {
            0
        } else if a_empty {
            1
        } else if b_empty {
            -1
        } else {
            let a_idents = split_pre(self.pre.as_str());
            let b_idents = split_pre(other.pre.as_str());
            ident_vec_cmp(&a_idents, &b_idents)
        }
    }

    /// `self` is at or below `other` under semver precedence.
    pub fn le(&self, other: &Version) -> (r: bool)
        ensures
            r == (version_cmp(self@, other@) <= 0),
    {
        self.compare(other) <= 0
    }
}

/// Character-for-character string equality.
pub fn str_eq(a: &str, b: &str) -> (r: bool)
    ensures
        r == (a@ == b@),
{
    let alen: usize = a.unicode_len();
    let blen: usize = b.unicode_len();
    if alen != blen {
        return false;
    }
    let mut i: usize = 0;
    while i < alen
        invariant
            i <= alen,
            alen == a@.len(),
            alen == b@.len(),
            forall|j: int| 0 <= j < i ==> a@[j] == b@[j],
        decreases alen - i,
    {
        if a.get_char(i) != b.get_char(i) {
            return false;
        }
        i = i + 1;
    }
    proof {
        assert(a@ =~= b@);
    }
    true
}

pub open spec fn digit_char(d: int) -> char {
    if d == 0 {
        '0'
    } else if d == 1 {
        '1'
    } else if d == 2 {
        '2'
    } else if d == 3 {
        '3'
    } else if d == 4 {
        '4'
    } else if d == 5 {
        '5'
    } else if d == 6 {
        '6'
    } else if d == 7 {
        '7'
    } else if d == 8 {
        '8'
    } else {
        '9'
    }
}

/// The decimal rendering of a non-negative integer.
pub open spec fn dec_str(n: int) -> Seq<char>
    decreases n,
{
    if n < 10 {
        seq![digit_char(n)]
    } else {
        dec_str(n / 10).push(digit_char(n % 10))
    }
}

/// The canonical rendering of a version: `major.minor.patch`, then `-pre`
/// when a pre-release segment is present, then `+build` when build metadata
/// is present.
pub open spec fn version_chars(v: VersionView) -> Seq<char> {
    dec_str(v.major) + seq!['.'] + dec_str(v.minor) + seq!['.'] + dec_str(v.patch) + (if v.pre.len()
        > 0 {
        seq!['-'] + v.pre
    } else {
        Seq::<char>::empty()
    }) + (if v.build.len() > 0 {
        seq!['+'] + v.build
    } else {
        Seq::<char>::empty()
    })
}

fn digit_literal(d: u64) -> (r: &'static str)
    requires
        d < 10,
    ensures
        r@ =~= seq![digit_char(d as int)],
{
    proof {
        reveal_strlit("0");
        reveal_strlit("1");
        reveal_strlit("2");
        reveal_strlit("3");
        reveal_strlit("4");
        reveal_strlit("5");
        reveal_strlit("6");
        reveal_strlit("7");
        reveal_strlit("8");
        reveal_strlit("9");
    }
    match d {
        0 => "0",
        1 => "1",
        2 => "2",
        3 => "3",
        4 => "4",
        5 => "5",
        6 => "6",
        7 => "7",
        8 => "8",
        _ => "9",
    }
}

/// Renders `n` in decimal.
pub fn u64_to_string(n: u64) -> (r: String)
    ensures
        r@ == dec_str(n as int),
    decreases n,
{
    if n < 10 {
        digit_literal(n).to_owned()
    } else {
        let mut s = u64_to_string(n / 10);
        s.append(digit_literal(n % 10));
        proof {
            assert(s@ =~= dec_str((n / 10) as int).push(digit_char((n % 10) as int)));
        }
        s
    }
}

impl Version {
    /// Renders the version in its canonical form.
    pub fn to_version_string(&self) -> (r: String)
        ensures
            r@ == version_chars(self@),
    {
        let mut s = u64_to_string(self.major);
        s.append(".");
        let minor = u64_to_string(self.minor);
        s.append(minor.as_str());
        s.append(".");
        let patch = u64_to_string(self.patch);
        s.append(patch.as_str());
        if !self.pre.as_str().is_empty() {
            s.append("-");
            s.append(self.pre.as_str());
        }
        if !self.build.as_str().is_empty() {
            s.append("+");
            s.append(self.build.as_str());
        }
        proof {
            reveal_strlit(".");
            reveal_strlit("-");
            reveal_strlit("+");
            assert("."@ =~= seq!['.']);
            assert("-"@ =~= seq!['-']);
            assert("+"@ =~= seq!['+']);
            assert(s@ =~= version_chars(self@));
        }
        s
    }
}

} // verus!
