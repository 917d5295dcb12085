//! Semantic versions and their total precedence order.
//!
//! A version is the numeric triple `major.minor.patch` plus a possibly
//! empty list of pre-release identifiers. Precedence follows semantic
//! versioning: the triple compares numerically; a version with a
//! pre-release sorts below the corresponding release; pre-release
//! identifier lists compare identifier by identifier, where purely
//! numeric identifiers compare numerically and rank below alphanumeric
//! ones, alphanumeric identifiers compare in ASCII order, and a list
//! that is a strict prefix of another sorts first. Build metadata has
//! no precedence and is not recorded.

use vstd::prelude::*;

use crate::text::find_byte;
use crate::text::find_from;
use crate::text::lemma_find_from;
use crate::text::subvec;

verus! {

/// A semantic version. An empty `pre` means a plain release.
#[derive(Debug)]
pub struct Version {
    pub major: u64,
    pub minor: u64,
    pub patch: u64,
    /// Pre-release identifiers, in order, without the separating dots.
    pub pre: Vec<Vec<u8>>,
}

/// The mathematical value of a `Version`.
pub struct VersionView {
    pub major: int,
    pub minor: int,
    pub patch: int,
    pub pre: Seq<Seq<u8>>,
}

impl View for Version {
    type V = VersionView;

    open spec fn view(&self) -> VersionView {
        VersionView {
            major: self.major as int,
            minor: self.minor as int,
            patch: self.patch as int,
            pre: self.pre.deep_view(),
        }
    }
}

impl DeepView for Version {
    type V = VersionView;

    open spec fn deep_view(&self) -> VersionView {
        self.view()
    }
}

/// Three-way ASCII comparison of two byte strings from position `i` on:
/// negative when `a` sorts first, positive when `b` does, zero on equality.
pub open spec fn lex_cmp_from(a: Seq<u8>, b: Seq<u8>, i: int) -> int
    decreases a.len() - i,
{
    if i >= a.len() && i >= b.len() {
        0
    } else if i >= a.len() {
        -1
    } else if i >= b.len() {
        1
    } else if a[i] < b[i] {
        -1
    } else if a[i] > b[i] {
        1
    } else {
        lex_cmp_from(a, b, i + 1)
    }
}

pub open spec fn lex_cmp(a: Seq<u8>, b: Seq<u8>) -> int {
    lex_cmp_from(a, b, 0)
}

/// A pre-release identifier consisting only of digits.
pub open spec fn is_num_ident(s: Seq<u8>) -> bool {
    s.len() > 0 && (forall|i: int| 0 <= i < s.len() ==> 48 <= #[trigger] s[i] <= 57)
}

/// Three-way comparison of two pre-release identifiers. Numeric
/// identifiers compare numerically (equal in value exactly when equal by
/// length and then digits, since they carry no leading zeros) and rank
/// below alphanumeric ones; alphanumeric identifiers compare in ASCII
/// order.
pub open spec fn ident_cmp(a: Seq<u8>, b: Seq<u8>) -> int {
    if is_num_ident(a) && is_num_ident(b) {
        if a.len() < b.len() {
            -1
        } else if a.len() > b.len() {
            1
        } else {
            lex_cmp(a, b)
        }
    } else if is_num_ident(a) {
        -1
    } else if is_num_ident(b) {
        1
    } else {
        lex_cmp(a, b)
    }
}

/// Three-way comparison of two pre-release identifier lists from
/// position `i` on: identifier by identifier, a strict prefix first.
pub open spec fn pre_cmp_from(a: Seq<Seq<u8>>, b: Seq<Seq<u8>>, i: int) -> int
    decreases a.len() - i,
{
    if i >= a.len() && i >= b.len() {
        0
    } else if i >= a.len() {
        -1
    } else if i >= b.len() {
        1
    } else if ident_cmp(a[i], b[i]) == 0 {
        pre_cmp_from(a, b, i + 1)
    } else {
        ident_cmp(a[i], b[i])
    }
}

pub open spec fn pre_cmp(a: Seq<Seq<u8>>, b: Seq<Seq<u8>>) -> int {
    pre_cmp_from(a, b, 0)
}

/// Three-way semantic-version precedence: the numeric triple first, then
/// a pre-release sorts below the corresponding release, then the
/// pre-release lists compare.
pub open spec fn version_cmp(a: VersionView, b: VersionView) -> int {
    if a.major != b.major {
        if a.major < b.major {
            -1
        } else {
            1
        }
    } else if a.minor != b.minor {
        if a.minor < b.minor {
            -1
        } else {
            1
        }
    } else if a.patch != b.patch {
        if a.patch < b.patch {
            -1
        } else {
            1
        }
    } else if a.pre.len() == 0 && b.pre.len() == 0 {
        0
    } else if b.pre.len() == 0 {
        -1
    } else if a.pre.len() == 0 {
        1
    } else {
        pre_cmp(a.pre, b.pre)
    }
}

proof fn lemma_lex_from_zero(a: Seq<u8>, b: Seq<u8>, i: int)
    requires
        0 <= i <= a.len(),
        i <= b.len(),
        lex_cmp_from(a, b, i) == 0,
    ensures
        a.len() == b.len(),
        forall|j: int| i <= j < a.len() ==> a[j] == b[j],
    decreases a.len() - i,
{
    if i < a.len() || i < b.len() {
        lemma_lex_from_zero(a, b, i + 1);
    }
}

/// Two byte strings that compare equal in ASCII order are equal.
pub proof fn lemma_lex_cmp_zero(a: Seq<u8>, b: Seq<u8>)
    requires
        lex_cmp(a, b) == 0,
    ensures
        a == b,
{
    lemma_lex_from_zero(a, b, 0);
    assert(a =~= b);
}

/// Two identifiers that compare equal are equal.
pub proof fn lemma_ident_cmp_zero(a: Seq<u8>, b: Seq<u8>)
    requires
        ident_cmp(a, b) == 0,
    ensures
        a == b,
{
    if is_num_ident(a) && is_num_ident(b) {
        if a.len() == b.len() {
            lemma_lex_cmp_zero(a, b);
        }
    } else if !is_num_ident(a) && !is_num_ident(b) {
        lemma_lex_cmp_zero(a, b);
    }
}

proof fn lemma_lex_from_antisym(a: Seq<u8>, b: Seq<u8>, i: int)
    ensures
        lex_cmp_from(a, b, i) == -lex_cmp_from(b, a, i),
    decreases a.len() - i,
{
    if i < a.len() && i < b.len() && a[i] == b[i] {
        lemma_lex_from_antisym(a, b, i + 1);
    }
}

/// Swapping the identifiers flips the sign of the comparison.
pub proof fn lemma_ident_cmp_antisym(a: Seq<u8>, b: Seq<u8>)
    ensures
        ident_cmp(a, b) == -ident_cmp(b, a),
{
    lemma_lex_from_antisym(a, b, 0);
}

proof fn lemma_pre_from_antisym(a: Seq<Seq<u8>>, b: Seq<Seq<u8>>, i: int)
    ensures
        pre_cmp_from(a, b, i) == -pre_cmp_from(b, a, i),
    decreases a.len() - i,
{
    if i < a.len() && i < b.len() {
        lemma_ident_cmp_antisym(a[i], b[i]);
        if ident_cmp(a[i], b[i]) == 0 {
            lemma_pre_from_antisym(a, b, i + 1);
        }
    }
}

/// Swapping the versions flips the sign of the comparison.
pub proof fn lemma_version_cmp_antisym(a: VersionView, b: VersionView)
    ensures
        version_cmp(a, b) == -version_cmp(b, a),
{
    lemma_pre_from_antisym(a.pre, b.pre, 0);
}

/// The order is reflexive: every version compares equal to itself.
pub proof fn lemma_version_cmp_refl(a: VersionView)
    ensures
        version_cmp(a, a) == 0,
{
    lemma_version_cmp_antisym(a, a);
}

proof fn lemma_lex_from_trans(a: Seq<u8>, b: Seq<u8>, c: Seq<u8>, i: int)
    requires
        0 <= i,
        lex_cmp_from(a, b, i) <= 0,
        lex_cmp_from(b, c, i) <= 0,
    ensures
        lex_cmp_from(a, c, i) <= 0,
        lex_cmp_from(a, b, i) < 0 || lex_cmp_from(b, c, i) < 0 ==> lex_cmp_from(a, c, i) < 0,
    decreases a.len() - i,
{
    if i < a.len() && i < b.len() && i < c.len() && a[i] == b[i] && b[i] == c[i] {
        lemma_lex_from_trans(a, b, c, i + 1);
    }
}

/// The identifier order composes: two steps down compose to one, and a
/// strict step anywhere keeps the composition strict.
pub proof fn lemma_ident_cmp_trans(x: Seq<u8>, y: Seq<u8>, z: Seq<u8>)
    requires
        ident_cmp(x, y) <= 0,
        ident_cmp(y, z) <= 0,
    ensures
        ident_cmp(x, z) <= 0,
        ident_cmp(x, y) < 0 || ident_cmp(y, z) < 0 ==> ident_cmp(x, z) < 0,
{
    if is_num_ident(x) && is_num_ident(y) && is_num_ident(z) {
        if x.len() == y.len() && y.len() == z.len() {
            lemma_lex_from_trans(x, y, z, 0);
        }
    } else if !is_num_ident(x) && !is_num_ident(y) && !is_num_ident(z) {
        lemma_lex_from_trans(x, y, z, 0);
    }
}

proof fn lemma_pre_from_trans(a: Seq<Seq<u8>>, b: Seq<Seq<u8>>, c: Seq<Seq<u8>>, i: int)
    requires
        0 <= i,
        pre_cmp_from(a, b, i) <= 0,
        pre_cmp_from(b, c, i) <= 0,
    ensures
        pre_cmp_from(a, c, i) <= 0,
        pre_cmp_from(a, b, i) < 0 || pre_cmp_from(b, c, i) < 0 ==> pre_cmp_from(a, c, i) < 0,
    decreases a.len() - i,
{
    if i < a.len() && i < b.len() && i < c.len() {
        let c1 = ident_cmp(a[i], b[i]);
        let c2 = ident_cmp(b[i], c[i]);
        if c1 == 0 && c2 == 0 {
            lemma_ident_cmp_zero(a[i], b[i]);
            lemma_ident_cmp_zero(b[i], c[i]);
            lemma_ident_cmp_antisym(a[i], c[i]);
            assert(ident_cmp(a[i], c[i]) == 0);
            lemma_pre_from_trans(a, b, c, i + 1);
        } else {
            lemma_ident_cmp_trans(a[i], b[i], c[i]);
        }
    }
}

/// The version order is transitive, and a strict step anywhere keeps the
/// composition strict.
pub proof fn lemma_version_cmp_trans(a: VersionView, b: VersionView, c: VersionView)
    requires
        version_cmp(a, b) <= 0,
        version_cmp(b, c) <= 0,
    ensures
        version_cmp(a, c) <= 0,
        version_cmp(a, b) < 0 || version_cmp(b, c) < 0 ==> version_cmp(a, c) < 0,
{
    if a.major == b.major && b.major == c.major && a.minor == b.minor && b.minor == c.minor
        && a.patch == b.patch && b.patch == c.patch && a.pre.len() > 0 && b.pre.len() > 0
        && c.pre.len() > 0 {
        lemma_pre_from_trans(a.pre, b.pre, c.pre, 0);
    }
}

fn lex_cmp_exec(a: &Vec<u8>, b: &Vec<u8>) -> (r: i8)
    ensures
        r as int == lex_cmp(a@, b@),
{
    let mut i: usize = 0;
    loop
        invariant
            i <= a.len(),
            i <= b.len(),
            lex_cmp(a@, b@) == lex_cmp_from(a@, b@, i as int),
        decreases a.len() - i,
    {
        if i >= a.len() && i >= b.len() {
            return 0;
        }
        if i >= a.len() {
            return -1;
        }
        if i >= b.len() {
            return 1;
        }
        if a[i] < b[i] {
            return -1;
        }
        if a[i] > b[i] {
            return 1;
        }
        i = i + 1;
    }
}

fn is_num_ident_exec(s: &Vec<u8>) -> (r: bool)
    ensures
        r == is_num_ident(s@),
{
    if s.len() == 0 {
        return false;
    }
    let mut i: usize = 0;
    while i < s.len()
        invariant
            i <= s.len(),
            forall|j: int| 0 <= j < i ==> 48 <= #[trigger] s@[j] <= 57,
        decreases s.len() - i,
    {
        if s[i] < 48 || s[i] > 57 {
            return false;
        }
        i = i + 1;
    }
    true
}

fn ident_cmp_exec(a: &Vec<u8>, b: &Vec<u8>) -> (r: i8)
    ensures
        r as int == ident_cmp(a@, b@),
{
    let na = is_num_ident_exec(a);
    let nb = is_num_ident_exec(b);
    if na && nb {
        if a.len() < b.len() {
            -1
        } else if a.len() > b.len() {
            1
        } else {
            lex_cmp_exec(a, b)
        }
    } else if na {
        -1
    } else if nb {
        1
    } else {
        lex_cmp_exec(a, b)
    }
}

fn pre_cmp_exec(a: &Vec<Vec<u8>>, b: &Vec<Vec<u8>>) -> (r: i8)
    ensures
        r as int == pre_cmp(a.deep_view(), b.deep_view()),
{
    let ghost ga = a.deep_view();
    let ghost gb = b.deep_view();
    let mut i: usize = 0;
    loop
        invariant
            i <= a.len(),
            i <= b.len(),
            ga == a.deep_view(),
            gb == b.deep_view(),
            ga.len() == a.len(),
            gb.len() == b.len(),
            pre_cmp(ga, gb) == pre_cmp_from(ga, gb, i as int),
        decreases a.len() - i,
    {
        if i >= a.len() && i >= b.len() {
            return 0;
        }
        if i >= a.len() {
            return -1;
        }
        if i >= b.len() {
            return 1;
        }
        let c = ident_cmp_exec(&a[i], &b[i]);
        proof {
            assert(ga[i as int] =~= a@[i as int]@);
            assert(gb[i as int] =~= b@[i as int]@);
        }
        if c != 0 {
            return c;
        }
        i = i + 1;
    }
}

fn copy_bytes(v: &Vec<u8>) -> (r: Vec<u8>)
    ensures
        r@ == v@,
{
    let r = subvec(v, 0, v.len());
    proof {
        assert(r@ =~= v@);
    }
    r
}

fn copy_pre(p: &Vec<Vec<u8>>) -> (r: Vec<Vec<u8>>)
    ensures
        r.deep_view() == p.deep_view(),
{
    let mut r: Vec<Vec<u8>> = Vec::new();
    let mut i: usize = 0;
    while i < p.len()
        invariant
            i <= p.len(),
            r.len() == i,
            forall|j: int| 0 <= j < i ==> r.deep_view()[j] == p.deep_view()[j],
        decreases p.len() - i,
    {
        r.push(copy_bytes(&p[i]));
        i = i + 1;
    }
    proof {
        assert(r.deep_view() =~= p.deep_view());
    }
    r
}

impl Version {
    /// Three-way precedence comparison with another version.
    pub fn cmp_ver(&self, other: &Version) -> (r: i8)
        ensures
            r as int == version_cmp(self@, other@),
    {
        if self.major < other.major {
            return -1;
        }
        if self.major > other.major {
            return 1;
        }
        if self.minor < other.minor {
            return -1;
        }
        if self.minor > other.minor {
            return 1;
        }
        if self.patch < other.patch {
            return -1;
        }
        if self.patch > other.patch {
            return 1;
        }
        let ae = self.pre.len() == 0;
        let be = other.pre.len() == 0;
        if ae && be {
            0
        } else if be {
            -1
        } else if ae {
            1
        } else {
            pre_cmp_exec(&self.pre, &other.pre)
        }
    }

    /// A copy with the same value.
    pub fn clone_ver(&self) -> (r: Version)
        ensures
            r@ == self@,
    {
        Version {
            major: self.major,
            minor: self.minor,
            patch: self.patch,
            pre: copy_pre(&self.pre),
        }
    }
}

/// What `semver::Version::parse` recovers from a byte string: the numeric
/// triple and the raw pre-release text, a function of the input alone;
/// `None` when the text is not a valid semantic version.
pub uninterp spec fn semver_parse(s: Seq<u8>) -> Option<(u64, u64, u64, Seq<u8>)>;

/// Relies on `semver::Version::parse`: the parsed fields are a function of
/// the input text alone, and parsing fails exactly on invalid version text.
#[verifier::external_body]
fn semver_parse_bytes(s: &Vec<u8>) -> (r: Option<(u64, u64, u64, Vec<u8>)>)
    ensures
        match r {
            Some(t) => semver_parse(s@) == Some((t.0, t.1, t.2, t.3@)),
            None => semver_parse(s@) is None,
        },
{
    let text = match std::str::from_utf8(s) {
        Ok(t) => t,
        Err(_) => return None,
    };
    match semver::Version::parse(text) {
        Ok(v) => Some((v.major, v.minor, v.patch, v.pre.as_str().as_bytes().to_vec())),
        Err(_) => None,
    }
}

/// The pre-release text split on dots into its identifiers; the empty
/// text has no identifiers.
pub open spec fn split_dots(s: Seq<u8>) -> Seq<Seq<u8>> {
    if s.len() == 0 {
        Seq::empty()
    } else {
        split_dots_from(s, 0)
    }
}

/// The identifiers of `s` from position `i` on, the dots removed.
pub open spec fn split_dots_from(s: Seq<u8>, i: int) -> Seq<Seq<u8>>
    decreases s.len() - i,
    via split_dots_from_decreases
{
    if i < 0 || i > s.len() {
        Seq::empty()
    } else {
        let d = find_from(s, 46, i);
        if d >= s.len() {
            seq![s.subrange(i, s.len() as int)]
        } else {
            seq![s.subrange(i, d)] + split_dots_from(s, d + 1)
        }
    }
}

#[via_fn]
proof fn split_dots_from_decreases(s: Seq<u8>, i: int) {
    if 0 <= i && i <= s.len() {
        lemma_find_from(s, 46, i);
    }
}

/// The mathematical version a byte string denotes, if it is valid
/// semantic-version text.
pub open spec fn spec_parse_version(s: Seq<u8>) -> Option<VersionView> {
    match semver_parse(s) {
        Some(t) => Some(
            VersionView {
                major: t.0 as int,
                minor: t.1 as int,
                patch: t.2 as int,
                pre: split_dots(t.3),
            },
        ),
        None => None,
    }
}

/// Split pre-release text on dots into identifiers.
fn split_pre(s: &Vec<u8>) -> (r: Vec<Vec<u8>>)
    ensures
        r.deep_view() == split_dots(s@),
{
    let mut r: Vec<Vec<u8>> = Vec::new();
    if s.len() == 0 {
        proof {
            assert(r.deep_view() =~= split_dots(s@));
        }
        return r;
    }
    let mut i: usize = 0;
    loop
        invariant
            i <= s.len(),
            split_dots(s@) =~= r.deep_view() + split_dots_from(s@, i as int),
        decreases s.len() - i,
    {
        proof {
            lemma_find_from(s@, 46, i as int);
        }
        let d = find_byte(s, 46, i);
        let piece = subvec(s, i, d);
        let ghost prev = r.deep_view();
        r.push(piece);
        proof {
            assert(piece.deep_view() =~= piece@);
            assert(r.deep_view() =~= prev.push(piece@));
        }
        if d >= s.len() {
            proof {
                assert(split_dots_from(s@, i as int) =~= seq![piece@]);
                assert(r.deep_view() =~= split_dots(s@));
            }
            return r;
        }
        proof {
            assert(split_dots_from(s@, i as int) =~= seq![piece@] + split_dots_from(
                s@,
                d as int + 1,
            ));
            assert(split_dots(s@) =~= r.deep_view() + split_dots_from(s@, d as int + 1));
        }
        i = d + 1;
    }
}

impl Version {
    /// Parse semantic-version text into a `Version`; `None` exactly on
    /// text that is not a valid semantic version.
    pub fn parse(s: &Vec<u8>) -> (r: Option<Version>)
        ensures
            match r {
                Some(v) => spec_parse_version(s@) == Some(v@),
                None => spec_parse_version(s@) is None,
            },
    {
        match semver_parse_bytes(s) {
            None => None,
            Some((ma, mi, pa, pre)) => {
                let pre_ids = split_pre(&pre);
                Some(Version { major: ma, minor: mi, patch: pa, pre: pre_ids })
            },
        }
    }
}

} // verus!
