//! The provenance fragment of a manifest key: `(registry+URL)` or
//! `(git+URL#REV)`, decoded into a closed descriptor.

use vstd::prelude::*;

use crate::text::find;
use crate::text::find_byte;
use crate::text::lemma_find_at;
use crate::text::lemma_find_from;
use crate::text::subvec;

verus! {

/// Where an installed package came from: a registry, or a
/// version-controlled repository (encoded literally as `git`).
#[derive(Clone, Copy, PartialEq, Eq, Structural, Debug)]
pub enum SourceKind {
    Registry,
    Vcs,
}

/// Provenance of an installed package.
#[derive(Debug)]
pub struct Source {
    pub kind: SourceKind,
    /// The origin URL or equivalent location identifier.
    pub url: Vec<u8>,
    /// The pinned revision; present only for a version-controlled source.
    pub commit_hash: Option<Vec<u8>>,
}

/// The mathematical value of a `Source`.
pub struct SourceModel {
    pub kind: SourceKind,
    pub url: Seq<u8>,
    pub commit_hash: Option<Seq<u8>>,
}

impl View for Source {
    type V = SourceModel;

    open spec fn view(&self) -> SourceModel {
        SourceModel {
            kind: self.kind,
            url: self.url@,
            commit_hash: self.commit_hash.deep_view(),
        }
    }
}

/// A descriptor is well formed when a registry source carries no revision.
pub open spec fn source_wf(s: SourceModel) -> bool {
    s.kind == SourceKind::Registry ==> s.commit_hash is None
}

/// The fragment with one leading `(` and one trailing `)` removed, each
/// only if present.
pub open spec fn spec_trim_parens(s: Seq<u8>) -> Seq<u8> {
    let t = if s.len() > 0 && s[0] == 40 {
        s.subrange(1, s.len() as int)
    } else {
        s
    };
    if t.len() > 0 && t[t.len() - 1] == 41 {
        t.subrange(0, t.len() - 1)
    } else {
        t
    }
}

/// The bytes of the literal `git`.
pub open spec fn git_token() -> Seq<u8> {
    seq![103u8, 105u8, 116u8]
}

/// What the source-descriptor parser recovers from a provenance fragment:
/// after trimming parentheses, the text up to the first `+` names the
/// kind and the rest is the origin; for the `git` kind the origin is
/// further split at the first `#` into URL and revision. `None` exactly
/// when no `+` is present.
pub open spec fn spec_parse_source(s: Seq<u8>) -> Option<SourceModel> {
    let t = spec_trim_parens(s);
    let plus = find(t, 43);
    if plus == t.len() {
        None
    } else {
        let kind = t.subrange(0, plus);
        let rest = t.subrange(plus + 1, t.len() as int);
        if kind == git_token() {
            let h = find(rest, 35);
            if h == rest.len() {
                Some(SourceModel { kind: SourceKind::Vcs, url: rest, commit_hash: None })
            } else {
                Some(
                    SourceModel {
                        kind: SourceKind::Vcs,
                        url: rest.subrange(0, h),
                        commit_hash: Some(rest.subrange(h + 1, rest.len() as int)),
                    },
                )
            }
        } else {
            Some(SourceModel { kind: SourceKind::Registry, url: rest, commit_hash: None })
        }
    }
}

/// Whatever the parser returns is well formed.
pub proof fn lemma_parse_source_wf(s: Seq<u8>)
    ensures
        spec_parse_source(s) matches Some(m) ==> source_wf(m),
{
}

impl Source {
    /// Parse the provenance fragment of a manifest key; `None` exactly
    /// when the fragment holds no `+` separator.
    pub fn from(url: &Vec<u8>) -> (r: Option<Source>)
        ensures
            match r {
                Some(s) => spec_parse_source(url@) == Some(s@) && source_wf(s@),
                None => spec_parse_source(url@) is None,
            },
    {
        let n = url.len();
        let start: usize = if n > 0 && url[0] == 40 {
            1
        } else {
            0
        };
        let end: usize = if n > start && url[n - 1] == 41 {
            n - 1
        } else {
            n
        };
        let t = subvec(url, start, end);
        proof {
            assert(t@ =~= spec_trim_parens(url@));
        }
        let plus = find_byte(&t, 43, 0);
        if plus == t.len() {
            return None;
        }
        proof {
            lemma_find_from(t@, 43, 0);
        }
        let kind_tok = subvec(&t, 0, plus);
        let rest = subvec(&t, plus + 1, t.len());
        let is_git = kind_tok.len() == 3 && kind_tok[0] == 103 && kind_tok[1] == 105
            && kind_tok[2] == 116;
        proof {
            if is_git {
                assert(kind_tok@ =~= git_token());
            }
        }
        if is_git {
            let h = find_byte(&rest, 35, 0);
            if h == rest.len() {
                Some(Source { kind: SourceKind::Vcs, url: rest, commit_hash: None })
            } else {
                proof {
                    lemma_find_from(rest@, 35, 0);
                }
                let u = subvec(&rest, 0, h);
                let hash = subvec(&rest, h + 1, rest.len());
                proof {
                    assert(hash.deep_view() =~= hash@);
                }
                Some(Source { kind: SourceKind::Vcs, url: u, commit_hash: Some(hash) })
            }
        } else {
            Some(Source { kind: SourceKind::Registry, url: rest, commit_hash: None })
        }
    }
}

/// A registry fragment `(<kind>+<rest>)` whose kind token holds no `+`
/// and is not `git` parses to a registry descriptor with the whole rest,
/// however many `+` or `#` it holds, as the origin.
pub proof fn lemma_parse_source_registry(kind: Seq<u8>, rest: Seq<u8>)
    requires
        forall|i: int| 0 <= i < kind.len() ==> kind[i] != 43,
        kind != git_token(),
    ensures
        spec_parse_source(seq![40u8] + kind + seq![43u8] + rest + seq![41u8]) == Some(
            SourceModel { kind: SourceKind::Registry, url: rest, commit_hash: None },
        ),
{
    let s = seq![40u8] + kind + seq![43u8] + rest + seq![41u8];
    let t = spec_trim_parens(s);
    assert(t =~= kind + seq![43u8] + rest);
    lemma_find_at(t, 43, kind.len() as int);
    assert(t.subrange(0, kind.len() as int) =~= kind);
    assert(t.subrange(kind.len() as int + 1, t.len() as int) =~= rest);
}

/// A fragment `(git+<u>#<rev>)` whose URL part holds no `+` and no `#`
/// parses to a version-controlled descriptor with that URL and revision;
/// the revision is everything after the first `#`.
pub proof fn lemma_parse_source_git_rev(u: Seq<u8>, rev: Seq<u8>)
    requires
        forall|i: int| 0 <= i < u.len() ==> u[i] != 43 && u[i] != 35,
    ensures
        spec_parse_source(seq![40u8] + git_token() + seq![43u8] + u + seq![35u8] + rev + seq![41u8])
            == Some(
            SourceModel { kind: SourceKind::Vcs, url: u, commit_hash: Some(rev) },
        ),
{
    let s = seq![40u8] + git_token() + seq![43u8] + u + seq![35u8] + rev + seq![41u8];
    let t = spec_trim_parens(s);
    assert(t =~= git_token() + seq![43u8] + u + seq![35u8] + rev);
    lemma_find_at(t, 43, 3);
    assert(t.subrange(0, 3) =~= git_token());
    let rest = t.subrange(4, t.len() as int);
    assert(rest =~= u + seq![35u8] + rev);
    lemma_find_at(rest, 35, u.len() as int);
    assert(rest.subrange(0, u.len() as int) =~= u);
    assert(rest.subrange(u.len() as int + 1, rest.len() as int) =~= rev);
}

/// A fragment `(git+<u>)` whose URL holds no `+` and no `#` parses to a
/// version-controlled descriptor with no revision.
pub proof fn lemma_parse_source_git_no_rev(u: Seq<u8>)
    requires
        forall|i: int| 0 <= i < u.len() ==> u[i] != 43 && u[i] != 35,
    ensures
        spec_parse_source(seq![40u8] + git_token() + seq![43u8] + u + seq![41u8]) == Some(
            SourceModel { kind: SourceKind::Vcs, url: u, commit_hash: None },
        ),
{
    let s = seq![40u8] + git_token() + seq![43u8] + u + seq![41u8];
    let t = spec_trim_parens(s);
    assert(t =~= git_token() + seq![43u8] + u);
    lemma_find_at(t, 43, 3);
    assert(t.subrange(0, 3) =~= git_token());
    let rest = t.subrange(4, t.len() as int);
    assert(rest =~= u);
    lemma_find_at(rest, 35, rest.len() as int);
}

/// A fragment without a `+` is rejected.
pub proof fn lemma_parse_source_no_plus(s: Seq<u8>)
    requires
        forall|i: int| 0 <= i < s.len() ==> s[i] != 43,
    ensures
        spec_parse_source(s) is None,
{
    let t = spec_trim_parens(s);
    assert(forall|i: int| 0 <= i < t.len() ==> t[i] != 43);
    lemma_find_at(t, 43, t.len() as int);
}

} // verus!
