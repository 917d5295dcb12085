//! The installed-package manifest: single entries, the decoded
//! collection, and the document decoder.
//!
//! A manifest maps keys of the form `<name> <version> <provenance>` to
//! the list of binary names the package installed. Entries that do not
//! parse are dropped silently; a document whose top-level structure is
//! not a single `v1` table is a hard decode failure; a missing document
//! decodes to an empty collection.

use vstd::prelude::*;

use crate::source::git_token;
use crate::source::lemma_parse_source_git_no_rev;
use crate::source::lemma_parse_source_git_rev;
use crate::source::lemma_parse_source_registry;
use crate::source::spec_parse_source;
use crate::source::Source;
use crate::source::SourceKind;
use crate::source::SourceModel;
use crate::source::source_wf;
use crate::source::lemma_parse_source_no_plus;
use crate::text::find;
use crate::text::find_byte;
use crate::text::lemma_find_at;
use crate::text::lemma_find_from;
use crate::text::normalize_binary_name;
use crate::text::strip_exe;
use crate::text::subvec;
use crate::text::bytes_eq;
use crate::version::semver_parse;
use crate::version::split_dots;
use crate::version::spec_parse_version;
use crate::version::Version;
use crate::version::VersionView;

verus! {

/// One installed package: a parsed manifest entry.
#[derive(Debug)]
pub struct Command {
    pub name: Vec<u8>,
    pub version: Version,
    pub source: Source,
    /// The binary names the package installed, `.exe` suffixes stripped.
    pub list: Vec<Vec<u8>>,
}

/// The mathematical value of a `Command`.
pub struct CommandModel {
    pub name: Seq<u8>,
    pub version: VersionView,
    pub source: SourceModel,
    pub list: Seq<Seq<u8>>,
}

impl View for Command {
    type V = CommandModel;

    open spec fn view(&self) -> CommandModel {
        CommandModel {
            name: self.name@,
            version: self.version@,
            source: self.source@,
            list: self.list.deep_view(),
        }
    }
}

/// Every binary name with one trailing `.exe` suffix stripped.
pub open spec fn strip_list(l: Seq<Seq<u8>>) -> Seq<Seq<u8>> {
    l.map_values(|b: Seq<u8>| strip_exe(b))
}

/// What the entry parser recovers from a manifest key and its binary
/// list: the first space-delimited token is the name, the second must be
/// a valid semantic version, the third a parseable provenance fragment;
/// anything after a third token is ignored. `None` exactly when a token
/// is missing, the name is empty, the version is invalid, or the
/// fragment does not parse.
pub open spec fn spec_parse_entry(key: Seq<u8>, value: Seq<Seq<u8>>) -> Option<CommandModel> {
    let sp1 = find(key, 32);
    if sp1 == key.len() {
        None
    } else {
        let name = key.subrange(0, sp1);
        let rest1 = key.subrange(sp1 + 1, key.len() as int);
        let sp2 = find(rest1, 32);
        if sp2 == rest1.len() {
            None
        } else {
            let vtok = rest1.subrange(0, sp2);
            let rest2 = rest1.subrange(sp2 + 1, rest1.len() as int);
            let sp3 = find(rest2, 32);
            let stok = rest2.subrange(0, sp3);
            match spec_parse_version(vtok) {
                None => None,
                Some(vv) => match spec_parse_source(stok) {
                    None => None,
                    Some(sv) => if name.len() == 0 {
                        None
                    } else {
                        Some(
                            CommandModel {
                                name,
                                version: vv,
                                source: sv,
                                list: strip_list(value),
                            },
                        )
                    },
                },
            }
        }
    }
}

/// A key of the valid three-token shape `<name> <version> <fragment>`,
/// each token free of spaces and the name non-empty, parses exactly as
/// its version text and provenance fragment do.
pub proof fn lemma_parse_entry_shape(
    name: Seq<u8>,
    vtok: Seq<u8>,
    frag: Seq<u8>,
    value: Seq<Seq<u8>>,
)
    requires
        name.len() > 0,
        forall|i: int| 0 <= i < name.len() ==> name[i] != 32,
        forall|i: int| 0 <= i < vtok.len() ==> vtok[i] != 32,
        forall|i: int| 0 <= i < frag.len() ==> frag[i] != 32,
    ensures
        spec_parse_entry(name + seq![32u8] + vtok + seq![32u8] + frag, value) == (match (
            spec_parse_version(vtok),
            spec_parse_source(frag),
        ) {
            (Some(vv), Some(sv)) => Some(
                CommandModel { name, version: vv, source: sv, list: strip_list(value) },
            ),
            _ => None::<CommandModel>,
        }),
{
    let key = name + seq![32u8] + vtok + seq![32u8] + frag;
    assert(key[name.len() as int] == 32);
    assert forall|j: int| 0 <= j < name.len() implies key[j] != 32 by {
        assert(key[j] == name[j]);
    }
    lemma_find_at(key, 32, name.len() as int);
    let sp1 = find(key, 32);
    assert(key.subrange(0, sp1) =~= name);
    let rest1 = key.subrange(sp1 + 1, key.len() as int);
    assert(rest1 =~= vtok + seq![32u8] + frag);
    assert(rest1[vtok.len() as int] == 32);
    assert forall|j: int| 0 <= j < vtok.len() implies rest1[j] != 32 by {
        assert(rest1[j] == vtok[j]);
    }
    lemma_find_at(rest1, 32, vtok.len() as int);
    let sp2 = find(rest1, 32);
    assert(rest1.subrange(0, sp2) =~= vtok);
    let rest2 = rest1.subrange(sp2 + 1, rest1.len() as int);
    assert(rest2 =~= frag);
    assert forall|j: int| 0 <= j < rest2.len() implies rest2[j] != 32 by {
        assert(rest2[j] == frag[j]);
    }
    lemma_find_at(rest2, 32, rest2.len() as int);
    assert(rest2.subrange(0, find(rest2, 32)) =~= frag);
}

/// The bytes of the literal `registry`.
pub open spec fn registry_token() -> Seq<u8> {
    seq![114u8, 101u8, 103u8, 105u8, 115u8, 116u8, 114u8, 121u8]
}

/// For every valid registry manifest key
/// `<name> <version> (registry+<url>)` with a valid version text, the
/// parser recovers exactly the name, that version, a registry source
/// with that URL and no revision, and the normalized binary list.
pub proof fn lemma_parse_entry_registry(
    name: Seq<u8>,
    vtok: Seq<u8>,
    url: Seq<u8>,
    value: Seq<Seq<u8>>,
)
    requires
        name.len() > 0,
        forall|i: int| 0 <= i < name.len() ==> name[i] != 32,
        forall|i: int| 0 <= i < vtok.len() ==> vtok[i] != 32,
        forall|i: int| 0 <= i < url.len() ==> url[i] != 32,
    ensures
        semver_parse(vtok) matches Some(t) ==> spec_parse_entry(
            name + seq![32u8] + vtok + seq![32u8] + (seq![40u8] + registry_token() + seq![43u8]
                + url + seq![41u8]),
            value,
        ) == Some(
            CommandModel {
                name,
                version: VersionView {
                    major: t.0 as int,
                    minor: t.1 as int,
                    patch: t.2 as int,
                    pre: split_dots(t.3),
                },
                source: SourceModel { kind: SourceKind::Registry, url, commit_hash: None },
                list: strip_list(value),
            },
        ),
{
    let frag = seq![40u8] + registry_token() + seq![43u8] + url + seq![41u8];
    assert forall|k: int| 0 <= k < registry_token().len() implies registry_token()[k] != 32
        && registry_token()[k] != 43 by {
        reveal_registry_token_bytes();
    }
    assert forall|i: int| 0 <= i < frag.len() implies frag[i] != 32 by {
        if 1 <= i < 9 {
            assert(frag[i] == registry_token()[i - 1]);
        } else if 10 <= i < 10 + url.len() {
            assert(frag[i] == url[i - 10]);
        }
    }
    lemma_parse_entry_shape(name, vtok, frag, value);
    assert(registry_token().len() != git_token().len());
    lemma_parse_source_registry(registry_token(), url);
}

proof fn reveal_registry_token_bytes()
    ensures
        registry_token()[0] == 114,
        registry_token()[1] == 101,
        registry_token()[2] == 103,
        registry_token()[3] == 105,
        registry_token()[4] == 115,
        registry_token()[5] == 116,
        registry_token()[6] == 114,
        registry_token()[7] == 121,
        registry_token().len() == 8,
{
}

/// For every valid version-controlled manifest key
/// `<name> <version> (git+<url>#<rev>)` with a valid version text, the
/// parser recovers a vcs source with that URL and that revision.
pub proof fn lemma_parse_entry_git_rev(
    name: Seq<u8>,
    vtok: Seq<u8>,
    url: Seq<u8>,
    rev: Seq<u8>,
    value: Seq<Seq<u8>>,
)
    requires
        name.len() > 0,
        forall|i: int| 0 <= i < name.len() ==> name[i] != 32,
        forall|i: int| 0 <= i < vtok.len() ==> vtok[i] != 32,
        forall|i: int| 0 <= i < url.len() ==> url[i] != 32 && url[i] != 43 && url[i] != 35,
        forall|i: int| 0 <= i < rev.len() ==> rev[i] != 32,
    ensures
        semver_parse(vtok) matches Some(t) ==> spec_parse_entry(
            name + seq![32u8] + vtok + seq![32u8] + (seq![40u8] + git_token() + seq![43u8] + url
                + seq![35u8] + rev + seq![41u8]),
            value,
        ) == Some(
            CommandModel {
                name,
                version: VersionView {
                    major: t.0 as int,
                    minor: t.1 as int,
                    patch: t.2 as int,
                    pre: split_dots(t.3),
                },
                source: SourceModel { kind: SourceKind::Vcs, url, commit_hash: Some(rev) },
                list: strip_list(value),
            },
        ),
{
    let frag = seq![40u8] + git_token() + seq![43u8] + url + seq![35u8] + rev + seq![41u8];
    assert(git_token()[0] == 103 && git_token()[1] == 105 && git_token()[2] == 116);
    assert forall|i: int| 0 <= i < frag.len() implies frag[i] != 32 by {
        if 1 <= i < 4 {
            assert(frag[i] == git_token()[i - 1]);
        } else if 5 <= i < 5 + url.len() {
            assert(frag[i] == url[i - 5]);
        } else if 6 + url.len() <= i < 6 + url.len() + rev.len() {
            assert(frag[i] == rev[i - 6 - url.len()]);
        }
    }
    lemma_parse_entry_shape(name, vtok, frag, value);
    lemma_parse_source_git_rev(url, rev);
}

/// For every valid version-controlled manifest key without a revision,
/// `<name> <version> (git+<url>)`, the parser recovers a vcs source
/// with that URL and no revision.
pub proof fn lemma_parse_entry_git_no_rev(
    name: Seq<u8>,
    vtok: Seq<u8>,
    url: Seq<u8>,
    value: Seq<Seq<u8>>,
)
    requires
        name.len() > 0,
        forall|i: int| 0 <= i < name.len() ==> name[i] != 32,
        forall|i: int| 0 <= i < vtok.len() ==> vtok[i] != 32,
        forall|i: int| 0 <= i < url.len() ==> url[i] != 32 && url[i] != 43 && url[i] != 35,
    ensures
        semver_parse(vtok) matches Some(t) ==> spec_parse_entry(
            name + seq![32u8] + vtok + seq![32u8] + (seq![40u8] + git_token() + seq![43u8] + url
                + seq![41u8]),
            value,
        ) == Some(
            CommandModel {
                name,
                version: VersionView {
                    major: t.0 as int,
                    minor: t.1 as int,
                    patch: t.2 as int,
                    pre: split_dots(t.3),
                },
                source: SourceModel { kind: SourceKind::Vcs, url, commit_hash: None },
                list: strip_list(value),
            },
        ),
{
    let frag = seq![40u8] + git_token() + seq![43u8] + url + seq![41u8];
    assert(git_token()[0] == 103 && git_token()[1] == 105 && git_token()[2] == 116);
    assert forall|i: int| 0 <= i < frag.len() implies frag[i] != 32 by {
        if 1 <= i < 4 {
            assert(frag[i] == git_token()[i - 1]);
        } else if 5 <= i < 5 + url.len() {
            assert(frag[i] == url[i - 5]);
        }
    }
    lemma_parse_entry_shape(name, vtok, frag, value);
    lemma_parse_source_git_no_rev(url);
}

/// Malformed entries are rejected quietly, never fatally: a key without
/// a version token, a key without a source fragment, an invalid version
/// text, and a source fragment without `+` all parse to `None`.
pub proof fn lemma_parse_entry_malformed(
    name: Seq<u8>,
    vtok: Seq<u8>,
    frag: Seq<u8>,
    value: Seq<Seq<u8>>,
)
    requires
        name.len() > 0,
        forall|i: int| 0 <= i < name.len() ==> name[i] != 32,
        forall|i: int| 0 <= i < vtok.len() ==> vtok[i] != 32,
        forall|i: int| 0 <= i < frag.len() ==> frag[i] != 32,
    ensures
        spec_parse_entry(name, value) is None,
        spec_parse_entry(name + seq![32u8] + vtok, value) is None,
        semver_parse(vtok) is None ==> spec_parse_entry(
            name + seq![32u8] + vtok + seq![32u8] + frag,
            value,
        ) is None,
        (forall|i: int| 0 <= i < frag.len() ==> frag[i] != 43) ==> spec_parse_entry(
            name + seq![32u8] + vtok + seq![32u8] + frag,
            value,
        ) is None,
{
    lemma_find_at(name, 32, name.len() as int);
    let key2 = name + seq![32u8] + vtok;
    assert(key2[name.len() as int] == 32);
    assert forall|j: int| 0 <= j < name.len() implies key2[j] != 32 by {
        assert(key2[j] == name[j]);
    }
    lemma_find_at(key2, 32, name.len() as int);
    let rest1 = key2.subrange(name.len() as int + 1, key2.len() as int);
    assert(rest1 =~= vtok);
    lemma_find_at(rest1, 32, rest1.len() as int);
    lemma_parse_entry_shape(name, vtok, frag, value);
    if forall|i: int| 0 <= i < frag.len() ==> frag[i] != 43 {
        lemma_parse_source_no_plus(frag);
    }
}

/// Strip the `.exe` suffix from every binary name in the list.
fn normalize_list(value: &Vec<Vec<u8>>) -> (r: Vec<Vec<u8>>)
    ensures
        r.deep_view() == strip_list(value.deep_view()),
{
    let mut r: Vec<Vec<u8>> = Vec::new();
    let mut i: usize = 0;
    while i < value.len()
        invariant
            i <= value.len(),
            r.len() == i,
            forall|j: int| 0 <= j < i ==> r.deep_view()[j] == strip_exe(value.deep_view()[j]),
        decreases value.len() - i,
    {
        let b = normalize_binary_name(&value[i]);
        let ghost prev = r.deep_view();
        proof {
            assert(value@[i as int].deep_view() =~= value@[i as int]@);
            assert(b.deep_view() =~= b@);
        }
        r.push(b);
        proof {
            assert(r.deep_view() =~= prev.push(b@));
        }
        i = i + 1;
    }
    proof {
        assert(r.deep_view() =~= strip_list(value.deep_view()));
    }
    r
}

impl Command {
    /// Parse one manifest entry; `None` exactly when the key or its
    /// provenance fragment is malformed, so a bad entry is skipped
    /// rather than failing the whole decode.
    pub fn from_v1_entry(key: &Vec<u8>, value: &Vec<Vec<u8>>) -> (r: Option<Command>)
        ensures
            match r {
                Some(c) => spec_parse_entry(key@, value.deep_view()) == Some(c@) && source_wf(
                    c@.source,
                ),
                None => spec_parse_entry(key@, value.deep_view()) is None,
            },
    {
        let sp1 = find_byte(key, 32, 0);
        if sp1 == key.len() {
            return None;
        }
        proof {
            lemma_find_from(key@, 32, 0);
        }
        let name = subvec(key, 0, sp1);
        let rest1 = subvec(key, sp1 + 1, key.len());
        let sp2 = find_byte(&rest1, 32, 0);
        if sp2 == rest1.len() {
            return None;
        }
        proof {
            lemma_find_from(rest1@, 32, 0);
        }
        let vtok = subvec(&rest1, 0, sp2);
        let rest2 = subvec(&rest1, sp2 + 1, rest1.len());
        let sp3 = find_byte(&rest2, 32, 0);
        proof {
            lemma_find_from(rest2@, 32, 0);
        }
        let stok = subvec(&rest2, 0, sp3);
        let version = match Version::parse(&vtok) {
            Some(v) => v,
            None => {
                return None;
            },
        };
        let source = match Source::from(&stok) {
            Some(s) => s,
            None => {
                return None;
            },
        };
        if name.len() == 0 {
            return None;
        }
        let list = normalize_list(value);
        Some(Command { name, version, source, list })
    }
}

/// The decoded manifest document: the entries of its `v1` table.
#[derive(Debug)]
pub struct Installed {
    v1: Vec<(Vec<u8>, Vec<Vec<u8>>)>,
}

impl View for Installed {
    type V = Seq<(Seq<u8>, Seq<Seq<u8>>)>;

    closed spec fn view(&self) -> Seq<(Seq<u8>, Seq<Seq<u8>>)> {
        self.v1.deep_view()
    }
}

/// The entries from position `i` on that parse, in order, parsed.
pub open spec fn spec_commands_from(entries: Seq<(Seq<u8>, Seq<Seq<u8>>)>, i: int) -> Seq<
    CommandModel,
>
    decreases entries.len() - i,
{
    if i < 0 || i >= entries.len() {
        Seq::empty()
    } else {
        let rest = spec_commands_from(entries, i + 1);
        match spec_parse_entry(entries[i].0, entries[i].1) {
            Some(c) => seq![c] + rest,
            None => rest,
        }
    }
}

/// The entries that parse, in order, parsed; malformed entries are
/// dropped.
pub open spec fn spec_commands(entries: Seq<(Seq<u8>, Seq<Seq<u8>>)>) -> Seq<CommandModel> {
    spec_commands_from(entries, 0)
}

impl Installed {
    /// A manifest with no entries.
    pub fn empty() -> (r: Installed)
        ensures
            r@ == Seq::<(Seq<u8>, Seq<Seq<u8>>)>::empty(),
    {
        let r = Installed { v1: Vec::new() };
        proof {
            assert(r@ =~= Seq::<(Seq<u8>, Seq<Seq<u8>>)>::empty());
        }
        r
    }

    /// Parse every entry, dropping the malformed ones.
    pub fn commands(&self) -> (r: Vec<Command>)
        ensures
            r@.map_values(|c: Command| c@) == spec_commands(self@),
    {
        let mut r: Vec<Command> = Vec::new();
        let mut i: usize = 0;
        while i < self.v1.len()
            invariant
                i <= self.v1.len(),
                self@.len() == self.v1.len(),
                spec_commands(self@) =~= r@.map_values(|c: Command| c@) + spec_commands_from(
                    self@,
                    i as int,
                ),
            decreases self.v1.len() - i,
        {
            let entry = &self.v1[i];
            proof {
                assert(self@[i as int].0 =~= entry.0@);
                assert(self@[i as int].1 =~= entry.1.deep_view());
            }
            let ghost prev = r@.map_values(|c: Command| c@);
            match Command::from_v1_entry(&entry.0, &entry.1) {
                Some(c) => {
                    r.push(c);
                    proof {
                        assert(r@.map_values(|c: Command| c@) =~= prev.push(c@));
                        assert(spec_commands_from(self@, i as int) =~= seq![c@]
                            + spec_commands_from(self@, i as int + 1));
                        assert(spec_commands(self@) =~= r@.map_values(|c: Command| c@)
                            + spec_commands_from(self@, i as int + 1));
                    }
                },
                None => {
                    proof {
                        assert(spec_commands_from(self@, i as int) =~= spec_commands_from(
                            self@,
                            i as int + 1,
                        ));
                    }
                },
            }
            i = i + 1;
        }
        proof {
            assert(spec_commands_from(self@, i as int) =~= Seq::<CommandModel>::empty());
            assert(r@.map_values(|c: Command| c@) =~= spec_commands(self@));
        }
        r
    }
}

/// Why a manifest document failed to decode.
#[derive(Clone, Copy, PartialEq, Eq, Structural, Debug)]
pub enum DecodeError {
    /// The bytes are not a well-formed structured document.
    Syntax,
    /// The document is well formed but is not a single `v1` table.
    Schema,
}

/// The bytes of the schema tag `v1`.
pub open spec fn v1_key() -> Seq<u8> {
    seq![118u8, 49u8]
}

/// What a structured-document parse of manifest bytes yields: the tables
/// of the document as key-value lists in key order, a function of the
/// bytes alone; `None` when the bytes are not a well-formed document of
/// string-list tables.
pub uninterp spec fn toml_v1_doc(s: Seq<u8>) -> Option<
    Seq<(Seq<u8>, Seq<(Seq<u8>, Seq<Seq<u8>>)>)>,
>;

/// Relies on `toml::from_str`, deserializing into ordered maps of
/// string lists: the document a byte string denotes is a function of
/// the bytes alone.
#[verifier::external_body]
fn parse_toml_doc(bytes: &Vec<u8>) -> (r: Option<Vec<(Vec<u8>, Vec<(Vec<u8>, Vec<Vec<u8>>)>)>>)
    ensures
        r.deep_view() == toml_v1_doc(bytes@),
{
    let text = std::str::from_utf8(bytes).ok()?;
    let doc: std::collections::BTreeMap<String, std::collections::BTreeMap<String, Vec<String>>> =
        toml::from_str(text).ok()?;
    Some(doc.into_iter().map(|(k, t)| (k.into_bytes(),
        t.into_iter().map(|(bk, bs)| (bk.into_bytes(),
            bs.into_iter().map(String::into_bytes).collect())).collect())).collect())
}

/// A well-formed document is exactly one table tagged `v1`.
pub open spec fn spec_doc_ok(doc: Seq<(Seq<u8>, Seq<(Seq<u8>, Seq<Seq<u8>>)>)>) -> bool {
    doc.len() == 1 && doc[0].0 == v1_key()
}

/// Check the schema of a parsed document and take its `v1` table.
pub fn installed_from_doc(doc: Vec<(Vec<u8>, Vec<(Vec<u8>, Vec<Vec<u8>>)>)>) -> (r: Result<
    Installed,
    DecodeError,
>)
    ensures
        match r {
            Ok(inst) => spec_doc_ok(doc.deep_view()) && inst@ == doc.deep_view()[0].1,
            Err(e) => !spec_doc_ok(doc.deep_view()) && e == DecodeError::Schema,
        },
{
    let ghost gdoc = doc.deep_view();
    if doc.len() != 1 {
        return Err(DecodeError::Schema);
    }
    let mut d = doc;
    match d.pop() {
        Some((k, table)) => {
            proof {
                assert(gdoc[0].0 =~= k@);
                assert(gdoc[0].1 =~= table.deep_view());
            }
            let mut tag: Vec<u8> = Vec::new();
            tag.push(118);
            tag.push(49);
            proof {
                assert(tag@ =~= v1_key());
            }
            if bytes_eq(&k, &tag) {
                let inst = Installed { v1: table };
                Ok(inst)
            } else {
                Err(DecodeError::Schema)
            }
        },
        None => {
            // unreachable: the document holds exactly one table
            Err(DecodeError::Schema)
        },
    }
}

/// The view of an optional document: the bytes when one is present.
pub open spec fn spec_content(c: Option<&Vec<u8>>) -> Option<Seq<u8>> {
    match c {
        Some(b) => Some(b@),
        None => None,
    }
}

/// What decoding optional manifest bytes yields: no document decodes to
/// no entries; an unparseable document is a syntax error; a document
/// that is not a single `v1` table is a schema error; otherwise the
/// entries of the `v1` table.
pub open spec fn spec_decode_manifest(content: Option<Seq<u8>>) -> Result<
    Seq<(Seq<u8>, Seq<Seq<u8>>)>,
    DecodeError,
> {
    match content {
        None => Ok(Seq::empty()),
        Some(s) => match toml_v1_doc(s) {
            None => Err(DecodeError::Syntax),
            Some(doc) => if spec_doc_ok(doc) {
                Ok(doc[0].1)
            } else {
                Err(DecodeError::Schema)
            },
        },
    }
}

/// Decode one optional manifest document. A missing document (`None`)
/// is an empty package collection, not an error; malformed top-level
/// structure is a hard failure.
pub fn decode_manifest(content: Option<&Vec<u8>>) -> (r: Result<Installed, DecodeError>)
    ensures
        match r {
            Ok(inst) => spec_decode_manifest(spec_content(content)) == Ok::<_, DecodeError>(
                inst@,
            ),
            Err(e) => spec_decode_manifest(spec_content(content)) == Err::<
                Seq<(Seq<u8>, Seq<Seq<u8>>)>,
                _,
            >(e),
        },
{
    match content {
        None => Ok(Installed::empty()),
        Some(bytes) => match parse_toml_doc(bytes) {
            None => Err(DecodeError::Syntax),
            Some(doc) => installed_from_doc(doc),
        },
    }
}

/// Decode the global and the local manifest and merge their packages,
/// global first. Either manifest may be absent; a hard decode failure
/// of the global manifest is reported first.
pub fn get_installed_commands(global: Option<&Vec<u8>>, local: Option<&Vec<u8>>) -> (r: Result<
    Vec<Command>,
    DecodeError,
>)
    ensures
        match r {
            Ok(cmds) => {
                &&& spec_decode_manifest(spec_content(global)) matches Ok(ge)
                &&& spec_decode_manifest(spec_content(local)) matches Ok(le)
                &&& cmds@.map_values(|c: Command| c@) == spec_commands(ge) + spec_commands(le)
            },
            Err(e) => spec_decode_manifest(spec_content(global)) == Err::<
                Seq<(Seq<u8>, Seq<Seq<u8>>)>,
                _,
            >(e) || (spec_decode_manifest(spec_content(global)) is Ok && spec_decode_manifest(
                spec_content(local),
            ) == Err::<Seq<(Seq<u8>, Seq<Seq<u8>>)>, _>(e)),
        },
{
    let g = match decode_manifest(global) {
        Ok(inst) => inst,
        Err(e) => {
            return Err(e);
        },
    };
    let l = match decode_manifest(local) {
        Ok(inst) => inst,
        Err(e) => {
            return Err(e);
        },
    };
    let mut cmds = g.commands();
    let ghost gc = cmds@.map_values(|c: Command| c@);
    let mut lc = l.commands();
    let ghost lcg = lc@.map_values(|c: Command| c@);
    cmds.append(&mut lc);
    proof {
        assert(cmds@.map_values(|c: Command| c@) =~= gc + lcg);
    }
    Ok(cmds)
}

/// The shape a remote index reports for one package: the package
/// object and its published versions.
pub struct CratesIoEntry {
    pub cargo_crate: CratesIoCrate,
    pub versions: Vec<CratesIoVersion>,
}

/// The package object of a remote index response.
pub struct CratesIoCrate {
    /// The name as the index spells it.
    pub name: Vec<u8>,
}

/// One published version in a remote index response.
pub struct CratesIoVersion {
    pub num: Version,
}

impl CratesIoEntry {
    /// The published version numbers, in the order the index reports
    /// them.
    pub fn version_list(&self) -> (r: Vec<Version>)
        ensures
            r@.map_values(|v: Version| v@) == self.versions@.map_values(
                |cv: CratesIoVersion| cv.num@,
            ),
    {
        let mut r: Vec<Version> = Vec::new();
        let mut i: usize = 0;
        while i < self.versions.len()
            invariant
                i <= self.versions.len(),
                r.len() == i,
                forall|j: int| 0 <= j < i ==> #[trigger] r@[j]@ == self.versions@[j].num@,
            decreases self.versions.len() - i,
        {
            r.push(self.versions[i].num.clone_ver());
            i = i + 1;
        }
        proof {
            assert(r@.map_values(|v: Version| v@) =~= self.versions@.map_values(
                |cv: CratesIoVersion| cv.num@,
            ));
        }
        r
    }
}

} // verus!
