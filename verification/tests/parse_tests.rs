use upstall::manifest::Command;
use upstall::manifest::DecodeError;
use upstall::manifest::Installed;
use upstall::manifest::decode_manifest;
use upstall::manifest::get_installed_commands;
use upstall::source::Source;
use upstall::source::SourceKind;
use upstall::text::normalize_binary_name;
use upstall::version::Version;

fn bytes(s: &str) -> Vec<u8> {
    s.as_bytes().to_vec()
}

fn bin_list(names: &[&str]) -> Vec<Vec<u8>> {
    names.iter().map(|n| bytes(n)).collect()
}

#[test]
fn parse_entry_registry_key() {
    let key = bytes("cargo-upstall 0.1.4 (registry+https://github.com/rust-lang/crates.io-index)");
    let value = bin_list(&["cargo-upstall.exe"]);
    let cmd = Command::from_v1_entry(&key, &value).unwrap();
    assert_eq!(cmd.name, bytes("cargo-upstall"));
    assert_eq!(cmd.version.major, 0);
    assert_eq!(cmd.version.minor, 1);
    assert_eq!(cmd.version.patch, 4);
    assert!(cmd.version.pre.is_empty());
    assert!(matches!(cmd.source.kind, SourceKind::Registry));
    assert_eq!(cmd.source.url, bytes("https://github.com/rust-lang/crates.io-index"));
    assert!(cmd.source.commit_hash.is_none());
    assert_eq!(cmd.list, vec![bytes("cargo-upstall")]);
}

#[test]
fn parse_entry_git_key_with_revision() {
    let key = bytes("tool 1.2.3 (git+https://example.org/repo.git#abcdef123)");
    let value = bin_list(&["tool"]);
    let cmd = Command::from_v1_entry(&key, &value).unwrap();
    assert_eq!(cmd.name, bytes("tool"));
    assert!(matches!(cmd.source.kind, SourceKind::Vcs));
    assert_eq!(cmd.source.url, bytes("https://example.org/repo.git"));
    assert_eq!(cmd.source.commit_hash, Some(bytes("abcdef123")));
}

#[test]
fn parse_entry_git_key_without_revision() {
    let key = bytes("tool 1.2.3 (git+https://example.org/repo.git)");
    let value = bin_list(&["tool"]);
    let cmd = Command::from_v1_entry(&key, &value).unwrap();
    assert!(matches!(cmd.source.kind, SourceKind::Vcs));
    assert_eq!(cmd.source.url, bytes("https://example.org/repo.git"));
    assert!(cmd.source.commit_hash.is_none());
}

#[test]
fn parse_entry_missing_version_token() {
    let value = bin_list(&["x"]);
    assert!(Command::from_v1_entry(&bytes("toolonly"), &value).is_none());
}

#[test]
fn parse_entry_unparseable_version() {
    let value = bin_list(&["x"]);
    let key = bytes("tool notaversion (registry+https://example.org)");
    assert!(Command::from_v1_entry(&key, &value).is_none());
}

#[test]
fn parse_entry_missing_source_fragment() {
    let value = bin_list(&["x"]);
    assert!(Command::from_v1_entry(&bytes("tool 1.0.0"), &value).is_none());
}

#[test]
fn parse_entry_source_without_plus() {
    let value = bin_list(&["x"]);
    let key = bytes("tool 1.0.0 (registryhttps://example.org)");
    assert!(Command::from_v1_entry(&key, &value).is_none());
}

#[test]
fn parse_entry_ignores_tokens_after_the_third() {
    let key = bytes("tool 1.0.0 (registry+https://example.org) trailing junk");
    let cmd = Command::from_v1_entry(&key, &bin_list(&["tool"])).unwrap();
    assert_eq!(cmd.name, bytes("tool"));
    assert_eq!(cmd.source.url, bytes("https://example.org"));
}

#[test]
fn parse_entry_rejects_empty_name() {
    let key = bytes(" 1.0.0 (registry+https://example.org)");
    assert!(Command::from_v1_entry(&key, &bin_list(&["x"])).is_none());
}

#[test]
fn source_from_unknown_kind_is_registry() {
    let s = Source::from(&bytes("(path+/usr/local/src/tool)")).unwrap();
    assert!(matches!(s.kind, SourceKind::Registry));
    assert_eq!(s.url, bytes("/usr/local/src/tool"));
    assert!(s.commit_hash.is_none());
}

#[test]
fn normalize_strips_exe_and_is_idempotent() {
    let once = normalize_binary_name(&bytes("foo.exe"));
    assert_eq!(once, bytes("foo"));
    let twice = normalize_binary_name(&once);
    assert_eq!(twice, bytes("foo"));
}

#[test]
fn source_from_registry_fragment() {
    let s = Source::from(&bytes("(registry+https://example.org/index)")).unwrap();
    assert!(matches!(s.kind, SourceKind::Registry));
    assert_eq!(s.url, bytes("https://example.org/index"));
    assert!(s.commit_hash.is_none());
}

#[test]
fn source_from_tolerates_missing_parens() {
    let s = Source::from(&bytes("registry+https://example.org/index")).unwrap();
    assert!(matches!(s.kind, SourceKind::Registry));
    assert_eq!(s.url, bytes("https://example.org/index"));
}

#[test]
fn source_from_rejects_fragment_without_plus() {
    assert!(Source::from(&bytes("(registry)")).is_none());
}

#[test]
fn source_registry_keeps_rest_after_first_plus() {
    let s = Source::from(&bytes("(registry+https://example.org/a+b)")).unwrap();
    assert_eq!(s.url, bytes("https://example.org/a+b"));
}

#[test]
fn version_parse_release() {
    let v = Version::parse(&bytes("1.2.3")).unwrap();
    assert_eq!((v.major, v.minor, v.patch), (1, 2, 3));
    assert!(v.pre.is_empty());
}

#[test]
fn version_parse_prerelease_identifiers() {
    let v = Version::parse(&bytes("1.2.3-alpha.1")).unwrap();
    assert_eq!(v.pre, vec![bytes("alpha"), bytes("1")]);
}

#[test]
fn version_parse_rejects_invalid_text() {
    assert!(Version::parse(&bytes("nope")).is_none());
    assert!(Version::parse(&bytes("")).is_none());
    assert!(Version::parse(&bytes("1.2")).is_none());
}

#[test]
fn version_order_prerelease_below_release() {
    let rel = Version::parse(&bytes("1.0.0")).unwrap();
    let pre = Version::parse(&bytes("1.0.0-alpha")).unwrap();
    assert_eq!(pre.cmp_ver(&rel), -1);
    assert_eq!(rel.cmp_ver(&pre), 1);
}

#[test]
fn version_order_numeric_identifiers() {
    let two = Version::parse(&bytes("1.0.0-2")).unwrap();
    let ten = Version::parse(&bytes("1.0.0-10")).unwrap();
    assert_eq!(two.cmp_ver(&ten), -1);
    let alpha = Version::parse(&bytes("1.0.0-alpha")).unwrap();
    assert_eq!(ten.cmp_ver(&alpha), -1);
}

#[test]
fn version_order_identifier_lists() {
    let a = Version::parse(&bytes("1.0.0-alpha")).unwrap();
    let a1 = Version::parse(&bytes("1.0.0-alpha.1")).unwrap();
    let b = Version::parse(&bytes("1.0.0-beta")).unwrap();
    assert_eq!(a.cmp_ver(&a1), -1);
    assert_eq!(a1.cmp_ver(&b), -1);
    assert_eq!(a.cmp_ver(&a), 0);
}

#[test]
fn decode_missing_manifest_is_empty() {
    let inst = decode_manifest(None).unwrap();
    assert!(inst.commands().is_empty());
}

#[test]
fn decode_valid_manifest() {
    let doc = bytes("[v1]\n\"a 1.0.0 (registry+https://example.org)\" = [\"a.exe\"]\n");
    let inst = decode_manifest(Some(&doc)).unwrap();
    let cmds = inst.commands();
    assert_eq!(cmds.len(), 1);
    assert_eq!(cmds[0].name, bytes("a"));
    assert_eq!(cmds[0].list, vec![bytes("a")]);
}

#[test]
fn decode_drops_bad_entries() {
    let doc = bytes(
        "[v1]\n\"badkey\" = [\"x\"]\n\"b 1.0.0 (registry+https://example.org)\" = [\"b\"]\n",
    );
    let inst = decode_manifest(Some(&doc)).unwrap();
    let cmds = inst.commands();
    assert_eq!(cmds.len(), 1);
    assert_eq!(cmds[0].name, bytes("b"));
}

#[test]
fn decode_rejects_malformed_document() {
    let doc = bytes("= not a document");
    assert_eq!(decode_manifest(Some(&doc)).unwrap_err(), DecodeError::Syntax);
}

#[test]
fn decode_rejects_wrong_schema() {
    let doc = bytes("[v2]\n");
    assert_eq!(decode_manifest(Some(&doc)).unwrap_err(), DecodeError::Schema);
    let two = bytes("[v1]\n[v2]\n");
    assert_eq!(decode_manifest(Some(&two)).unwrap_err(), DecodeError::Schema);
}

#[test]
fn installed_empty_has_no_commands() {
    assert!(Installed::empty().commands().is_empty());
}

#[test]
fn merged_manifests_concatenate_global_then_local() {
    let global = bytes("[v1]\n\"g 1.0.0 (registry+https://example.org)\" = [\"g\"]\n");
    let local = bytes("[v1]\n\"l 2.0.0 (registry+https://example.org)\" = [\"l\"]\n");
    let cmds = get_installed_commands(Some(&global), Some(&local)).unwrap();
    assert_eq!(cmds.len(), 2);
    assert_eq!(cmds[0].name, bytes("g"));
    assert_eq!(cmds[1].name, bytes("l"));
}

#[test]
fn merged_manifests_tolerate_absence() {
    let cmds = get_installed_commands(None, None).unwrap();
    assert!(cmds.is_empty());
}

#[test]
fn merged_manifests_propagate_global_failure() {
    let bad = bytes("= bad");
    assert_eq!(get_installed_commands(Some(&bad), None).unwrap_err(), DecodeError::Syntax);
}
