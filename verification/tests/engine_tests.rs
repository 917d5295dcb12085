use upstall::engine::Action;
use upstall::engine::CheckStep;
use upstall::engine::DecisionError;
use upstall::engine::FetchError;
use upstall::engine::check_version;
use upstall::engine::get_max_version;
use upstall::engine::resolve_with_remote;
use upstall::manifest::Command;
use upstall::manifest::CratesIoCrate;
use upstall::manifest::CratesIoEntry;
use upstall::manifest::CratesIoVersion;
use upstall::source::Source;
use upstall::source::SourceKind;
use upstall::version::Version;

fn bytes(s: &str) -> Vec<u8> {
    s.as_bytes().to_vec()
}

fn ver(s: &str) -> Version {
    Version::parse(&bytes(s)).unwrap()
}

fn registry_cmd(name: &str, version: &str) -> Command {
    Command {
        name: bytes(name),
        version: ver(version),
        source: Source {
            kind: SourceKind::Registry,
            url: bytes("https://example.org/index"),
            commit_hash: None,
        },
        list: vec![bytes(name)],
    }
}

fn vcs_cmd(name: &str, version: &str) -> Command {
    Command {
        name: bytes(name),
        version: ver(version),
        source: Source {
            kind: SourceKind::Vcs,
            url: bytes("https://example.org/repo.git"),
            commit_hash: Some(bytes("abcdef123")),
        },
        list: vec![bytes(name)],
    }
}

fn expect_install(step: CheckStep) -> (bool, Option<Version>) {
    match step {
        CheckStep::Done(Action::Install { force, version }) => (force, version),
        _ => panic!("expected an install decision"),
    }
}

#[test]
fn vcs_source_always_reinstalls_without_fetch() {
    let cmd = vcs_cmd("tool", "1.0.0");
    let (force, version) = expect_install(check_version(&cmd, &None));
    assert!(force);
    assert!(version.is_none());
    let ceiling = Some(ver("9.9.9"));
    let (force2, version2) = expect_install(check_version(&cmd, &ceiling));
    assert!(force2);
    assert!(version2.is_none());
}

#[test]
fn bounded_at_or_above_ceiling_does_nothing() {
    let cmd = registry_cmd("tool", "2.0.0");
    let ceiling = Some(ver("1.5.0"));
    assert!(matches!(check_version(&cmd, &ceiling), CheckStep::Done(Action::Nothing)));
}

#[test]
fn bounded_exactly_at_ceiling_does_nothing() {
    let cmd = registry_cmd("tool", "1.5.0");
    let ceiling = Some(ver("1.5.0"));
    assert!(matches!(check_version(&cmd, &ceiling), CheckStep::Done(Action::Nothing)));
}

#[test]
fn bounded_below_ceiling_pins_to_ceiling() {
    let cmd = registry_cmd("tool", "1.0.0");
    let ceiling = Some(ver("1.5.0"));
    let (force, version) = expect_install(check_version(&cmd, &ceiling));
    assert!(force);
    let pinned = version.unwrap();
    assert_eq!(pinned.cmp_ver(&ver("1.5.0")), 0);
}

#[test]
fn unbounded_registry_requires_fetch() {
    let cmd = registry_cmd("tool", "1.0.0");
    assert!(matches!(check_version(&cmd, &None), CheckStep::FetchRemote));
}

#[test]
fn unbounded_upgrade_to_newest() {
    let cmd = registry_cmd("tool", "1.0.0");
    let remote = vec![ver("1.0.0"), ver("1.2.0"), ver("0.9.0")];
    let action = resolve_with_remote(&cmd, Ok(remote)).unwrap();
    match action {
        Action::Install { force, version } => {
            assert!(force);
            assert_eq!(version.unwrap().cmp_ver(&ver("1.2.0")), 0);
        },
        Action::Nothing => panic!("expected an upgrade"),
    }
}

#[test]
fn unbounded_already_latest_does_nothing() {
    let cmd = registry_cmd("tool", "1.2.0");
    let remote = vec![ver("1.0.0"), ver("1.2.0")];
    assert!(matches!(resolve_with_remote(&cmd, Ok(remote)).unwrap(), Action::Nothing));
}

#[test]
fn unbounded_prerelease_does_not_outrank_release() {
    let cmd = registry_cmd("tool", "1.2.0");
    let remote = vec![ver("1.2.0"), ver("1.2.0-rc.1")];
    assert!(matches!(resolve_with_remote(&cmd, Ok(remote)).unwrap(), Action::Nothing));
}

#[test]
fn unbounded_empty_remote_set_is_an_error() {
    let cmd = registry_cmd("tool", "1.0.0");
    let action = resolve_with_remote(&cmd, Ok(vec![]));
    assert!(matches!(action, Err(DecisionError::NoVersions)));
}

#[test]
fn fetch_failure_propagates_its_cause() {
    let cmd = registry_cmd("tool", "1.0.0");
    let failure = FetchError { message: bytes("index unreachable") };
    match resolve_with_remote(&cmd, Err(failure)) {
        Err(DecisionError::Fetch(e)) => assert_eq!(e.message, bytes("index unreachable")),
        _ => panic!("expected the fetch error back"),
    }
}

#[test]
fn max_version_without_bound_picks_newest() {
    let versions = vec![ver("1.0.0"), ver("2.0.0"), ver("1.5.0")];
    let m = get_max_version(&versions, &None).unwrap();
    assert_eq!(m.cmp_ver(&ver("2.0.0")), 0);
}

#[test]
fn max_version_respects_bound() {
    let versions = vec![ver("1.0.0"), ver("2.0.0"), ver("1.5.0")];
    let m = get_max_version(&versions, &Some(ver("1.6.0"))).unwrap();
    assert_eq!(m.cmp_ver(&ver("1.5.0")), 0);
}

#[test]
fn max_version_none_when_all_above_bound() {
    let versions = vec![ver("2.0.0"), ver("3.0.0")];
    assert!(get_max_version(&versions, &Some(ver("1.0.0"))).is_none());
}

#[test]
fn max_version_of_empty_list_is_none() {
    assert!(get_max_version(&vec![], &None).is_none());
}

#[test]
fn crates_io_entry_lists_its_version_numbers() {
    let entry = CratesIoEntry {
        cargo_crate: CratesIoCrate { name: bytes("tool") },
        versions: vec![
            CratesIoVersion { num: ver("1.0.0") },
            CratesIoVersion { num: ver("1.2.0") },
        ],
    };
    let nums = entry.version_list();
    assert_eq!(nums.len(), 2);
    assert_eq!(nums[0].cmp_ver(&ver("1.0.0")), 0);
    assert_eq!(nums[1].cmp_ver(&ver("1.2.0")), 0);
}
