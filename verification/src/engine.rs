//! The version-resolution decision engine.
//!
//! Given one installed package and an optional ceiling, the engine
//! decides the action to take. A version-controlled install is always
//! refreshed. With a ceiling, the installed version is compared against
//! it and the remote index is never consulted. Without one, the newest
//! published version decides; the caller performs the single remote
//! fetch and hands the outcome back.

use vstd::prelude::*;

use crate::manifest::Command;
use crate::source::SourceKind;
use crate::version::lemma_version_cmp_antisym;
use crate::version::lemma_version_cmp_refl;
use crate::version::lemma_version_cmp_trans;
use crate::version::version_cmp;
use crate::version::Version;
use crate::version::VersionView;

verus! {

/// The decision output: reinstall, possibly forced and possibly pinned
/// to a version, or nothing to do.
pub enum Action {
    Install { force: bool, version: Option<Version> },
    Nothing,
}

/// The mathematical value of an `Action`.
pub enum ActionModel {
    Install { force: bool, version: Option<VersionView> },
    Nothing,
}

impl View for Action {
    type V = ActionModel;

    open spec fn view(&self) -> ActionModel {
        match self {
            Action::Install { force, version } => ActionModel::Install {
                force: *force,
                version: version.deep_view(),
            },
            Action::Nothing => ActionModel::Nothing,
        }
    }
}

/// A failed remote fetch, as the caller reports it.
#[derive(Debug)]
pub struct FetchError {
    pub message: Vec<u8>,
}

impl View for FetchError {
    type V = Seq<u8>;

    open spec fn view(&self) -> Seq<u8> {
        self.message@
    }
}

/// Why the decision could not be made.
#[derive(Debug)]
pub enum DecisionError {
    /// The remote fetch failed; carries the underlying cause.
    Fetch(FetchError),
    /// The fetch succeeded but the index reports no published versions.
    NoVersions,
}

/// The mathematical value of a `DecisionError`.
pub enum DecisionModel {
    Fetch(Seq<u8>),
    NoVersions,
}

impl View for DecisionError {
    type V = DecisionModel;

    open spec fn view(&self) -> DecisionModel {
        match self {
            DecisionError::Fetch(e) => DecisionModel::Fetch(e@),
            DecisionError::NoVersions => DecisionModel::NoVersions,
        }
    }
}

/// What the local stage of the decision yields: either a final action,
/// or the instruction to fetch the package's published versions and
/// resolve with them.
pub enum CheckStep {
    Done(Action),
    FetchRemote,
}

/// Whether a version respects an optional ceiling.
pub open spec fn within_bound(v: VersionView, max: Option<VersionView>) -> bool {
    match max {
        None => true,
        Some(m) => version_cmp(v, m) <= 0,
    }
}

/// The local stage of the decision. A version-controlled install is
/// always refreshed, forced and unpinned. With a ceiling, an installed
/// version at or above it needs nothing, and one below it is reinstalled
/// pinned to the ceiling itself; the remote index is consulted exactly
/// when the source is a registry and no ceiling was given.
pub fn check_version(command: &Command, max_version: &Option<Version>) -> (r: CheckStep)
    ensures
        command@.source.kind == SourceKind::Vcs ==> (r matches CheckStep::Done(a) && a@
            == (ActionModel::Install { force: true, version: None })),
        command@.source.kind == SourceKind::Registry ==> (match *max_version {
            Some(mx) => if version_cmp(command@.version, mx@) >= 0 {
                r matches CheckStep::Done(a) && a@ == ActionModel::Nothing
            } else {
                r matches CheckStep::Done(a) && a@ == (ActionModel::Install {
                    force: true,
                    version: Some(mx@),
                })
            },
            None => r matches CheckStep::FetchRemote,
        }),
        r matches CheckStep::FetchRemote <==> (command@.source.kind == SourceKind::Registry
            && max_version is None),
{
    match command.source.kind {
        SourceKind::Vcs => CheckStep::Done(Action::Install { force: true, version: None }),
        SourceKind::Registry => match max_version {
            Some(mx) => {
                let c = command.version.cmp_ver(mx);
                if c >= 0 {
                    CheckStep::Done(Action::Nothing)
                } else {
                    CheckStep::Done(
                        Action::Install { force: true, version: Some(mx.clone_ver()) },
                    )
                }
            },
            None => CheckStep::FetchRemote,
        },
    }
}

/// The greatest version in the list that respects the optional ceiling,
/// by semantic-version precedence; `None` exactly when no version does.
pub fn get_max_version(versions: &Vec<Version>, max: &Option<Version>) -> (r: Option<Version>)
    ensures
        match r {
            Some(m) => {
                &&& exists|i: int|
                    0 <= i < versions@.len() && versions@[i]@ == m@
                &&& within_bound(m@, max.deep_view())
                &&& forall|i: int|
                    0 <= i < versions@.len() && within_bound(#[trigger] versions@[i]@,
                        max.deep_view(),
                    ) ==> version_cmp(versions@[i]@, m@) <= 0
            },
            None => forall|i: int|
                0 <= i < versions@.len() ==> !within_bound(#[trigger] versions@[i]@,
                    max.deep_view(),
                ),
        },
{
    let mut best: Option<usize> = None;
    let mut i: usize = 0;
    while i < versions.len()
        invariant
            i <= versions.len(),
            match best {
                Some(b) => {
                    &&& b < i
                    &&& within_bound(versions@[b as int]@, max.deep_view())
                    &&& forall|j: int|
                        0 <= j < i && within_bound(#[trigger] versions@[j]@, max.deep_view())
                            ==> version_cmp(versions@[j]@, versions@[b as int]@) <= 0
                },
                None => forall|j: int|
                    0 <= j < i ==> !within_bound(#[trigger] versions@[j]@, max.deep_view()),
            },
        decreases versions.len() - i,
    {
        let cand = &versions[i];
        let ok = match max {
            Some(mx) => cand.cmp_ver(mx) <= 0,
            None => true,
        };
        if ok {
            match best {
                Some(b) => {
                    let c = versions[b].cmp_ver(cand);
                    if c < 0 {
                        proof {
                            let ghost bv = versions@[b as int]@;
                            let ghost cv = versions@[i as int]@;
                            assert forall|j: int|
                                0 <= j < i + 1 && within_bound(
                                    #[trigger] versions@[j]@,
                                    max.deep_view(),
                                ) implies version_cmp(versions@[j]@, cv) <= 0 by {
                                if j < i {
                                    lemma_version_cmp_antisym(versions@[j]@, bv);
                                    lemma_version_cmp_trans(versions@[j]@, bv, cv);
                                } else {
                                    lemma_version_cmp_refl(cv);
                                }
                            }
                        }
                        best = Some(i);
                    } else {
                        proof {
                            lemma_version_cmp_antisym(versions@[i as int]@, versions@[b as int]@);
                        }
                    }
                },
                None => {
                    proof {
                        lemma_version_cmp_refl(versions@[i as int]@);
                    }
                    best = Some(i);
                },
            }
        }
        i = i + 1;
    }
    match best {
        Some(b) => Some(versions[b].clone_ver()),
        None => None,
    }
}

/// The remote stage of the decision, taking whatever the single fetch
/// returned. A failed fetch propagates as a decision error carrying its
/// cause; an empty version set is its own error; otherwise the newest
/// published version is compared with the installed one, and only a
/// strictly newer one triggers a forced, pinned reinstall.
pub fn resolve_with_remote(command: &Command, fetched: Result<Vec<Version>, FetchError>) -> (r:
    Result<Action, DecisionError>)
    ensures
        match fetched {
            Err(e) => r matches Err(de) && de@ == DecisionModel::Fetch(e@),
            Ok(vs) => if vs@.len() == 0 {
                r matches Err(de) && de@ == DecisionModel::NoVersions
            } else {
                r matches Ok(a) && (match a@ {
                    ActionModel::Nothing => exists|m: VersionView|
                        #[trigger] is_newest(m, vs.deep_view()) && version_cmp(
                            command@.version,
                            m,
                        ) >= 0,
                    ActionModel::Install { force, version } => force && (version matches Some(m)
                        && is_newest(m, vs.deep_view()) && version_cmp(command@.version, m) < 0),
                })
            },
        },
{
    match fetched {
        Err(e) => Err(DecisionError::Fetch(e)),
        Ok(vs) => {
            if vs.len() == 0 {
                return Err(DecisionError::NoVersions);
            }
            let no_bound: Option<Version> = None;
            match get_max_version(&vs, &no_bound) {
                Some(m) => {
                    proof {
                        assert(vs.deep_view().len() == vs@.len());
                        let gi = choose|i: int| 0 <= i < vs@.len() && vs@[i]@ == m@;
                        assert(vs.deep_view()[gi] == m@);
                        assert forall|i: int|
                            0 <= i < vs.deep_view().len() implies version_cmp(
                            #[trigger] vs.deep_view()[i],
                            m@,
                        ) <= 0 by {
                            assert(vs.deep_view()[i] == vs@[i]@);
                            assert(within_bound(vs@[i]@, no_bound.deep_view()));
                        }
                        assert(is_newest(m@, vs.deep_view()));
                    }
                    let c = command.version.cmp_ver(&m);
                    if c < 0 {
                        Ok(Action::Install { force: true, version: Some(m) })
                    } else {
                        Ok(Action::Nothing)
                    }
                },
                None => {
                    proof {
                        assert(within_bound(vs@[0]@, None::<Version>.deep_view()));
                        assert(false);
                    }
                    Err(DecisionError::NoVersions)
                },
            }
        },
    }
}

/// Whether `m` is one of the versions and none is newer.
pub open spec fn is_newest(m: VersionView, vs: Seq<VersionView>) -> bool {
    (exists|i: int| 0 <= i < vs.len() && vs[i] == m) && (forall|i: int|
        0 <= i < vs.len() ==> version_cmp(#[trigger] vs[i], m) <= 0)
}

} // verus!
