use vstd::prelude::*;

use crate::config::{Package, PathResolution};
use crate::errors::DotyError;
use crate::fs_utils::{FsType, SourceInfo, SourceInfoV, TargetProbe, TargetProbeV};
use crate::paths::{
    is_absolute_path, normalize_to_absolute, opt_str_view, path_join, path_parent,
    resolve_target_path, spec_is_absolute, spec_join, spec_normalize, spec_pair_views,
    spec_parent, spec_resolve_target, str_eq,
};

verus! {

/// The result of deciding one target: what the tool will do (or report)
/// for it. `Pruned` is the cleanup of a dangling link whose explicit
/// source is gone; `Warning` informs the user of such a source without
/// touching the filesystem.
#[derive(Debug, Clone, PartialEq)]
pub enum LinkAction {
    Created { target: String, source: String },
    Updated { target: String, old_source: String, new_source: String },
    Skipped { target: String, source: String },
    Removed { target: String, source: String },
    Pruned { target: String, source: String },
    Warning { target: String, source: String, message: String },
}

/// Ghost mirror of a `LinkAction`, with paths as character sequences.
pub ghost enum ActionV {
    Created { target: Seq<char>, source: Seq<char> },
    Updated { target: Seq<char>, old_source: Seq<char>, new_source: Seq<char> },
    Skipped { target: Seq<char>, source: Seq<char> },
    Removed { target: Seq<char>, source: Seq<char> },
    Pruned { target: Seq<char>, source: Seq<char> },
    Warning { target: Seq<char>, source: Seq<char>, message: Seq<char> },
}

impl View for LinkAction {
    type V = ActionV;

    open spec fn view(&self) -> ActionV {
        match self {
            LinkAction::Created { target, source } => ActionV::Created {
                target: target@,
                source: source@,
            },
            LinkAction::Updated { target, old_source, new_source } => ActionV::Updated {
                target: target@,
                old_source: old_source@,
                new_source: new_source@,
            },
            LinkAction::Skipped { target, source } => ActionV::Skipped {
                target: target@,
                source: source@,
            },
            LinkAction::Removed { target, source } => ActionV::Removed {
                target: target@,
                source: source@,
            },
            LinkAction::Pruned { target, source } => ActionV::Pruned {
                target: target@,
                source: source@,
            },
            LinkAction::Warning { target, source, message } => ActionV::Warning {
                target: target@,
                source: source@,
                message: message@,
            },
        }
    }
}

/// View of a sequence of actions.
pub open spec fn actions_view(s: Seq<LinkAction>) -> Seq<ActionV> {
    s.map_values(|a: LinkAction| a@)
}

/// The message attached to a warning about a vanished explicit source.
pub open spec fn missing_source_message() -> Seq<char> {
    "Source (file|dir) gone, remove from config if intentional"@
}

/// The merge record for one target path: the declared side, the stored
/// side, and filesystem reality once enrichment has run.
#[derive(Debug, Clone)]
pub struct LinkStatus {
    pub config_resolved_source: Option<String>,
    pub config_resolved_target: Option<String>,
    pub config_is_explicit: bool,
    pub state_resolved_source: Option<String>,
    pub state_resolved_target: Option<String>,
    pub source_exists: bool,
    pub target_exists: bool,
    pub target_type: Option<FsType>,
    pub target_points_to: Option<String>,
    pub config_abs_source: Option<String>,
}

/// Ghost mirror of a `LinkStatus`.
pub ghost struct LinkStatusV {
    pub config_resolved_source: Option<Seq<char>>,
    pub config_resolved_target: Option<Seq<char>>,
    pub config_is_explicit: bool,
    pub state_resolved_source: Option<Seq<char>>,
    pub state_resolved_target: Option<Seq<char>>,
    pub source_exists: bool,
    pub target_exists: bool,
    pub target_type: Option<FsType>,
    pub target_points_to: Option<Seq<char>>,
    pub config_abs_source: Option<Seq<char>>,
}

impl View for LinkStatus {
    type V = LinkStatusV;

    open spec fn view(&self) -> LinkStatusV {
        LinkStatusV {
            config_resolved_source: opt_str_view(self.config_resolved_source),
            config_resolved_target: opt_str_view(self.config_resolved_target),
            config_is_explicit: self.config_is_explicit,
            state_resolved_source: opt_str_view(self.state_resolved_source),
            state_resolved_target: opt_str_view(self.state_resolved_target),
            source_exists: self.source_exists,
            target_exists: self.target_exists,
            target_type: self.target_type,
            target_points_to: opt_str_view(self.target_points_to),
            config_abs_source: opt_str_view(self.config_abs_source),
        }
    }
}

impl LinkStatusV {
    /// A status is well-formed when it carries a target path on at least
    /// one side; it is a logic error to build one with neither.
    pub open spec fn wf(self) -> bool {
        self.config_resolved_target is Some || self.state_resolved_target is Some
    }

    /// The target path a status speaks about: the declared one when
    /// present, the stored one otherwise.
    pub open spec fn the_target(self) -> Seq<char> {
        if self.config_resolved_target is Some {
            self.config_resolved_target->0
        } else {
            self.state_resolved_target->0
        }
    }
}

/// A fresh status carrying only the declared side.
pub open spec fn spec_from_config(
    target: Seq<char>,
    source: Seq<char>,
    is_explicit: bool,
    source_exists: bool,
) -> LinkStatusV {
    LinkStatusV {
        config_resolved_source: Some(source),
        config_resolved_target: Some(target),
        config_is_explicit: is_explicit,
        state_resolved_source: None,
        state_resolved_target: None,
        source_exists: source_exists,
        target_exists: false,
        target_type: None,
        target_points_to: None,
        config_abs_source: None,
    }
}

/// A fresh status carrying only the stored side.
pub open spec fn spec_from_lockfile(target: Seq<char>, source: Seq<char>) -> LinkStatusV {
    LinkStatusV {
        config_resolved_source: None,
        config_resolved_target: None,
        config_is_explicit: false,
        state_resolved_source: Some(source),
        state_resolved_target: Some(target),
        source_exists: false,
        target_exists: false,
        target_type: None,
        target_points_to: None,
        config_abs_source: None,
    }
}

/// Merging a second record for the same target: whichever sides `other`
/// carries overwrite the same sides of `self`.
pub open spec fn spec_merge(base: LinkStatusV, other: LinkStatusV) -> LinkStatusV {
    let s1 = if other.config_resolved_source is Some {
        LinkStatusV {
            config_resolved_source: other.config_resolved_source,
            config_resolved_target: other.config_resolved_target,
            config_is_explicit: other.config_is_explicit,
            source_exists: other.source_exists,
            ..base
        }
    } else {
        base
    };
    if other.state_resolved_source is Some {
        LinkStatusV {
            state_resolved_source: other.state_resolved_source,
            state_resolved_target: other.state_resolved_target,
            ..s1
        }
    } else {
        s1
    }
}

impl LinkStatus {
    /// Builds the declared side of a merge record.
    pub fn from_config(target: String, source: String, is_explicit: bool, source_exists: bool) -> (r: LinkStatus)
        ensures
            r@ == spec_from_config(target@, source@, is_explicit, source_exists),
    {
        LinkStatus {
            config_resolved_source: Some(source),
            config_resolved_target: Some(target),
            config_is_explicit: is_explicit,
            state_resolved_source: None,
            state_resolved_target: None,
            source_exists: source_exists,
            target_exists: false,
            target_type: None,
            target_points_to: None,
            config_abs_source: None,
        }
    }

    /// Builds the stored side of a merge record.
    pub fn from_lockfile(target: String, source: String) -> (r: LinkStatus)
        ensures
            r@ == spec_from_lockfile(target@, source@),
    {
        LinkStatus {
            config_resolved_source: None,
            config_resolved_target: None,
            config_is_explicit: false,
            state_resolved_source: Some(source),
            state_resolved_target: Some(target),
            source_exists: false,
            target_exists: false,
            target_type: None,
            target_points_to: None,
            config_abs_source: None,
        }
    }

    /// Folds a second record for the same target into this one.
    pub fn merge(&mut self, other: LinkStatus)
        ensures
            final(self)@ == spec_merge(old(self)@, other@),
    {
        if other.config_resolved_source.is_some() {
            self.config_resolved_source = other.config_resolved_source;
            self.config_resolved_target = other.config_resolved_target;
            self.config_is_explicit = other.config_is_explicit;
            self.source_exists = other.source_exists;
        }
        if other.state_resolved_source.is_some() {
            self.state_resolved_source = other.state_resolved_source;
            self.state_resolved_target = other.state_resolved_target;
        }
    }
}

/// The decision table, per enriched merge record. Rows, in order: a target
/// only the stored side knows is removed; an implicit desired link whose
/// source vanished is silently ignored; an explicit vanished source over a
/// broken target symlink warns and prunes; with `force` and a stored entry
/// it is removed; otherwise it only warns. With the source present: no
/// stored entry means create; a stored source differing from the absolute
/// desired source means update; a target symlink already resolving to the
/// absolute desired source means skip; anything else means (re)create.
pub open spec fn spec_decide(st: LinkStatusV, force: bool, base: Seq<char>) -> Seq<ActionV> {
    let target = st.the_target();
    if st.config_resolved_source is None {
        match st.state_resolved_source {
            Some(stored) => seq![ActionV::Removed { target: target, source: stored }],
            None => Seq::<ActionV>::empty(),
        }
    } else {
        let desired = st.config_resolved_source->0;
        if !st.source_exists {
            if !st.config_is_explicit {
                Seq::<ActionV>::empty()
            } else {
                let broken = st.target_type == Some(FsType::Symlink) && st.target_points_to
                    is None;
                if broken {
                    let prune_source = match st.state_resolved_source {
                        Some(s) => s,
                        None => desired,
                    };
                    seq![
                        ActionV::Warning {
                            target: target,
                            source: desired,
                            message: missing_source_message(),
                        },
                        ActionV::Pruned { target: target, source: prune_source },
                    ]
                } else if force && st.state_resolved_source is Some {
                    seq![
                        ActionV::Removed { target: target, source: st.state_resolved_source->0 },
                    ]
                } else {
                    seq![
                        ActionV::Warning {
                            target: target,
                            source: desired,
                            message: missing_source_message(),
                        },
                    ]
                }
            }
        } else {
            match st.state_resolved_source {
                None => seq![ActionV::Created { target: target, source: desired }],
                Some(stored) => {
                    let abs = match st.config_abs_source {
                        Some(a) => a,
                        None => spec_join(base, desired),
                    };
                    if abs != stored {
                        seq![
                            ActionV::Updated {
                                target: target,
                                old_source: stored,
                                new_source: desired,
                            },
                        ]
                    } else if st.target_points_to == Some(abs) {
                        seq![ActionV::Skipped { target: target, source: desired }]
                    } else {
                        seq![ActionV::Created { target: target, source: desired }]
                    }
                },
            }
        }
    }
}

/// The reconciliation engine. It holds the base directory for resolving
/// relative paths, the declared resolution mode, and the home directory
/// (when known) for expanding `~`-relative targets; every method is a pure
/// computation over values its caller gathered.
pub struct Linker {
    pub config_dir_or_cwd: String,
    pub path_resolution: PathResolution,
    pub home: Option<String>,
}

/// Ghost mirror of the `Linker` configuration.
pub ghost struct LinkerV {
    pub config_dir_or_cwd: Seq<char>,
    pub path_resolution: PathResolution,
    pub home: Option<Seq<char>>,
}

impl View for Linker {
    type V = LinkerV;

    open spec fn view(&self) -> LinkerV {
        LinkerV {
            config_dir_or_cwd: self.config_dir_or_cwd@,
            path_resolution: self.path_resolution,
            home: opt_str_view(self.home),
        }
    }
}

impl Linker {
    /// Creates an engine over the given base directory, resolution mode,
    /// and home directory.
    pub fn new(config_dir_or_cwd: String, path_resolution: PathResolution, home: Option<String>) -> (r: Linker)
        ensures
            r@.config_dir_or_cwd == config_dir_or_cwd@,
            r@.path_resolution == path_resolution,
            r@.home == opt_str_view(home),
    {
        Linker { config_dir_or_cwd, path_resolution, home }
    }

    /// Applies the decision table to one enriched merge record. The result
    /// holds zero, one, or two actions: two exactly in the warn-and-prune
    /// case, zero exactly for a vanished implicit source or an empty
    /// record.
    pub fn determine_action_for_status(&self, status: &LinkStatus, force: bool) -> (r: Vec<LinkAction>)
        requires
            status@.wf(),
        ensures
            actions_view(r@) == spec_decide(status@, force, self@.config_dir_or_cwd),
    {
        let ghost sp = spec_decide(status@, force, self@.config_dir_or_cwd);
        let target: &String = match &status.config_resolved_target {
            Some(t) => t,
            None => match &status.state_resolved_target {
                Some(t) => t,
                None => {
                    proof {
                        assert(false);
                    }
                    return Vec::new();
                },
            },
        };
        let mut r: Vec<LinkAction> = Vec::new();
        match &status.config_resolved_source {
            None => {
                match &status.state_resolved_source {
                    Some(stored) => {
                        r.push(LinkAction::Removed {
                            target: target.clone(),
                            source: stored.clone(),
                        });
                    },
                    None => {},
                }
            },
            Some(desired) => {
                if !status.source_exists {
                    if status.config_is_explicit {
                        let broken = match status.target_type {
                            Some(FsType::Symlink) => status.target_points_to.is_none(),
                            _ => false,
                        };
                        if broken {
                            let prune_source: &String = match &status.state_resolved_source {
                                Some(s) => s,
                                None => desired,
                            };
                            r.push(LinkAction::Warning {
                                target: target.clone(),
                                source: desired.clone(),
                                message: String::from_str(
                                    "Source (file|dir) gone, remove from config if intentional",
                                ),
                            });
                            r.push(LinkAction::Pruned {
                                target: target.clone(),
                                source: prune_source.clone(),
                            });
                        } else {
                            let forced_remove = force && status.state_resolved_source.is_some();
                            if forced_remove {
                                let stored: &String = match &status.state_resolved_source {
                                    Some(s) => s,
                                    None => desired,
                                };
                                r.push(LinkAction::Removed {
                                    target: target.clone(),
                                    source: stored.clone(),
                                });
                            } else {
                                r.push(LinkAction::Warning {
                                    target: target.clone(),
                                    source: desired.clone(),
                                    message: String::from_str(
                                        "Source (file|dir) gone, remove from config if intentional",
                                    ),
                                });
                            }
                        }
                    }
                } else {
                    match &status.state_resolved_source {
                        None => {
                            r.push(LinkAction::Created {
                                target: target.clone(),
                                source: desired.clone(),
                            });
                        },
                        Some(stored) => {
                            let abs: String = match &status.config_abs_source {
                                Some(a) => a.clone(),
                                None => path_join(self.config_dir_or_cwd.as_str(), desired.as_str()),
                            };
                            if !str_eq(abs.as_str(), stored.as_str()) {
                                r.push(LinkAction::Updated {
                                    target: target.clone(),
                                    old_source: stored.clone(),
                                    new_source: desired.clone(),
                                });
                            } else {
                                let correct = match &status.target_points_to {
                                    Some(actual) => str_eq(actual.as_str(), abs.as_str()),
                                    None => false,
                                };
                                if correct {
                                    r.push(LinkAction::Skipped {
                                        target: target.clone(),
                                        source: desired.clone(),
                                    });
                                } else {
                                    r.push(LinkAction::Created {
                                        target: target.clone(),
                                        source: desired.clone(),
                                    });
                                }
                            }
                        },
                    }
                }
            },
        }
        proof {
            assert(actions_view(r@) =~~= sp);
        }
        r
    }
}


/// Views of a keyed status vector.
pub open spec fn spec_entry_views(s: Seq<(String, LinkStatus)>) -> Seq<(Seq<char>, LinkStatusV)> {
    s.map_values(|p: (String, LinkStatus)| (p.0@, p.1@))
}

/// The stored side of the merge input: each persisted pair as a keyed
/// stored-only status.
pub open spec fn spec_stored_entries(s: Seq<(Seq<char>, Seq<char>)>) -> Seq<
    (Seq<char>, LinkStatusV),
> {
    s.map_values(|p: (Seq<char>, Seq<char>)| (p.0, spec_from_lockfile(p.0, p.1)))
}

/// The map an association list denotes, later entries winning.
pub open spec fn spec_assoc_map(s: Seq<(Seq<char>, LinkStatusV)>) -> Map<Seq<char>, LinkStatusV>
    decreases s.len(),
{
    if s.len() == 0 {
        Map::empty()
    } else {
        spec_assoc_map(s.drop_last()).insert(s.last().0, s.last().1)
    }
}

/// No key occurs twice.
pub open spec fn spec_unique_keys(s: Seq<(Seq<char>, LinkStatusV)>) -> bool {
    forall|i: int, j: int| 0 <= i < j < s.len() ==> s[i].0 != s[j].0
}

/// Inserting one keyed status into the merge map: a record already there
/// for the same target absorbs the new one via `spec_merge`.
pub open spec fn spec_insert_merge(
    m: Map<Seq<char>, LinkStatusV>,
    k: Seq<char>,
    st: LinkStatusV,
) -> Map<Seq<char>, LinkStatusV> {
    if m.dom().contains(k) {
        m.insert(k, spec_merge(m[k], st))
    } else {
        m.insert(k, st)
    }
}

/// The merge map denoted by a stream of keyed statuses, folded in order.
pub open spec fn spec_gather(entries: Seq<(Seq<char>, LinkStatusV)>) -> Map<
    Seq<char>,
    LinkStatusV,
>
    decreases entries.len(),
{
    if entries.len() == 0 {
        Map::empty()
    } else {
        spec_insert_merge(
            spec_gather(entries.drop_last()),
            entries.last().0,
            entries.last().1,
        )
    }
}

proof fn lemma_assoc_contains(s: Seq<(Seq<char>, LinkStatusV)>, i: int)
    requires
        spec_unique_keys(s),
        0 <= i < s.len(),
    ensures
        spec_assoc_map(s).dom().contains(s[i].0),
        spec_assoc_map(s)[s[i].0] == s[i].1,
    decreases s.len(),
{
    if i < s.len() - 1 {
        lemma_assoc_contains(s.drop_last(), i);
        assert(s[i].0 != s.last().0);
    }
}

proof fn lemma_assoc_absent(s: Seq<(Seq<char>, LinkStatusV)>, k: Seq<char>)
    requires
        forall|i: int| 0 <= i < s.len() ==> s[i].0 != k,
    ensures
        !spec_assoc_map(s).dom().contains(k),
    decreases s.len(),
{
    if s.len() > 0 {
        lemma_assoc_absent(s.drop_last(), k);
    }
}

proof fn lemma_assoc_update(s: Seq<(Seq<char>, LinkStatusV)>, i: int, v: LinkStatusV)
    requires
        spec_unique_keys(s),
        0 <= i < s.len(),
    ensures
        spec_assoc_map(s.update(i, (s[i].0, v))) =~= spec_assoc_map(s).insert(s[i].0, v),
    decreases s.len(),
{
    let s2 = s.update(i, (s[i].0, v));
    if i == s.len() - 1 {
        assert(s2.drop_last() =~= s.drop_last());
    } else {
        lemma_assoc_update(s.drop_last(), i, v);
        assert(s2.drop_last() =~= s.drop_last().update(i, (s[i].0, v)));
        assert(s[i].0 != s.last().0);
    }
}

/// Finds the position of `key` among the keys of `v`, if it is there.
fn find_status_index(v: &Vec<(String, LinkStatus)>, key: &str) -> (r: Option<usize>)
    ensures
        match r {
            Some(i) => i < v@.len() && v@[i as int].0@ == key@,
            None => forall|i: int| 0 <= i < v@.len() ==> v@[i].0@ != key@,
        },
{
    let n = v.len();
    let mut i: usize = 0;
    while i < n
        invariant
            n == v@.len(),
            i <= n,
            forall|j: int| 0 <= j < i ==> v@[j].0@ != key@,
        decreases n - i,
    {
        if str_eq(v[i].0.as_str(), key) {
            return Some(i);
        }
        i += 1;
    }
    None
}

/// Inserts one keyed status into the accumulating merge vector, merging
/// into an existing record for the same target when there is one.
fn insert_merge(out: &mut Vec<(String, LinkStatus)>, key: String, st: LinkStatus)
    requires
        spec_unique_keys(spec_entry_views(old(out)@)),
    ensures
        spec_unique_keys(spec_entry_views(final(out)@)),
        spec_assoc_map(spec_entry_views(final(out)@)) == spec_insert_merge(
            spec_assoc_map(spec_entry_views(old(out)@)),
            key@,
            st@,
        ),
{
    let ghost old_views = spec_entry_views(old(out)@);
    let idx = find_status_index(out, key.as_str());
    match idx {
        Some(i) => {
            let ghost old_st = out@[i as int].1@;
            out[i].1.merge(st);
            proof {
                let new_views = spec_entry_views(out@);
                assert(new_views =~= old_views.update(
                    i as int,
                    (old_views[i as int].0, spec_merge(old_st, st@)),
                ));
                lemma_assoc_update(old_views, i as int, spec_merge(old_st, st@));
                lemma_assoc_contains(old_views, i as int);
                assert(spec_unique_keys(new_views));
            }
        },
        None => {
            out.push((key, st));
            proof {
                let new_views = spec_entry_views(out@);
                assert(new_views =~= old_views.push((key@, st@)));
                assert(new_views.drop_last() =~= old_views);
                lemma_assoc_absent(old_views, key@);
                assert(spec_unique_keys(new_views));
            }
        },
    }
}

/// What expansion of one package contributes to the merge input, keyed by
/// the normalised absolute target. A missing source keeps the package
/// visible as a single explicit, non-existing record; a file or a
/// `LinkFolder` directory is one explicit record; a `LinkFilesRecursive`
/// directory contributes one implicit record per regular file under it.
pub open spec fn spec_expand(lk: LinkerV, pkg: crate::config::PackageV, info: SourceInfoV) -> Seq<
    (Seq<char>, LinkStatusV),
> {
    let resolved_target = spec_normalize(pkg.target, lk.config_dir_or_cwd, lk.home);
    match info {
        SourceInfoV::Missing => seq![
            (resolved_target, spec_from_config(pkg.target, pkg.source, true, false)),
        ],
        SourceInfoV::File => seq![
            (resolved_target, spec_from_config(pkg.target, pkg.source, true, true)),
        ],
        SourceInfoV::Dir { files } => match pkg.strategy {
            crate::config::LinkStrategy::LinkFolder => seq![
                (resolved_target, spec_from_config(pkg.target, pkg.source, true, true)),
            ],
            crate::config::LinkStrategy::LinkFilesRecursive => files.map_values(
                |f: Seq<char>|
                    (
                        spec_normalize(spec_join(pkg.target, f), lk.config_dir_or_cwd, lk.home),
                        spec_from_config(
                            spec_join(pkg.target, f),
                            spec_join(pkg.source, f),
                            false,
                            true,
                        ),
                    ),
            ),
        },
        SourceInfoV::Other => Seq::<(Seq<char>, LinkStatusV)>::empty(),
    }
}

/// How enrichment folds one filesystem probe into a merge record: a
/// record that only the stored side knows adopts the stored target as its
/// target; reality fields are taken from the probe (the symlink
/// destination only for a symlink); and the absolute desired source is
/// the canonicalised form when one is known, the plain join otherwise.
pub open spec fn spec_enrich(lk: LinkerV, st: LinkStatusV, probe: TargetProbeV) -> LinkStatusV {
    let st1 = if st.config_resolved_target is None {
        LinkStatusV { config_resolved_target: st.state_resolved_target, ..st }
    } else {
        st
    };
    LinkStatusV {
        target_exists: probe.fs_type is Some,
        target_type: probe.fs_type,
        target_points_to: if probe.fs_type == Some(FsType::Symlink) {
            probe.points_to
        } else {
            None
        },
        config_abs_source: match st1.config_resolved_source {
            Some(src) => Some(
                match probe.canon_source {
                    Some(c) => c,
                    None => spec_join(lk.config_dir_or_cwd, src),
                },
            ),
            None => None,
        },
        ..st1
    }
}

/// The views of the statuses in a keyed status vector.
pub open spec fn spec_status_views(s: Seq<(String, LinkStatus)>) -> Seq<LinkStatusV> {
    s.map_values(|p: (String, LinkStatus)| p.1@)
}

/// The full action list: each record's decisions, in record order.
pub open spec fn spec_diff(lk: LinkerV, sts: Seq<LinkStatusV>, force: bool) -> Seq<ActionV>
    decreases sts.len(),
{
    if sts.len() == 0 {
        Seq::<ActionV>::empty()
    } else {
        spec_diff(lk, sts.drop_last(), force) + spec_decide(
            sts.last(),
            force,
            lk.config_dir_or_cwd,
        )
    }
}

impl Linker {
    /// Expands one declared package into keyed merge records, given what
    /// the filesystem says about its source. Follows `spec_expand`.
    pub fn expand_package(&self, package: &Package, info: &SourceInfo) -> (r: Vec<
        (String, LinkStatus),
    >)
        ensures
            spec_entry_views(r@) == spec_expand(self@, package@, info@),
    {
        let mut r: Vec<(String, LinkStatus)> = Vec::new();
        let resolved_target = normalize_to_absolute(
            package.target.as_str(),
            self.config_dir_or_cwd.as_str(),
            &self.home,
        );
        match info {
            SourceInfo::Missing => {
                r.push(
                    (
                        resolved_target,
                        LinkStatus::from_config(
                            package.target.clone(),
                            package.source.clone(),
                            true,
                            false,
                        ),
                    ),
                );
                proof {
                    assert(spec_entry_views(r@) =~~= spec_expand(self@, package@, info@));
                }
            },
            SourceInfo::File => {
                r.push(
                    (
                        resolved_target,
                        LinkStatus::from_config(
                            package.target.clone(),
                            package.source.clone(),
                            true,
                            true,
                        ),
                    ),
                );
                proof {
                    assert(spec_entry_views(r@) =~~= spec_expand(self@, package@, info@));
                }
            },
            SourceInfo::Dir { files } => {
                match package.strategy {
                    crate::config::LinkStrategy::LinkFolder => {
                        r.push(
                            (
                                resolved_target,
                                LinkStatus::from_config(
                                    package.target.clone(),
                                    package.source.clone(),
                                    true,
                                    true,
                                ),
                            ),
                        );
                        proof {
                            assert(spec_entry_views(r@) =~~= spec_expand(self@, package@, info@));
                        }
                    },
                    crate::config::LinkStrategy::LinkFilesRecursive => {
                        let ghost goal = spec_expand(self@, package@, info@);
                        let n = files.len();
                        let mut i: usize = 0;
                        while i < n
                            invariant
                                n == files@.len(),
                                i <= n,
                                info@ is Dir,
                                info@->Dir_files =~= files@.map_values(|s: String| s@),
                                package.strategy is LinkFilesRecursive,
                                goal == spec_expand(self@, package@, info@),
                                goal.len() == n,
                                spec_entry_views(r@) =~= goal.take(i as int),
                            decreases n - i,
                        {
                            let f: &String = &files[i];
                            let target_path = path_join(package.target.as_str(), f.as_str());
                            let source_rel = path_join(package.source.as_str(), f.as_str());
                            let resolved = normalize_to_absolute(
                                target_path.as_str(),
                                self.config_dir_or_cwd.as_str(),
                                &self.home,
                            );
                            let ghost fv = files@[i as int]@;
                            let ghost resv = resolved@;
                            let ghost old_views = spec_entry_views(r@);
                            let st = LinkStatus::from_config(target_path, source_rel, false, true);
                            let ghost stv = st@;
                            r.push((resolved, st));
                            proof {
                                assert(info@ is Dir);
                                let fsv = info@->Dir_files;
                                assert(fsv[i as int] == fv);
                                assert(goal[i as int] == (
                                    spec_normalize(
                                        spec_join(package@.target, fv),
                                        self@.config_dir_or_cwd,
                                        self@.home,
                                    ),
                                    spec_from_config(
                                        spec_join(package@.target, fv),
                                        spec_join(package@.source, fv),
                                        false,
                                        true,
                                    ),
                                ));
                                assert(resv == goal[i as int].0);
                                assert(stv == goal[i as int].1);
                                assert(spec_entry_views(r@) =~= old_views.push((resv, stv)));
                                assert(goal.take(i + 1) =~= goal.take(i as int).push(
                                    goal[i as int],
                                ));
                                assert(spec_entry_views(r@) =~= goal.take(i + 1));
                            }
                            i += 1;
                        }
                        proof {
                            assert(spec_entry_views(r@) =~= goal.take(n as int));
                            assert(goal.take(n as int) =~= goal);
                        }
                    },
                }
            },
            SourceInfo::Other => {
                proof {
                    assert(spec_entry_views(r@) =~~= spec_expand(self@, package@, info@));
                }
            },
        }
        r
    }

    /// Merges the expansion stream and the stored pairs into one record
    /// per distinct target. The result's keys are unique and its contents
    /// are exactly the ordered fold of both streams (`spec_gather`),
    /// desired entries first, stored entries overlaid.
    pub fn merge_link_states(&self, expanded: Vec<(String, LinkStatus)>, stored: &Vec<
        (String, String),
    >) -> (r: Vec<(String, LinkStatus)>)
        ensures
            spec_unique_keys(spec_entry_views(r@)),
            spec_assoc_map(spec_entry_views(r@)) == spec_gather(
                spec_entry_views(expanded@) + spec_stored_entries(spec_pair_views(stored@)),
            ),
    {
        let ghost all = spec_entry_views(expanded@) + spec_stored_entries(
            spec_pair_views(stored@),
        );
        let ghost exp0 = spec_entry_views(expanded@);
        let ghost n_exp = exp0.len();
        let mut out: Vec<(String, LinkStatus)> = Vec::new();
        let mut rest = expanded;
        let ghost mut done: int = 0;
        while rest.len() > 0
            invariant
                0 <= done <= n_exp,
                n_exp == exp0.len(),
                spec_entry_views(rest@) =~= exp0.skip(done),
                spec_unique_keys(spec_entry_views(out@)),
                spec_assoc_map(spec_entry_views(out@)) == spec_gather(exp0.take(done)),
            decreases rest.len(),
        {
            proof {
                assert(spec_entry_views(rest@).len() == rest@.len());
                assert(exp0.skip(done).len() == n_exp - done);
                assert(done < n_exp);
            }
            let ghost rest0 = rest@;
            let entry = rest.remove(0);
            proof {
                assert(entry == rest0[0]);
                assert(spec_entry_views(rest0)[0] == exp0.skip(done)[0]);
                assert((entry.0@, entry.1@) == exp0[done]);
                assert forall|j: int| 0 <= j < rest@.len() implies spec_entry_views(rest@)[j]
                    == exp0.skip(done + 1)[j] by {
                    assert(rest@[j] == rest0[j + 1]);
                    assert(spec_entry_views(rest0)[j + 1] == exp0.skip(done)[j + 1]);
                }
                assert(spec_entry_views(rest@) =~= exp0.skip(done + 1));
                assert(exp0.take(done + 1).drop_last() =~= exp0.take(done));
                assert(exp0.take(done + 1).last() == exp0[done]);
            }
            insert_merge(&mut out, entry.0, entry.1);
            proof {
                done = done + 1;
            }
        }
        proof {
            assert(exp0.take(done) =~= exp0);
            assert(all.take(exp0.len() as int) =~= exp0);
        }
        let n_st = stored.len();
        let mut j: usize = 0;
        while j < n_st
            invariant
                n_st == stored@.len(),
                j <= n_st,
                all == exp0 + spec_stored_entries(spec_pair_views(stored@)),
                exp0 == spec_entry_views(expanded@),
                spec_unique_keys(spec_entry_views(out@)),
                spec_assoc_map(spec_entry_views(out@)) == spec_gather(all.take(exp0.len() + j)),
            decreases n_st - j,
        {
            let target = stored[j].0.clone();
            let source = stored[j].1.clone();
            let st = LinkStatus::from_lockfile(target.clone(), source);
            proof {
                let k = exp0.len() + j;
                assert(all.take(k + 1).drop_last() =~= all.take(k));
                assert(all.take(k + 1).last() == all[k]);
                assert(all[k] == spec_stored_entries(spec_pair_views(stored@))[j as int]);
                assert((target@, st@) == all[k]);
            }
            insert_merge(&mut out, target, st);
            j += 1;
        }
        proof {
            assert(all.take(exp0.len() + n_st) =~= all);
        }
        out
    }

    /// Folds one filesystem probe into a merge record, following
    /// `spec_enrich`.
    pub fn enrich_status(&self, status: &mut LinkStatus, probe: &TargetProbe)
        ensures
            final(status)@ == spec_enrich(self@, old(status)@, probe@),
    {
        if status.config_resolved_target.is_none() {
            status.config_resolved_target = match &status.state_resolved_target {
                Some(t) => Some(t.clone()),
                None => None,
            };
        }
        status.target_exists = probe.fs_type.is_some();
        status.target_type = probe.fs_type;
        status.target_points_to = match probe.fs_type {
            Some(FsType::Symlink) => match &probe.points_to {
                Some(p) => Some(p.clone()),
                None => None,
            },
            _ => None,
        };
        status.config_abs_source = match &status.config_resolved_source {
            Some(src) => Some(
                match &probe.canon_source {
                    Some(c) => c.clone(),
                    None => path_join(self.config_dir_or_cwd.as_str(), src.as_str()),
                },
            ),
            None => None,
        };
    }

    /// Applies the decision table to every record, in record order,
    /// concatenating the per-record actions. Follows `spec_diff`.
    pub fn calculate_diff(&self, statuses: &Vec<(String, LinkStatus)>, force: bool) -> (r: Vec<
        LinkAction,
    >)
        requires
            forall|i: int| 0 <= i < statuses@.len() ==> (#[trigger] statuses@[i].1)@.wf(),
        ensures
            actions_view(r@) == spec_diff(self@, spec_status_views(statuses@), force),
    {
        let ghost all = spec_status_views(statuses@);
        let n = statuses.len();
        let mut r: Vec<LinkAction> = Vec::new();
        let mut i: usize = 0;
        while i < n
            invariant
                n == statuses@.len(),
                i <= n,
                all == spec_status_views(statuses@),
                forall|k: int| 0 <= k < statuses@.len() ==> (#[trigger] statuses@[k].1)@.wf(),
                actions_view(r@) =~= spec_diff(self@, all.take(i as int), force),
            decreases n - i,
        {
            let mut acts = self.determine_action_for_status(&statuses[i].1, force);
            let ghost pre = r@;
            let ghost acts0 = acts@;
            r.append(&mut acts);
            proof {
                assert(all[i as int] == statuses@[i as int].1@);
                assert(all.take(i + 1).drop_last() =~= all.take(i as int));
                assert(all.take(i + 1).last() == all[i as int]);
                assert(actions_view(r@) =~= actions_view(pre) + actions_view(acts0));
                assert(actions_view(r@) =~= spec_diff(self@, all.take(i + 1), force));
            }
            i += 1;
        }
        proof {
            assert(all.take(n as int) =~= all);
        }
        r
    }
}



/// One primitive filesystem mutation the executor may be asked to
/// perform. `EnsureDir` creates a directory and its parents when missing;
/// `RemoveTarget` deletes whatever entry sits at the path, link-aware, as
/// a no-op when nothing is there; `CreateSymlink` creates a symlink at
/// `link` whose destination is `dest`.
#[derive(Debug, Clone, PartialEq)]
pub enum FsOp {
    EnsureDir { path: String },
    RemoveTarget { path: String },
    CreateSymlink { link: String, dest: String },
}

/// Ghost mirror of an `FsOp`.
pub ghost enum FsOpV {
    EnsureDir { path: Seq<char> },
    RemoveTarget { path: Seq<char> },
    CreateSymlink { link: Seq<char>, dest: Seq<char> },
}

impl View for FsOp {
    type V = FsOpV;

    open spec fn view(&self) -> FsOpV {
        match self {
            FsOp::EnsureDir { path } => FsOpV::EnsureDir { path: path@ },
            FsOp::RemoveTarget { path } => FsOpV::RemoveTarget { path: path@ },
            FsOp::CreateSymlink { link, dest } => FsOpV::CreateSymlink {
                link: link@,
                dest: dest@,
            },
        }
    }
}

/// View of a sequence of filesystem operations.
pub open spec fn ops_view(s: Seq<FsOp>) -> Seq<FsOpV> {
    s.map_values(|o: FsOp| o@)
}

/// The destination a created symlink carries: the source path itself when
/// absolute, else the source joined onto the working directory, so the
/// link never depends on where the process later runs.
pub open spec fn spec_symlink_dest(source_path: Seq<char>, cwd: Seq<char>) -> Seq<char> {
    if spec_is_absolute(source_path) {
        source_path
    } else {
        spec_join(cwd, source_path)
    }
}

/// The operations that (re)create one link: make sure the target's parent
/// directory exists, clear whatever sits at the target, then place the
/// symlink with an absolute destination.
pub open spec fn spec_plan_create(
    source_path: Seq<char>,
    target_path: Seq<char>,
    cwd: Seq<char>,
) -> Seq<FsOpV> {
    let pre = match spec_parent(target_path) {
        Some(par) => seq![FsOpV::EnsureDir { path: par }],
        None => Seq::<FsOpV>::empty(),
    };
    pre + seq![
        FsOpV::RemoveTarget { path: target_path },
        FsOpV::CreateSymlink {
            link: target_path,
            dest: spec_symlink_dest(source_path, cwd),
        },
    ]
}

/// The operations one action asks of the executor. The target is resolved
/// first, so a home-relative target without a known home directory fails
/// (`None`) even under dry-run; under dry-run every action otherwise
/// plans no operation at all. `Warning` and `Skipped` never mutate.
pub open spec fn spec_plan_action(
    lk: LinkerV,
    a: ActionV,
    cwd: Seq<char>,
    dry_run: bool,
) -> Option<Seq<FsOpV>> {
    match a {
        ActionV::Created { target, source } => match spec_resolve_target(
            target,
            lk.config_dir_or_cwd,
            lk.home,
        ) {
            None => None,
            Some(tp) => Some(
                if dry_run {
                    Seq::<FsOpV>::empty()
                } else {
                    spec_plan_create(spec_join(lk.config_dir_or_cwd, source), tp, cwd)
                },
            ),
        },
        ActionV::Updated { target, old_source, new_source } => match spec_resolve_target(
            target,
            lk.config_dir_or_cwd,
            lk.home,
        ) {
            None => None,
            Some(tp) => Some(
                if dry_run {
                    Seq::<FsOpV>::empty()
                } else {
                    seq![FsOpV::RemoveTarget { path: tp }] + spec_plan_create(
                        spec_join(lk.config_dir_or_cwd, new_source),
                        tp,
                        cwd,
                    )
                },
            ),
        },
        ActionV::Removed { target, source } => match spec_resolve_target(
            target,
            lk.config_dir_or_cwd,
            lk.home,
        ) {
            None => None,
            Some(tp) => Some(
                if dry_run {
                    Seq::<FsOpV>::empty()
                } else {
                    seq![FsOpV::RemoveTarget { path: tp }]
                },
            ),
        },
        ActionV::Pruned { target, source } => match spec_resolve_target(
            target,
            lk.config_dir_or_cwd,
            lk.home,
        ) {
            None => None,
            Some(tp) => Some(
                if dry_run {
                    Seq::<FsOpV>::empty()
                } else {
                    seq![FsOpV::RemoveTarget { path: tp }]
                },
            ),
        },
        ActionV::Skipped { target, source } => Some(Seq::<FsOpV>::empty()),
        ActionV::Warning { target, source, message } => Some(Seq::<FsOpV>::empty()),
    }
}

/// The clean pass over stored pairs: every pair whose target still has an
/// entry on disk becomes a `Removed` action, in stored order.
pub open spec fn spec_clean(links: Seq<(Seq<char>, Seq<char>)>, present: Seq<bool>) -> Seq<ActionV>
    decreases links.len(),
{
    if links.len() == 0 {
        Seq::<ActionV>::empty()
    } else {
        spec_clean(links.drop_last(), present.drop_last()) + if present.last() {
            seq![
                ActionV::Removed { target: links.last().0, source: links.last().1 },
            ]
        } else {
            Seq::<ActionV>::empty()
        }
    }
}

impl Linker {
    /// Plans the filesystem operations for one action, following
    /// `spec_plan_action`. `cwd` is the process working directory used to
    /// absolutise a relative symlink destination.
    pub fn plan_action(&self, action: &LinkAction, cwd: &str, dry_run: bool) -> (r: Result<
        Vec<FsOp>,
        DotyError,
    >)
        ensures
            match spec_plan_action(self@, action@, cwd@, dry_run) {
                Some(ops) => r is Ok && ops_view(r->Ok_0@) == ops,
                None => r is Err && r->Err_0 is NoHomeDirectory,
            },
    {
        let ghost goal = spec_plan_action(self@, action@, cwd@, dry_run);
        match action {
            LinkAction::Created { target, source } => {
                let tp = match resolve_target_path(
                    target.as_str(),
                    self.config_dir_or_cwd.as_str(),
                    &self.home,
                ) {
                    Ok(tp) => tp,
                    Err(e) => {
                        return Err(DotyError::NoHomeDirectory);
                    },
                };
                if dry_run {
                    let r: Vec<FsOp> = Vec::new();
                    proof {
                        assert(ops_view(r@) =~~= goal->0);
                    }
                    Ok(r)
                } else {
                    let sp = path_join(self.config_dir_or_cwd.as_str(), source.as_str());
                    let r = self.create_ops(sp, tp, cwd);
                    proof {
                        assert(ops_view(r@) =~~= goal->0);
                    }
                    Ok(r)
                }
            },
            LinkAction::Updated { target, old_source, new_source } => {
                let tp = match resolve_target_path(
                    target.as_str(),
                    self.config_dir_or_cwd.as_str(),
                    &self.home,
                ) {
                    Ok(tp) => tp,
                    Err(e) => {
                        return Err(DotyError::NoHomeDirectory);
                    },
                };
                if dry_run {
                    let r: Vec<FsOp> = Vec::new();
                    proof {
                        assert(ops_view(r@) =~~= goal->0);
                    }
                    Ok(r)
                } else {
                    let sp = path_join(self.config_dir_or_cwd.as_str(), new_source.as_str());
                    let mut r: Vec<FsOp> = Vec::new();
                    r.push(FsOp::RemoveTarget { path: tp.clone() });
                    let mut created = self.create_ops(sp, tp, cwd);
                    let ghost created0 = created@;
                    r.append(&mut created);
                    proof {
                        assert(ops_view(r@) =~~= goal->0);
                    }
                    Ok(r)
                }
            },
            LinkAction::Removed { target, source } => {
                let tp = match resolve_target_path(
                    target.as_str(),
                    self.config_dir_or_cwd.as_str(),
                    &self.home,
                ) {
                    Ok(tp) => tp,
                    Err(e) => {
                        return Err(DotyError::NoHomeDirectory);
                    },
                };
                let mut r: Vec<FsOp> = Vec::new();
                if !dry_run {
                    r.push(FsOp::RemoveTarget { path: tp });
                }
                proof {
                    assert(ops_view(r@) =~~= goal->0);
                }
                Ok(r)
            },
            LinkAction::Pruned { target, source } => {
                let tp = match resolve_target_path(
                    target.as_str(),
                    self.config_dir_or_cwd.as_str(),
                    &self.home,
                ) {
                    Ok(tp) => tp,
                    Err(e) => {
                        return Err(DotyError::NoHomeDirectory);
                    },
                };
                let mut r: Vec<FsOp> = Vec::new();
                if !dry_run {
                    r.push(FsOp::RemoveTarget { path: tp });
                }
                proof {
                    assert(ops_view(r@) =~~= goal->0);
                }
                Ok(r)
            },
            LinkAction::Skipped { target, source } => {
                let r: Vec<FsOp> = Vec::new();
                proof {
                    assert(ops_view(r@) =~~= goal->0);
                }
                Ok(r)
            },
            LinkAction::Warning { target, source, message } => {
                let r: Vec<FsOp> = Vec::new();
                proof {
                    assert(ops_view(r@) =~~= goal->0);
                }
                Ok(r)
            },
        }
    }

    /// The operations that (re)create one link, following
    /// `spec_plan_create`.
    fn create_ops(&self, source_path: String, target_path: String, cwd: &str) -> (r: Vec<FsOp>)
        ensures
            ops_view(r@) == spec_plan_create(source_path@, target_path@, cwd@),
    {
        let mut r: Vec<FsOp> = Vec::new();
        match path_parent(target_path.as_str()) {
            Some(par) => {
                r.push(FsOp::EnsureDir { path: par });
            },
            None => {},
        }
        r.push(FsOp::RemoveTarget { path: target_path.clone() });
        let dest: String = if is_absolute_path(source_path.as_str()) {
            source_path
        } else {
            path_join(cwd, source_path.as_str())
        };
        r.push(FsOp::CreateSymlink { link: target_path, dest });
        proof {
            assert(ops_view(r@) =~~= spec_plan_create(source_path@, target_path@, cwd@));
        }
        r
    }

    /// Plans the clean pass: one `Removed` action for every stored pair
    /// whose target still has an entry on disk (`present` holds that
    /// fact, gathered by the caller, pair by pair). Follows `spec_clean`.
    pub fn clean(&self, links: &Vec<(String, String)>, present: &Vec<bool>) -> (r: Vec<LinkAction>)
        requires
            links@.len() == present@.len(),
        ensures
            actions_view(r@) == spec_clean(spec_pair_views(links@), present@),
    {
        let ghost lv = spec_pair_views(links@);
        let n = links.len();
        let mut r: Vec<LinkAction> = Vec::new();
        let mut i: usize = 0;
        while i < n
            invariant
                n == links@.len(),
                n == present@.len(),
                lv == spec_pair_views(links@),
                i <= n,
                actions_view(r@) =~= spec_clean(lv.take(i as int), present@.take(i as int)),
            decreases n - i,
        {
            let ghost pre = r@;
            if present[i] {
                r.push(
                    LinkAction::Removed { target: links[i].0.clone(), source: links[i].1.clone() },
                );
            }
            proof {
                assert(lv.take(i + 1).drop_last() =~= lv.take(i as int));
                assert(present@.take(i + 1).drop_last() =~= present@.take(i as int));
                assert(lv.take(i + 1).last() == lv[i as int]);
                assert(actions_view(r@) =~= spec_clean(lv.take(i + 1), present@.take(i + 1)));
            }
            i += 1;
        }
        proof {
            assert(lv.take(n as int) =~= lv);
            assert(present@.take(n as int) =~= present@);
        }
        r
    }
}

/// Views of a package vector.
pub open spec fn spec_package_views(s: Seq<Package>) -> Seq<crate::config::PackageV> {
    s.map_values(|p: Package| p@)
}

/// The first package whose target covers `target`, scanning from `i`.
pub open spec fn spec_first_owner(
    packages: Seq<crate::config::PackageV>,
    target: Seq<char>,
    i: int,
) -> Option<int>
    decreases packages.len() - i,
{
    if i < 0 || i >= packages.len() {
        None
    } else if crate::paths::spec_path_starts_with(target, packages[i].target) {
        Some(i)
    } else {
        spec_first_owner(packages, target, i + 1)
    }
}

/// The index of the first declared package whose target path covers the
/// given target, the grouping heuristic used for display: a best-effort
/// attribution, not an ownership model.
pub fn owning_package_index(packages: &Vec<Package>, target: &str) -> (r: Option<usize>)
    ensures
        match r {
            Some(i) => spec_first_owner(spec_package_views(packages@), target@, 0) == Some(
                i as int,
            ),
            None => spec_first_owner(spec_package_views(packages@), target@, 0) is None,
        },
{
    let ghost pv = spec_package_views(packages@);
    let n = packages.len();
    let mut i: usize = 0;
    while i < n
        invariant
            n == packages@.len(),
            pv == spec_package_views(packages@),
            i <= n,
            spec_first_owner(pv, target@, 0) == spec_first_owner(pv, target@, i as int),
        decreases n - i,
    {
        if crate::paths::path_starts_with(target, packages[i].target.as_str()) {
            return Some(i);
        }
        i += 1;
    }
    None
}



/// An implicit desired link whose source has vanished is silently
/// ignored: for every merge record carrying a declared source that is not
/// explicit and does not exist, the decision table yields no action and
/// no warning, whatever else the record holds and whether or not `force`
/// is set.
pub proof fn lemma_implicit_orphan_silent(st: LinkStatusV, force: bool, base: Seq<char>)
    requires
        st.wf(),
        st.config_resolved_source is Some,
        !st.source_exists,
        !st.config_is_explicit,
    ensures
        spec_decide(st, force, base) == Seq::<ActionV>::empty(),
{
}

/// Idempotence of reconciliation: a target whose first run decided
/// `Created` or `Updated` is decided `Skipped` on a second run, provided
/// nothing changed in between: the declared side is the same, the source
/// still exists, the store now records the absolute desired source `abs`
/// for the target (as a non-dry run writes it), and the target is now a
/// symlink resolving to `abs` (as the executor leaves it). The premise
/// that the recorded source equals the enriched absolute source excludes
/// the case where canonicalisation rewrites the joined path (for example
/// through a symlinked base directory), where the comparison heuristic
/// keeps reporting `Updated`.
pub proof fn lemma_reconcile_idempotent(
    st1: LinkStatusV,
    st2: LinkStatusV,
    force: bool,
    base: Seq<char>,
    abs: Seq<char>,
)
    requires
        st1.wf(),
        st2.wf(),
        st1.config_resolved_source is Some,
        st1.source_exists,
        spec_decide(st1, force, base)[0] is Created || spec_decide(st1, force, base)[0] is Updated,
        st2.config_resolved_source == st1.config_resolved_source,
        st2.config_resolved_target == st1.config_resolved_target,
        st2.config_is_explicit == st1.config_is_explicit,
        st2.source_exists,
        st2.config_abs_source == Some(abs),
        st2.state_resolved_source == Some(abs),
        st2.target_points_to == Some(abs),
    ensures
        spec_decide(st2, force, base) == seq![
            ActionV::Skipped {
                target: st2.the_target(),
                source: st2.config_resolved_source->0,
            },
        ],
{
}



/// How many of the actions are creations.
pub open spec fn spec_count_created(s: Seq<ActionV>) -> nat
    decreases s.len(),
{
    if s.len() == 0 {
        0
    } else {
        spec_count_created(s.drop_last()) + if s.last() is Created {
            1nat
        } else {
            0nat
        }
    }
}

/// How many of the actions are updates.
pub open spec fn spec_count_updated(s: Seq<ActionV>) -> nat
    decreases s.len(),
{
    if s.len() == 0 {
        0
    } else {
        spec_count_updated(s.drop_last()) + if s.last() is Updated {
            1nat
        } else {
            0nat
        }
    }
}

/// How many of the actions are skips.
pub open spec fn spec_count_skipped(s: Seq<ActionV>) -> nat
    decreases s.len(),
{
    if s.len() == 0 {
        0
    } else {
        spec_count_skipped(s.drop_last()) + if s.last() is Skipped {
            1nat
        } else {
            0nat
        }
    }
}

/// How many of the actions are removals.
pub open spec fn spec_count_removed(s: Seq<ActionV>) -> nat
    decreases s.len(),
{
    if s.len() == 0 {
        0
    } else {
        spec_count_removed(s.drop_last()) + if s.last() is Removed {
            1nat
        } else {
            0nat
        }
    }
}

/// How many of the actions are prunes.
pub open spec fn spec_count_pruned(s: Seq<ActionV>) -> nat
    decreases s.len(),
{
    if s.len() == 0 {
        0
    } else {
        spec_count_pruned(s.drop_last()) + if s.last() is Pruned {
            1nat
        } else {
            0nat
        }
    }
}

/// How many of the actions are warnings.
pub open spec fn spec_count_warnings(s: Seq<ActionV>) -> nat
    decreases s.len(),
{
    if s.len() == 0 {
        0
    } else {
        spec_count_warnings(s.drop_last()) + if s.last() is Warning {
            1nat
        } else {
            0nat
        }
    }
}

/// The tally of an action list, kind by kind.
#[derive(Debug, Clone, PartialEq, Eq, Structural)]
pub struct ActionCounts {
    pub created: usize,
    pub updated: usize,
    pub skipped: usize,
    pub removed: usize,
    pub pruned: usize,
    pub warnings: usize,
}

/// Tallies an action list: each field counts exactly the actions of its
/// kind.
pub fn count_actions(actions: &Vec<LinkAction>) -> (r: ActionCounts)
    ensures
        r.created == spec_count_created(actions_view(actions@)),
        r.updated == spec_count_updated(actions_view(actions@)),
        r.skipped == spec_count_skipped(actions_view(actions@)),
        r.removed == spec_count_removed(actions_view(actions@)),
        r.pruned == spec_count_pruned(actions_view(actions@)),
        r.warnings == spec_count_warnings(actions_view(actions@)),
{
    let ghost av = actions_view(actions@);
    let n = actions.len();
    let mut r = ActionCounts {
        created: 0,
        updated: 0,
        skipped: 0,
        removed: 0,
        pruned: 0,
        warnings: 0,
    };
    let mut i: usize = 0;
    while i < n
        invariant
            n == actions@.len(),
            av == actions_view(actions@),
            i <= n,
            r.created == spec_count_created(av.take(i as int)),
            r.updated == spec_count_updated(av.take(i as int)),
            r.skipped == spec_count_skipped(av.take(i as int)),
            r.removed == spec_count_removed(av.take(i as int)),
            r.pruned == spec_count_pruned(av.take(i as int)),
            r.warnings == spec_count_warnings(av.take(i as int)),
            r.created + r.updated + r.skipped + r.removed + r.pruned + r.warnings == i,
        decreases n - i,
    {
        proof {
            assert(av.take(i + 1).drop_last() =~= av.take(i as int));
            assert(av.take(i + 1).last() == av[i as int]);
        }
        match &actions[i] {
            LinkAction::Created { target, source } => {
                r.created += 1;
            },
            LinkAction::Updated { target, old_source, new_source } => {
                r.updated += 1;
            },
            LinkAction::Skipped { target, source } => {
                r.skipped += 1;
            },
            LinkAction::Removed { target, source } => {
                r.removed += 1;
            },
            LinkAction::Pruned { target, source } => {
                r.pruned += 1;
            },
            LinkAction::Warning { target, source, message } => {
                r.warnings += 1;
            },
        }
        i += 1;
    }
    proof {
        assert(av.take(n as int) =~= av);
    }
    r
}


} // verus!
