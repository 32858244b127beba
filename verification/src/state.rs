use vstd::prelude::*;

use crate::codec::{
    emit_document, find_key, lemma_codec_roundtrip, links_update, parse_document, safe_kdl_string,
    spec_emit, spec_key_index, spec_links_update, spec_parse, DocV,
};
use crate::errors::DotyError;
use crate::linker::{ActionV, LinkAction};
use crate::paths::{normalize_to_absolute, spec_normalize, spec_pair_views};

verus! {

/// The persisted record of deployed links on one machine: the host's
/// name, the format version, the base path that relative entries were
/// resolved against at write time, and the target-to-source pairs, one
/// per managed target.
#[derive(Debug, Clone, PartialEq)]
pub struct DotyState {
    pub hostname: String,
    pub lockfile_version: u32,
    pub base_path: String,
    pub links: Vec<(String, String)>,
}

/// Ghost mirror of a `DotyState`.
pub ghost struct DotyStateV {
    pub hostname: Seq<char>,
    pub lockfile_version: u32,
    pub base_path: Seq<char>,
    pub links: Seq<(Seq<char>, Seq<char>)>,
}

impl View for DotyState {
    type V = DotyStateV;

    open spec fn view(&self) -> DotyStateV {
        DotyStateV {
            hostname: self.hostname@,
            lockfile_version: self.lockfile_version@,
            base_path: self.base_path@,
            links: spec_pair_views(self.links@),
        }
    }
}

impl DotyStateV {
    /// No target is recorded twice.
    pub open spec fn unique_targets(self) -> bool {
        forall|i: int, j: int| 0 <= i < j < self.links.len() ==> self.links[i].0 != self.links[j].0
    }

    /// Every stored string can be written to the lockfile text and read
    /// back.
    pub open spec fn persistable(self) -> bool {
        safe_kdl_string(self.base_path) && forall|i: int|
            0 <= i < self.links.len() ==> safe_kdl_string(#[trigger] self.links[i].0)
                && safe_kdl_string(self.links[i].1)
    }
}

/// Removing one pair by target: the record is dropped when the target is
/// there, and nothing changes when it is not.
pub open spec fn spec_links_remove(links: Seq<(Seq<char>, Seq<char>)>, t: Seq<char>) -> Seq<
    (Seq<char>, Seq<char>),
> {
    let i = spec_key_index(links, t);
    if i < links.len() {
        links.remove(i)
    } else {
        links
    }
}

/// How one applied action changes the persisted record: created and
/// updated targets are recorded under their normalised absolute forms,
/// removed and pruned targets are dropped, and warnings and skips leave
/// the record alone.
pub open spec fn spec_apply_action(st: DotyStateV, a: ActionV, home: Option<Seq<char>>) -> DotyStateV {
    match a {
        ActionV::Created { target, source } => DotyStateV {
            links: spec_links_update(
                st.links,
                spec_normalize(target, st.base_path, home),
                spec_normalize(source, st.base_path, home),
            ),
            ..st
        },
        ActionV::Updated { target, old_source, new_source } => DotyStateV {
            links: spec_links_update(
                st.links,
                spec_normalize(target, st.base_path, home),
                spec_normalize(new_source, st.base_path, home),
            ),
            ..st
        },
        ActionV::Removed { target, source } => DotyStateV {
            links: spec_links_remove(st.links, spec_normalize(target, st.base_path, home)),
            ..st
        },
        ActionV::Pruned { target, source } => DotyStateV {
            links: spec_links_remove(st.links, spec_normalize(target, st.base_path, home)),
            ..st
        },
        ActionV::Skipped { target, source } => st,
        ActionV::Warning { target, source, message } => st,
    }
}

impl DotyState {
    /// A fresh, empty record for one host.
    pub fn new(hostname: String, base_path: String) -> (r: DotyState)
        ensures
            r@.hostname == hostname@,
            r@.lockfile_version == 1u32,
            r@.base_path == base_path@,
            r@.links == Seq::<(Seq<char>, Seq<char>)>::empty(),
            r@.unique_targets(),
    {
        let r = DotyState { hostname, lockfile_version: 1, base_path, links: Vec::new() };
        proof {
            assert(spec_pair_views(r.links@) =~= Seq::<(Seq<char>, Seq<char>)>::empty());
        }
        r
    }

    /// Reads a record from lockfile text, taking the host's name from the
    /// caller; fails with a configuration error exactly when the text does
    /// not parse (`spec_parse`).
    pub fn from_str(content: &str, hostname: &str) -> (r: Result<DotyState, DotyError>)
        ensures
            match r {
                Ok(st) => spec_parse(content@) == Some(
                    DocV {
                        version: st@.lockfile_version,
                        base: st@.base_path,
                        links: st@.links,
                    },
                ) && st@.hostname == hostname@,
                Err(e) => spec_parse(content@) is None && e is ConfigError,
            },
    {
        match parse_document(content) {
            Ok((version, base, links)) => Ok(
                DotyState {
                    hostname: hostname.to_owned(),
                    lockfile_version: version,
                    base_path: base,
                    links,
                },
            ),
            Err(e) => Err(e),
        }
    }

    /// Writes the record as lockfile text (`spec_emit`): the version
    /// marker, the base-path marker, then one link node per stored pair,
    /// in stored order.
    pub fn to_kdl(&self) -> (r: String)
        ensures
            r@ == spec_emit(self@.lockfile_version, self@.base_path, self@.links),
    {
        emit_document(self.lockfile_version, self.base_path.as_str(), &self.links)
    }

    /// Records one link as given, replacing any pair already stored for
    /// the same target.
    pub fn add_link(&mut self, target: String, source: String)
        ensures
            final(self)@ == (DotyStateV {
                links: spec_links_update(old(self)@.links, target@, source@),
                ..old(self)@
            }),
    {
        links_update(&mut self.links, target, source);
    }

    /// Drops the pair stored for a target, handing back its source, or
    /// nothing when the target is not recorded.
    pub fn remove_link(&mut self, target: &str) -> (r: Option<String>)
        ensures
            final(self)@ == (DotyStateV {
                links: spec_links_remove(old(self)@.links, target@),
                ..old(self)@
            }),
            match r {
                Some(src) => spec_key_index(old(self)@.links, target@) < old(self)@.links.len()
                    && src@ == old(self)@.links[spec_key_index(old(self)@.links, target@)].1,
                None => spec_key_index(old(self)@.links, target@) == old(self)@.links.len(),
            },
    {
        match find_key(&self.links, target) {
            Some(i) => {
                let ghost lv = spec_pair_views(self.links@);
                let pair = self.links.remove(i);
                proof {
                    assert(spec_pair_views(self.links@) =~= lv.remove(i as int));
                }
                Some(pair.1)
            },
            None => None,
        }
    }

    /// Whether a target is recorded.
    pub fn is_managed(&self, target: &str) -> (r: bool)
        ensures
            r == (spec_key_index(self@.links, target@) < self@.links.len()),
    {
        find_key(&self.links, target).is_some()
    }

    /// The source recorded for a target, if any.
    pub fn get_source(&self, target: &str) -> (r: Option<&String>)
        ensures
            match r {
                Some(src) => spec_key_index(self@.links, target@) < self@.links.len() && src@
                    == self@.links[spec_key_index(self@.links, target@)].1,
                None => spec_key_index(self@.links, target@) == self@.links.len(),
            },
    {
        match find_key(&self.links, target) {
            Some(i) => Some(&self.links[i].1),
            None => None,
        }
    }

    /// Folds one applied action into the record, following
    /// `spec_apply_action`: what was created or updated is recorded under
    /// its normalised absolute target and source, what was removed or
    /// pruned is dropped, and warnings and skips change nothing.
    pub fn apply_action(&mut self, action: &LinkAction, home: &Option<String>)
        ensures
            final(self)@ == spec_apply_action(
                old(self)@,
                action@,
                crate::paths::opt_str_view(*home),
            ),
    {
        match action {
            LinkAction::Created { target, source } => {
                let t = normalize_to_absolute(target.as_str(), self.base_path.as_str(), home);
                let s = normalize_to_absolute(source.as_str(), self.base_path.as_str(), home);
                links_update(&mut self.links, t, s);
            },
            LinkAction::Updated { target, old_source, new_source } => {
                let t = normalize_to_absolute(target.as_str(), self.base_path.as_str(), home);
                let s = normalize_to_absolute(new_source.as_str(), self.base_path.as_str(), home);
                links_update(&mut self.links, t, s);
            },
            LinkAction::Removed { target, source } => {
                let t = normalize_to_absolute(target.as_str(), self.base_path.as_str(), home);
                let _ = self.remove_link(t.as_str());
            },
            LinkAction::Pruned { target, source } => {
                let t = normalize_to_absolute(target.as_str(), self.base_path.as_str(), home);
                let _ = self.remove_link(t.as_str());
            },
            LinkAction::Skipped { target, source } => {},
            LinkAction::Warning { target, source, message } => {},
        }
    }
}

/// Round trip of persistence: writing a record as lockfile text and
/// reading it back under the same hostname yields an equal record — the
/// same version, base path, and target-to-source pairs — for every
/// record whose targets are unique and whose strings the text form can
/// carry.
pub proof fn lemma_persist_load_roundtrip(st: DotyStateV)
    requires
        st.unique_targets(),
        st.persistable(),
    ensures
        spec_parse(spec_emit(st.lockfile_version, st.base_path, st.links)) == Some(
            DocV { version: st.lockfile_version, base: st.base_path, links: st.links },
        ),
{
    lemma_codec_roundtrip(st.lockfile_version, st.base_path, st.links);
}

} // verus!
