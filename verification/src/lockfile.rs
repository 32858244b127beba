use vstd::prelude::*;

use crate::codec::{
    emit_document, find_key, links_update, parse_document, spec_emit, spec_key_index,
    spec_links_update, spec_parse, DocV,
};
use crate::errors::DotyError;
use crate::paths::{normalize_to_absolute, opt_str_view, spec_normalize, spec_pair_views};
use crate::state::spec_links_remove;

verus! {

/// The persisted record of deployed links, addressed through normalised
/// absolute paths: every target and source handed to it is first
/// normalised against the recorded base path (and the home directory,
/// when one is known), so that the stored pairs are absolute wherever
/// normalisation can make them so.
#[derive(Debug, Clone, PartialEq)]
pub struct Lockfile {
    pub hostname: String,
    pub lockfile_version: u32,
    pub base_path: String,
    pub links: Vec<(String, String)>,
    pub home: Option<String>,
}

/// Ghost mirror of a `Lockfile`.
pub ghost struct LockfileV {
    pub hostname: Seq<char>,
    pub lockfile_version: u32,
    pub base_path: Seq<char>,
    pub links: Seq<(Seq<char>, Seq<char>)>,
    pub home: Option<Seq<char>>,
}

impl View for Lockfile {
    type V = LockfileV;

    open spec fn view(&self) -> LockfileV {
        LockfileV {
            hostname: self.hostname@,
            lockfile_version: self.lockfile_version@,
            base_path: self.base_path@,
            links: spec_pair_views(self.links@),
            home: opt_str_view(self.home),
        }
    }
}

impl Lockfile {
    /// A fresh, empty record for one host, with no known home directory.
    pub fn new(hostname: String, base_path: String) -> (r: Lockfile)
        ensures
            r@.hostname == hostname@,
            r@.lockfile_version == 1u32,
            r@.base_path == base_path@,
            r@.links == Seq::<(Seq<char>, Seq<char>)>::empty(),
            r@.home is None,
    {
        let r = Lockfile {
            hostname,
            lockfile_version: 1,
            base_path,
            links: Vec::new(),
            home: None,
        };
        proof {
            assert(spec_pair_views(r.links@) =~= Seq::<(Seq<char>, Seq<char>)>::empty());
        }
        r
    }

    /// Hands the record the home directory to normalise `~`-paths under.
    pub fn set_home(&mut self, home: Option<String>)
        ensures
            final(self)@ == (LockfileV { home: opt_str_view(home), ..old(self)@ }),
    {
        self.home = home;
    }

    /// Reads a record from lockfile text, taking the host's name from the
    /// caller; fails with a configuration error exactly when the text does
    /// not parse (`spec_parse`).
    pub fn from_str(content: &str, hostname: &str) -> (r: Result<Lockfile, DotyError>)
        ensures
            match r {
                Ok(lf) => spec_parse(content@) == Some(
                    DocV {
                        version: lf@.lockfile_version,
                        base: lf@.base_path,
                        links: lf@.links,
                    },
                ) && lf@.hostname == hostname@ && lf@.home is None,
                Err(e) => spec_parse(content@) is None && e is ConfigError,
            },
    {
        match parse_document(content) {
            Ok((version, base, links)) => Ok(
                Lockfile {
                    hostname: hostname.to_owned(),
                    lockfile_version: version,
                    base_path: base,
                    links,
                    home: None,
                },
            ),
            Err(e) => Err(e),
        }
    }

    /// Writes the record as lockfile text (`spec_emit`).
    pub fn to_kdl(&self) -> (r: String)
        ensures
            r@ == spec_emit(self@.lockfile_version, self@.base_path, self@.links),
    {
        emit_document(self.lockfile_version, self.base_path.as_str(), &self.links)
    }

    /// Records one link under the normalised absolute forms of its target
    /// and source, replacing any pair already stored for the same
    /// normalised target.
    pub fn add_link(&mut self, target: String, source: String)
        ensures
            final(self)@ == (LockfileV {
                links: spec_links_update(
                    old(self)@.links,
                    spec_normalize(target@, old(self)@.base_path, old(self)@.home),
                    spec_normalize(source@, old(self)@.base_path, old(self)@.home),
                ),
                ..old(self)@
            }),
    {
        let t = normalize_to_absolute(target.as_str(), self.base_path.as_str(), &self.home);
        let s = normalize_to_absolute(source.as_str(), self.base_path.as_str(), &self.home);
        links_update(&mut self.links, t, s);
    }

    /// Drops the pair stored for a target, trying the normalised form
    /// first and the as-written key second (loaded lockfiles hold keys as
    /// written), handing back the removed source.
    pub fn remove_link(&mut self, target: &str) -> (r: Option<String>)
        ensures
            ({
                let t = spec_normalize(target@, old(self)@.base_path, old(self)@.home);
                let ln = old(self)@.links;
                if spec_key_index(ln, t) < ln.len() {
                    final(self)@ == (LockfileV { links: spec_links_remove(ln, t), ..old(self)@ })
                        && r is Some && r->0@ == ln[spec_key_index(ln, t)].1
                } else if spec_key_index(ln, target@) < ln.len() {
                    final(self)@ == (LockfileV {
                        links: spec_links_remove(ln, target@),
                        ..old(self)@
                    }) && r is Some && r->0@ == ln[spec_key_index(ln, target@)].1
                } else {
                    final(self)@ == old(self)@ && r is None
                }
            }),
    {
        let t = normalize_to_absolute(target, self.base_path.as_str(), &self.home);
        match find_key(&self.links, t.as_str()) {
            Some(i) => {
                let ghost lv = spec_pair_views(self.links@);
                let pair = self.links.remove(i);
                proof {
                    assert(spec_pair_views(self.links@) =~= lv.remove(i as int));
                }
                Some(pair.1)
            },
            None => {
                match find_key(&self.links, target) {
                    Some(i) => {
                        let ghost lv = spec_pair_views(self.links@);
                        let pair = self.links.remove(i);
                        proof {
                            assert(spec_pair_views(self.links@) =~= lv.remove(i as int));
                        }
                        Some(pair.1)
                    },
                    None => None,
                }
            },
        }
    }

    /// Whether a target is recorded, under its normalised form or as
    /// written.
    pub fn is_managed(&self, target: &str) -> (r: bool)
        ensures
            ({
                let t = spec_normalize(target@, self@.base_path, self@.home);
                r == (spec_key_index(self@.links, t) < self@.links.len() || spec_key_index(
                    self@.links,
                    target@,
                ) < self@.links.len())
            }),
    {
        let t = normalize_to_absolute(target, self.base_path.as_str(), &self.home);
        find_key(&self.links, t.as_str()).is_some() || find_key(&self.links, target).is_some()
    }

    /// The source recorded for a target, under its normalised form or as
    /// written, if any.
    pub fn get_source(&self, target: &str) -> (r: Option<&String>)
        ensures
            ({
                let t = spec_normalize(target@, self@.base_path, self@.home);
                let ln = self@.links;
                if spec_key_index(ln, t) < ln.len() {
                    r is Some && r->0@ == ln[spec_key_index(ln, t)].1
                } else if spec_key_index(ln, target@) < ln.len() {
                    r is Some && r->0@ == ln[spec_key_index(ln, target@)].1
                } else {
                    r is None
                }
            }),
    {
        let t = normalize_to_absolute(target, self.base_path.as_str(), &self.home);
        match find_key(&self.links, t.as_str()) {
            Some(i) => Some(&self.links[i].1),
            None => {
                match find_key(&self.links, target) {
                    Some(i) => Some(&self.links[i].1),
                    None => None,
                }
            },
        }
    }
}

} // verus!
