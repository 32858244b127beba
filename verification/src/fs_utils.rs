use vstd::prelude::*;

verus! {

/// The link-aware kind of an existing filesystem entry: a symlink is
/// reported as such even when it is broken, never followed.
#[derive(Debug, Clone, Copy, PartialEq, Eq, Structural)]
pub enum FsType {
    File,
    Directory,
    Symlink,
}

/// What package expansion needs to know about a package's source path.
/// `Dir` carries the relative paths of every regular file found under the
/// source root by recursive traversal; `Other` stands for an entry that
/// exists but is neither a regular file nor a directory.
#[derive(Debug, Clone)]
pub enum SourceInfo {
    Missing,
    File,
    Dir { files: Vec<String> },
    Other,
}

/// Ghost mirror of `SourceInfo`.
pub ghost enum SourceInfoV {
    Missing,
    File,
    Dir { files: Seq<Seq<char>> },
    Other,
}

impl View for SourceInfo {
    type V = SourceInfoV;

    open spec fn view(&self) -> SourceInfoV {
        match self {
            SourceInfo::Missing => SourceInfoV::Missing,
            SourceInfo::File => SourceInfoV::File,
            SourceInfo::Dir { files } => SourceInfoV::Dir {
                files: files@.map_values(|f: String| f@),
            },
            SourceInfo::Other => SourceInfoV::Other,
        }
    }
}

/// What enrichment needs to know about one merged target: the link-aware
/// kind of the entry at the resolved target path (`None` when nothing is
/// there or it could not be read), the canonicalised destination when the
/// target is a non-broken symlink, and the canonicalised form of the
/// joined desired source when canonicalisation succeeded.
#[derive(Debug, Clone)]
pub struct TargetProbe {
    pub fs_type: Option<FsType>,
    pub points_to: Option<String>,
    pub canon_source: Option<String>,
}

/// Ghost mirror of a `TargetProbe`.
pub ghost struct TargetProbeV {
    pub fs_type: Option<FsType>,
    pub points_to: Option<Seq<char>>,
    pub canon_source: Option<Seq<char>>,
}

impl View for TargetProbe {
    type V = TargetProbeV;

    open spec fn view(&self) -> TargetProbeV {
        TargetProbeV {
            fs_type: self.fs_type,
            points_to: crate::paths::opt_str_view(self.points_to),
            canon_source: crate::paths::opt_str_view(self.canon_source),
        }
    }
}

} // verus!
