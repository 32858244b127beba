use vstd::prelude::*;

verus! {

/// How relative paths in the configuration are resolved: against the
/// directory holding the configuration file, or against the process's
/// current working directory.
#[derive(Debug, Clone, Copy, PartialEq, Eq, Structural)]
pub enum PathResolution {
    Config,
    Cwd,
}

impl Default for PathResolution {
    /// Relative paths resolve against the configuration file's directory
    /// unless the configuration says otherwise.
    fn default() -> (r: Self)
        ensures
            r == PathResolution::Config,
    {
        PathResolution::Config
    }
}

impl PathResolution {
    /// The lower-case name this mode carries in the configuration file.
    pub fn to_string(&self) -> (r: String)
        ensures
            *self == PathResolution::Config ==> r@ == "config"@,
            *self == PathResolution::Cwd ==> r@ == "cwd"@,
    {
        match self {
            PathResolution::Config => String::from_str("config"),
            PathResolution::Cwd => String::from_str("cwd"),
        }
    }
}

/// How one declared package is linked: the whole source directory as a
/// single symlink, or its tree mirrored with each file linked on its own.
#[derive(Debug, Clone, Copy, PartialEq, Eq, Structural)]
pub enum LinkStrategy {
    LinkFolder,
    LinkFilesRecursive,
}

/// One declared link intent: a source path (relative to the resolution
/// base), a target path (`~`-relative, absolute, or relative), and the
/// linking strategy.
#[derive(Debug, Clone, PartialEq)]
pub struct Package {
    pub source: String,
    pub target: String,
    pub strategy: LinkStrategy,
}

/// Ghost mirror of a `Package`, with paths as character sequences.
pub ghost struct PackageV {
    pub source: Seq<char>,
    pub target: Seq<char>,
    pub strategy: LinkStrategy,
}

impl View for Package {
    type V = PackageV;

    open spec fn view(&self) -> PackageV {
        PackageV { source: self.source@, target: self.target@, strategy: self.strategy }
    }
}

/// The whole declared configuration: the ordered package list and the
/// path-resolution mode.
#[derive(Debug, Clone, PartialEq)]
pub struct DotyConfig {
    pub packages: Vec<Package>,
    pub path_resolution: PathResolution,
}

} // verus!
