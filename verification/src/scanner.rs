use vstd::prelude::*;

use crate::config::{DotyConfig, LinkStrategy, Package, PackageV};
use crate::errors::DotyError;
use crate::paths::{
    opt_str_view, path_starts_with, resolve_target_path, spec_path_starts_with,
    spec_resolve_target,
};

verus! {

/// The kinds of drift between declared configuration, stored state, and
/// filesystem reality. `Modified` and `Orphaned` are reserved and not
/// produced by the scanner.
#[derive(Debug, Clone, PartialEq, Eq, Structural)]
pub enum DriftType {
    Untracked,
    Broken,
    Modified,
    Orphaned,
}

/// One detected drift: the target path concerned, the kind of drift, the
/// owning package when known, and the symlink's raw destination when one
/// could be read.
#[derive(Debug, Clone)]
pub struct DriftItem {
    pub target_path: String,
    pub drift_type: DriftType,
    pub package: Option<Package>,
    pub symlink_target: Option<String>,
}

/// Ghost mirror of a `DriftItem`.
pub ghost struct DriftItemV {
    pub target_path: Seq<char>,
    pub drift_type: DriftType,
    pub package: Option<PackageV>,
    pub symlink_target: Option<Seq<char>>,
}

/// A field-by-field copy whose relation to the original is visible to
/// the verifier.
fn clone_package(p: &Package) -> (r: Package)
    ensures
        r@ == p@,
{
    Package { source: p.source.clone(), target: p.target.clone(), strategy: p.strategy }
}

/// View of an optional package.
pub open spec fn opt_package_view(o: Option<Package>) -> Option<PackageV> {
    match o {
        Some(p) => Some(p@),
        None => None,
    }
}

impl View for DriftItem {
    type V = DriftItemV;

    open spec fn view(&self) -> DriftItemV {
        DriftItemV {
            target_path: self.target_path@,
            drift_type: self.drift_type,
            package: opt_package_view(self.package),
            symlink_target: opt_str_view(self.symlink_target),
        }
    }
}

/// Views of a drift item vector.
pub open spec fn drift_views(s: Seq<DriftItem>) -> Seq<DriftItemV> {
    s.map_values(|d: DriftItem| d@)
}

/// What the scanner needs to know about one package: whether its source
/// is a directory; for a recursive directory package, every file found
/// under the resolved target (absolute path, with whether the
/// corresponding path under the source exists); and whether the resolved
/// target is a broken symlink, with the raw destination read from it.
#[derive(Debug, Clone)]
pub struct PackageScanInfo {
    pub source_is_dir: bool,
    pub target_files: Vec<(String, bool)>,
    pub target_is_broken: bool,
    pub target_symlink_dest: Option<String>,
}

/// Ghost mirror of a `PackageScanInfo`.
pub ghost struct PackageScanInfoV {
    pub source_is_dir: bool,
    pub target_files: Seq<(Seq<char>, bool)>,
    pub target_is_broken: bool,
    pub target_symlink_dest: Option<Seq<char>>,
}

impl View for PackageScanInfo {
    type V = PackageScanInfoV;

    open spec fn view(&self) -> PackageScanInfoV {
        PackageScanInfoV {
            source_is_dir: self.source_is_dir,
            target_files: self.target_files@.map_values(|p: (String, bool)| (p.0@, p.1)),
            target_is_broken: self.target_is_broken,
            target_symlink_dest: opt_str_view(self.target_symlink_dest),
        }
    }
}

/// What the scanner needs to know about one stored target: whether the
/// entry there is a broken symlink, and the raw destination read from
/// it.
#[derive(Debug, Clone)]
pub struct StateTargetProbe {
    pub is_broken: bool,
    pub symlink_dest: Option<String>,
}

/// Ghost mirror of a `StateTargetProbe`.
pub ghost struct StateTargetProbeV {
    pub is_broken: bool,
    pub symlink_dest: Option<Seq<char>>,
}

impl View for StateTargetProbe {
    type V = StateTargetProbeV;

    open spec fn view(&self) -> StateTargetProbeV {
        StateTargetProbeV {
            is_broken: self.is_broken,
            symlink_dest: opt_str_view(self.symlink_dest),
        }
    }
}

/// The broken-symlink finding for one package's own target.
pub open spec fn spec_broken_item(
    tp: Seq<char>,
    pkg: PackageV,
    info: PackageScanInfoV,
) -> Seq<DriftItemV> {
    if info.target_is_broken {
        seq![
            DriftItemV {
                target_path: tp,
                drift_type: DriftType::Broken,
                package: Some(pkg),
                symlink_target: info.target_symlink_dest,
            },
        ]
    } else {
        Seq::<DriftItemV>::empty()
    }
}

/// The untracked-file findings under a recursive package's target: one
/// per target-side file whose corresponding source path does not exist.
pub open spec fn spec_untracked(files: Seq<(Seq<char>, bool)>, pkg: PackageV) -> Seq<DriftItemV>
    decreases files.len(),
{
    if files.len() == 0 {
        Seq::<DriftItemV>::empty()
    } else {
        spec_untracked(files.drop_last(), pkg) + if !files.last().1 {
            seq![
                DriftItemV {
                    target_path: files.last().0,
                    drift_type: DriftType::Untracked,
                    package: Some(pkg),
                    symlink_target: None,
                },
            ]
        } else {
            Seq::<DriftItemV>::empty()
        }
    }
}

/// The scanner's findings for one package (`None` when the package's
/// target cannot be resolved): a `LinkFolder` package, or a recursive
/// package whose source is not a directory, is checked only for a broken
/// target symlink; a recursive directory package is checked for
/// untracked files under its target.
pub open spec fn spec_scan_package(
    base: Seq<char>,
    home: Option<Seq<char>>,
    pkg: PackageV,
    info: PackageScanInfoV,
) -> Option<Seq<DriftItemV>> {
    match spec_resolve_target(pkg.target, base, home) {
        None => None,
        Some(tp) => Some(
            match pkg.strategy {
                LinkStrategy::LinkFolder => spec_broken_item(tp, pkg, info),
                LinkStrategy::LinkFilesRecursive => if info.source_is_dir {
                    spec_untracked(info.target_files, pkg)
                } else {
                    spec_broken_item(tp, pkg, info)
                },
            },
        ),
    }
}

/// Whether some declared package's resolved target covers the path; a
/// package whose target cannot be resolved covers everything, its
/// resolved form standing in as the empty path.
pub open spec fn spec_covered(
    base: Seq<char>,
    home: Option<Seq<char>>,
    packages: Seq<PackageV>,
    rt: Seq<char>,
) -> bool {
    exists|k: int|
        0 <= k < packages.len() && spec_path_starts_with(
            rt,
            match spec_resolve_target((#[trigger] packages[k]).target, base, home) {
                Some(p) => p,
                None => Seq::<char>::empty(),
            },
        )
}

/// The scanner's findings over the stored targets (`None` when one of
/// them cannot be resolved): every stored target not covered by a
/// declared package and sitting on a broken symlink is reported, with no
/// owning package.
pub open spec fn spec_scan_state(
    base: Seq<char>,
    home: Option<Seq<char>>,
    packages: Seq<PackageV>,
    pairs: Seq<(Seq<char>, Seq<char>)>,
    probes: Seq<StateTargetProbeV>,
) -> Option<Seq<DriftItemV>>
    decreases pairs.len(),
{
    if pairs.len() == 0 {
        Some(Seq::<DriftItemV>::empty())
    } else {
        match spec_scan_state(base, home, packages, pairs.drop_last(), probes.drop_last()) {
            None => None,
            Some(pre) => match spec_resolve_target(pairs.last().0, base, home) {
                None => None,
                Some(rt) => Some(
                    pre + if !spec_covered(base, home, packages, rt) && probes.last().is_broken {
                        seq![
                            DriftItemV {
                                target_path: rt,
                                drift_type: DriftType::Broken,
                                package: None,
                                symlink_target: probes.last().symlink_dest,
                            },
                        ]
                    } else {
                        Seq::<DriftItemV>::empty()
                    },
                ),
            },
        }
    }
}

/// The scanner's whole findings: each package's findings in package
/// order, then the stored-target findings in stored order.
pub open spec fn spec_scan_packages(
    base: Seq<char>,
    home: Option<Seq<char>>,
    packages: Seq<PackageV>,
    infos: Seq<PackageScanInfoV>,
) -> Option<Seq<DriftItemV>>
    decreases packages.len(),
{
    if packages.len() == 0 {
        Some(Seq::<DriftItemV>::empty())
    } else {
        match spec_scan_packages(base, home, packages.drop_last(), infos.drop_last()) {
            None => None,
            Some(pre) => match spec_scan_package(base, home, packages.last(), infos.last()) {
                None => None,
                Some(items) => Some(pre + items),
            },
        }
    }
}

/// The drift scanner: a pure pass over the declared packages, the stored
/// pairs, and the filesystem facts its caller gathered about both.
pub struct Scanner {
    pub config_dir_or_cwd: String,
    pub home: Option<String>,
}

impl Scanner {
    /// Creates a scanner over the given base directory and home
    /// directory.
    pub fn new(config_dir_or_cwd: String, home: Option<String>) -> (r: Scanner)
        ensures
            r.config_dir_or_cwd@ == config_dir_or_cwd@,
            opt_str_view(r.home) == opt_str_view(home),
    {
        Scanner { config_dir_or_cwd, home }
    }

    /// Whether some declared package's resolved target covers the path,
    /// following `spec_covered`.
    fn is_covered(&self, packages: &Vec<Package>, rt: &str) -> (r: bool)
        ensures
            r == spec_covered(
                self.config_dir_or_cwd@,
                opt_str_view(self.home),
                crate::linker::spec_package_views(packages@),
                rt@,
            ),
    {
        let ghost pv = crate::linker::spec_package_views(packages@);
        let n = packages.len();
        let mut k: usize = 0;
        while k < n
            invariant
                n == packages@.len(),
                pv == crate::linker::spec_package_views(packages@),
                k <= n,
                forall|m: int|
                    0 <= m < k ==> !spec_path_starts_with(
                        rt@,
                        match spec_resolve_target(
                            (#[trigger] pv[m]).target,
                            self.config_dir_or_cwd@,
                            opt_str_view(self.home),
                        ) {
                            Some(p) => p,
                            None => Seq::<char>::empty(),
                        },
                    ),
            decreases n - k,
        {
            let pt: String = match resolve_target_path(
                packages[k].target.as_str(),
                self.config_dir_or_cwd.as_str(),
                &self.home,
            ) {
                Ok(p) => p,
                Err(e) => String::new(),
            };
            if path_starts_with(rt, pt.as_str()) {
                proof {
                    assert(spec_path_starts_with(
                        rt@,
                        match spec_resolve_target(
                            (#[trigger] pv[k as int]).target,
                            self.config_dir_or_cwd@,
                            opt_str_view(self.home),
                        ) {
                            Some(p) => p,
                            None => Seq::<char>::empty(),
                        },
                    ));
                }
                return true;
            }
            k += 1;
        }
        false
    }

    /// Scans one package for drift, following `spec_scan_package`.
    pub fn scan_package(&self, package: &Package, info: &PackageScanInfo) -> (r: Result<
        Vec<DriftItem>,
        DotyError,
    >)
        ensures
            match spec_scan_package(
                self.config_dir_or_cwd@,
                opt_str_view(self.home),
                package@,
                info@,
            ) {
                Some(items) => r is Ok && drift_views(r->Ok_0@) == items,
                None => r is Err && r->Err_0 is NoHomeDirectory,
            },
    {
        let tp = match resolve_target_path(
            package.target.as_str(),
            self.config_dir_or_cwd.as_str(),
            &self.home,
        ) {
            Ok(p) => p,
            Err(e) => {
                return Err(DotyError::NoHomeDirectory);
            },
        };
        let mut r: Vec<DriftItem> = Vec::new();
        let recursive_dir = match package.strategy {
            LinkStrategy::LinkFolder => false,
            LinkStrategy::LinkFilesRecursive => info.source_is_dir,
        };
        if recursive_dir {
            let ghost fv = info@.target_files;
            let ghost goal = spec_untracked(fv, package@);
            let n = info.target_files.len();
            let mut i: usize = 0;
            while i < n
                invariant
                    n == info.target_files@.len(),
                    fv == info@.target_files,
                    i <= n,
                    drift_views(r@) =~= spec_untracked(fv.take(i as int), package@),
                decreases n - i,
            {
                proof {
                    assert(fv.take(i + 1).drop_last() =~= fv.take(i as int));
                    assert(fv.take(i + 1).last() == fv[i as int]);
                    assert(fv[i as int] == (info.target_files@[i as int].0@,
                    info.target_files@[i as int].1));
                }
                if !info.target_files[i].1 {
                    r.push(
                        DriftItem {
                            target_path: info.target_files[i].0.clone(),
                            drift_type: DriftType::Untracked,
                            package: Some(clone_package(package)),
                            symlink_target: None,
                        },
                    );
                }
                proof {
                    assert(drift_views(r@) =~= spec_untracked(fv.take(i + 1), package@));
                }
                i += 1;
            }
            proof {
                assert(fv.take(n as int) =~= fv);
            }
        } else {
            if info.target_is_broken {
                let dest = match &info.target_symlink_dest {
                    Some(d) => Some(d.clone()),
                    None => None,
                };
                r.push(
                    DriftItem {
                        target_path: tp,
                        drift_type: DriftType::Broken,
                        package: Some(clone_package(package)),
                        symlink_target: dest,
                    },
                );
            }
            proof {
                assert(drift_views(r@) =~~= spec_broken_item(
                    spec_resolve_target(
                        package@.target,
                        self.config_dir_or_cwd@,
                        opt_str_view(self.home),
                    )->0,
                    package@,
                    info@,
                ));
            }
        }
        Ok(r)
    }

    /// Scans every declared package and every stored target for drift,
    /// following `spec_scan_packages` and `spec_scan_state`: per-package
    /// findings first, stored-target findings after, each in order.
    pub fn scan_targets(&self, config: &DotyConfig, state_links: &Vec<(String, String)>, pkg_infos: &Vec<
        PackageScanInfo,
    >, state_probes: &Vec<StateTargetProbe>) -> (r: Result<Vec<DriftItem>, DotyError>)
        requires
            pkg_infos@.len() == config.packages@.len(),
            state_probes@.len() == state_links@.len(),
        ensures
            ({
                let pv = crate::linker::spec_package_views(config.packages@);
                let iv = pkg_infos@.map_values(|p: PackageScanInfo| p@);
                let sv = crate::paths::spec_pair_views(state_links@);
                let qv = state_probes@.map_values(|p: StateTargetProbe| p@);
                let base = self.config_dir_or_cwd@;
                let home = opt_str_view(self.home);
                match spec_scan_packages(base, home, pv, iv) {
                    None => r is Err && r->Err_0 is NoHomeDirectory,
                    Some(a) => match spec_scan_state(base, home, pv, sv, qv) {
                        None => r is Err && r->Err_0 is NoHomeDirectory,
                        Some(b) => r is Ok && drift_views(r->Ok_0@) == a + b,
                    },
                }
            }),
    {
        let ghost pv = crate::linker::spec_package_views(config.packages@);
        let ghost iv = pkg_infos@.map_values(|p: PackageScanInfo| p@);
        let ghost sv = crate::paths::spec_pair_views(state_links@);
        let ghost qv = state_probes@.map_values(|p: StateTargetProbe| p@);
        let ghost base = self.config_dir_or_cwd@;
        let ghost home = opt_str_view(self.home);
        let mut r: Vec<DriftItem> = Vec::new();
        let np = config.packages.len();
        let mut i: usize = 0;
        while i < np
            invariant
                np == config.packages@.len(),
                pkg_infos@.len() == config.packages@.len(),
                pv == crate::linker::spec_package_views(config.packages@),
                iv == pkg_infos@.map_values(|p: PackageScanInfo| p@),
                base == self.config_dir_or_cwd@,
                home == opt_str_view(self.home),
                i <= np,
                spec_scan_packages(base, home, pv.take(i as int), iv.take(i as int)) == Some(
                    drift_views(r@),
                ),
            decreases np - i,
        {
            proof {
                assert(pv.take(i + 1).drop_last() =~= pv.take(i as int));
                assert(iv.take(i + 1).drop_last() =~= iv.take(i as int));
                assert(pv.take(i + 1).last() == pv[i as int]);
                assert(iv.take(i + 1).last() == iv[i as int]);
            }
            let mut items = match self.scan_package(&config.packages[i], &pkg_infos[i]) {
                Ok(items) => items,
                Err(e) => {
                    proof {
                        assert(spec_scan_packages(base, home, pv.take(i + 1), iv.take(i + 1))
                            is None);
                        lemma_scan_packages_extend_none(base, home, pv, iv, i + 1);
                    }
                    return Err(DotyError::NoHomeDirectory);
                },
            };
            let ghost pre = r@;
            let ghost items0 = items@;
            r.append(&mut items);
            proof {
                assert(drift_views(r@) =~= drift_views(pre) + drift_views(items0));
            }
            i += 1;
        }
        proof {
            assert(pv.take(np as int) =~= pv);
            assert(iv.take(np as int) =~= iv);
        }
        let ghost head_items = drift_views(r@);
        let ns = state_links.len();
        let mut j: usize = 0;
        while j < ns
            invariant
                ns == state_links@.len(),
                state_probes@.len() == state_links@.len(),
                pv == crate::linker::spec_package_views(config.packages@),
                sv == crate::paths::spec_pair_views(state_links@),
                qv == state_probes@.map_values(|p: StateTargetProbe| p@),
                base == self.config_dir_or_cwd@,
                home == opt_str_view(self.home),
                j <= ns,
                spec_scan_packages(base, home, pv, iv) == Some(head_items),
                spec_scan_state(base, home, pv, sv.take(j as int), qv.take(j as int)) == Some(
                    drift_views(r@).skip(head_items.len() as int),
                ),
                drift_views(r@).take(head_items.len() as int) == head_items,
                r@.len() >= head_items.len(),
            decreases ns - j,
        {
            proof {
                assert(sv.take(j + 1).drop_last() =~= sv.take(j as int));
                assert(qv.take(j + 1).drop_last() =~= qv.take(j as int));
                assert(sv.take(j + 1).last() == sv[j as int]);
                assert(qv.take(j + 1).last() == qv[j as int]);
                assert(sv[j as int] == (state_links@[j as int].0@, state_links@[j as int].1@));
                assert(qv[j as int] == state_probes@[j as int]@);
            }
            let rt = match resolve_target_path(
                state_links[j].0.as_str(),
                self.config_dir_or_cwd.as_str(),
                &self.home,
            ) {
                Ok(p) => p,
                Err(e) => {
                    proof {
                        assert(spec_scan_state(base, home, pv, sv.take(j + 1), qv.take(j + 1))
                            is None);
                        lemma_scan_state_extend_none(base, home, pv, sv, qv, j + 1);
                    }
                    return Err(DotyError::NoHomeDirectory);
                },
            };
            let ghost pre = r@;
            let covered = self.is_covered(&config.packages, rt.as_str());
            if !covered && state_probes[j].is_broken {
                let dest = match &state_probes[j].symlink_dest {
                    Some(d) => Some(d.clone()),
                    None => None,
                };
                r.push(
                    DriftItem {
                        target_path: rt,
                        drift_type: DriftType::Broken,
                        package: None,
                        symlink_target: dest,
                    },
                );
            }
            proof {
                assert(drift_views(r@).take(head_items.len() as int) =~= head_items);
                assert(drift_views(r@).skip(head_items.len() as int) =~= drift_views(pre).skip(
                    head_items.len() as int,
                ) + drift_views(r@).skip(pre.len() as int));
                assert(spec_scan_state(base, home, pv, sv.take(j + 1), qv.take(j + 1)) == Some(
                    drift_views(r@).skip(head_items.len() as int),
                ));
            }
            j += 1;
        }
        proof {
            assert(sv.take(ns as int) =~= sv);
            assert(qv.take(ns as int) =~= qv);
            assert(drift_views(r@) =~= head_items + drift_views(r@).skip(
                head_items.len() as int,
            ));
        }
        Ok(r)
    }
}

/// Once a package-scan prefix fails to resolve, the whole scan does.
proof fn lemma_scan_packages_extend_none(
    base: Seq<char>,
    home: Option<Seq<char>>,
    packages: Seq<PackageV>,
    infos: Seq<PackageScanInfoV>,
    k: int,
)
    requires
        0 <= k <= packages.len(),
        infos.len() == packages.len(),
        spec_scan_packages(base, home, packages.take(k), infos.take(k)) is None,
    ensures
        spec_scan_packages(base, home, packages, infos) is None,
    decreases packages.len() - k,
{
    if k < packages.len() {
        assert(packages.take(k + 1).drop_last() =~= packages.take(k));
        assert(infos.take(k + 1).drop_last() =~= infos.take(k));
        lemma_scan_packages_extend_none(base, home, packages, infos, k + 1);
    } else {
        assert(packages.take(k) =~= packages);
        assert(infos.take(k) =~= infos);
    }
}

/// Once a stored-target prefix fails to resolve, the whole pass does.
proof fn lemma_scan_state_extend_none(
    base: Seq<char>,
    home: Option<Seq<char>>,
    packages: Seq<PackageV>,
    pairs: Seq<(Seq<char>, Seq<char>)>,
    probes: Seq<StateTargetProbeV>,
    k: int,
)
    requires
        0 <= k <= pairs.len(),
        probes.len() == pairs.len(),
        spec_scan_state(base, home, packages, pairs.take(k), probes.take(k)) is None,
    ensures
        spec_scan_state(base, home, packages, pairs, probes) is None,
    decreases pairs.len() - k,
{
    if k < pairs.len() {
        assert(pairs.take(k + 1).drop_last() =~= pairs.take(k));
        assert(probes.take(k + 1).drop_last() =~= probes.take(k));
        lemma_scan_state_extend_none(base, home, packages, pairs, probes, k + 1);
    } else {
        assert(pairs.take(k) =~= pairs);
        assert(probes.take(k) =~= probes);
    }
}

} // verus!
