use doty::{
    DotyConfig, DriftType, LinkStrategy, Package, PackageScanInfo, PathResolution, Scanner,
    StateTargetProbe,
};

fn scanner(home: Option<&str>) -> Scanner {
    Scanner::new("/dots".to_string(), home.map(|h| h.to_string()))
}

fn folder_package(target: &str) -> Package {
    Package {
        source: "app".to_string(),
        target: target.to_string(),
        strategy: LinkStrategy::LinkFolder,
    }
}

fn quiet_info() -> PackageScanInfo {
    PackageScanInfo {
        source_is_dir: true,
        target_files: vec![],
        target_is_broken: false,
        target_symlink_dest: None,
    }
}

#[test]
fn broken_folder_link_is_reported() {
    let sc = scanner(Some("/home/u"));
    let pkg = folder_package("~/.config/app");
    let info = PackageScanInfo {
        source_is_dir: true,
        target_files: vec![],
        target_is_broken: true,
        target_symlink_dest: Some("/gone".to_string()),
    };
    let items = sc.scan_package(&pkg, &info).unwrap();
    assert_eq!(items.len(), 1);
    assert_eq!(items[0].drift_type, DriftType::Broken);
    assert_eq!(items[0].target_path, "/home/u/.config/app");
    assert_eq!(items[0].package.as_ref().unwrap().source, "app");
    assert_eq!(items[0].symlink_target, Some("/gone".to_string()));
}

#[test]
fn untracked_files_under_recursive_target() {
    let sc = scanner(Some("/home/u"));
    let pkg = Package {
        source: "app".to_string(),
        target: "~/.config/app".to_string(),
        strategy: LinkStrategy::LinkFilesRecursive,
    };
    let info = PackageScanInfo {
        source_is_dir: true,
        target_files: vec![
            ("/home/u/.config/app/kept.txt".to_string(), true),
            ("/home/u/.config/app/user-custom.txt".to_string(), false),
        ],
        target_is_broken: false,
        target_symlink_dest: None,
    };
    let items = sc.scan_package(&pkg, &info).unwrap();
    assert_eq!(items.len(), 1);
    assert_eq!(items[0].drift_type, DriftType::Untracked);
    assert_eq!(items[0].target_path, "/home/u/.config/app/user-custom.txt");
    assert!(items[0].symlink_target.is_none());
}

#[test]
fn folder_strategy_reports_no_untracked_files() {
    // Under LinkFolder the target's contents are not inspected at all:
    // only a broken target symlink would be reported.
    let sc = scanner(Some("/home/u"));
    let items = sc.scan_package(&folder_package("~/.config/app"), &quiet_info()).unwrap();
    assert!(items.is_empty());
}

#[test]
fn scan_needs_home_for_home_targets() {
    let sc = scanner(None);
    assert!(sc.scan_package(&folder_package("~/.config/app"), &quiet_info()).is_err());
}

#[test]
fn stale_state_entry_with_broken_link_is_reported() {
    let sc = scanner(Some("/home/u"));
    let config = DotyConfig {
        packages: vec![folder_package("~/.config/app")],
        path_resolution: PathResolution::Config,
    };
    let state_links = vec![
        // Covered by the package: not reported even though broken.
        ("~/.config/app/inner".to_string(), "x".to_string()),
        // Not covered and broken: reported without an owning package.
        ("/elsewhere/link".to_string(), "y".to_string()),
        // Not covered but intact: not reported.
        ("/elsewhere/fine".to_string(), "z".to_string()),
    ];
    let probes = vec![
        StateTargetProbe { is_broken: true, symlink_dest: Some("/a".to_string()) },
        StateTargetProbe { is_broken: true, symlink_dest: Some("/b".to_string()) },
        StateTargetProbe { is_broken: false, symlink_dest: None },
    ];
    let infos = vec![quiet_info()];
    let items = sc.scan_targets(&config, &state_links, &infos, &probes).unwrap();
    assert_eq!(items.len(), 1);
    assert_eq!(items[0].drift_type, DriftType::Broken);
    assert_eq!(items[0].target_path, "/elsewhere/link");
    assert!(items[0].package.is_none());
    assert_eq!(items[0].symlink_target, Some("/b".to_string()));
}

#[test]
fn scan_targets_concatenates_package_and_state_findings() {
    let sc = scanner(Some("/home/u"));
    let config = DotyConfig {
        packages: vec![folder_package("~/.config/app")],
        path_resolution: PathResolution::Config,
    };
    let infos = vec![PackageScanInfo {
        source_is_dir: true,
        target_files: vec![],
        target_is_broken: true,
        target_symlink_dest: None,
    }];
    let state_links = vec![("/stale/one".to_string(), "s".to_string())];
    let probes = vec![StateTargetProbe { is_broken: true, symlink_dest: None }];
    let items = sc.scan_targets(&config, &state_links, &infos, &probes).unwrap();
    assert_eq!(items.len(), 2);
    assert_eq!(items[0].target_path, "/home/u/.config/app");
    assert!(items[0].package.is_some());
    assert_eq!(items[1].target_path, "/stale/one");
    assert!(items[1].package.is_none());
}
