use doty::{
    DotyState, FsOp, FsType, LinkAction, LinkStatus, LinkStrategy, Linker, Package,
    PathResolution, SourceInfo, TargetProbe,
};

fn linker(home: Option<&str>) -> Linker {
    Linker::new(
        "/dots".to_string(),
        PathResolution::Config,
        home.map(|h| h.to_string()),
    )
}

fn nvim_package(strategy: LinkStrategy) -> Package {
    Package {
        source: "nvim".to_string(),
        target: "~/.config/nvim".to_string(),
        strategy,
    }
}

fn absent_probe() -> TargetProbe {
    TargetProbe { fs_type: None, points_to: None, canon_source: None }
}

/// Runs the full pure pipeline: expansion, merge with stored pairs,
/// enrichment with one probe per record, decision.
fn run_engine(
    lk: &Linker,
    packages: &[(Package, SourceInfo)],
    stored: Vec<(String, String)>,
    probes: &[TargetProbe],
    force: bool,
) -> Vec<LinkAction> {
    let mut expanded = Vec::new();
    for (pkg, info) in packages {
        expanded.extend(lk.expand_package(pkg, info));
    }
    let mut statuses = lk.merge_link_states(expanded, &stored);
    assert_eq!(statuses.len(), probes.len());
    for (i, pair) in statuses.iter_mut().enumerate() {
        lk.enrich_status(&mut pair.1, &probes[i]);
    }
    lk.calculate_diff(&statuses, force)
}

#[test]
fn explicit_missing_source_warns_once() {
    // A package whose source does not exist, strategy LinkFolder, no
    // stored link: exactly one warning, and no operation is planned.
    let lk = linker(Some("/home/u"));
    let actions = run_engine(
        &lk,
        &[(nvim_package(LinkStrategy::LinkFolder), SourceInfo::Missing)],
        vec![],
        &[absent_probe()],
        false,
    );
    assert_eq!(actions.len(), 1);
    match &actions[0] {
        LinkAction::Warning { target, source, message } => {
            assert_eq!(target, "~/.config/nvim");
            assert_eq!(source, "nvim");
            assert_eq!(message, "Source (file|dir) gone, remove from config if intentional");
        }
        other => panic!("expected a warning, got {:?}", other),
    }
    let ops = lk.plan_action(&actions[0], "/cwd", false).unwrap();
    assert!(ops.is_empty());
}

#[test]
fn broken_link_with_missing_source_warns_and_prunes() {
    // The package was linked before (stored), then its source vanished
    // and the target symlink broke: one warning and one prune.
    let lk = linker(Some("/home/u"));
    let stored = vec![("/home/u/.config/nvim".to_string(), "/dots/nvim".to_string())];
    let broken_probe = TargetProbe {
        fs_type: Some(FsType::Symlink),
        points_to: None,
        canon_source: None,
    };
    let actions = run_engine(
        &lk,
        &[(nvim_package(LinkStrategy::LinkFolder), SourceInfo::Missing)],
        stored,
        &[broken_probe],
        false,
    );
    assert_eq!(actions.len(), 2);
    match &actions[0] {
        LinkAction::Warning { target, source, .. } => {
            assert_eq!(target, "~/.config/nvim");
            assert_eq!(source, "nvim");
        }
        other => panic!("expected a warning, got {:?}", other),
    }
    match &actions[1] {
        LinkAction::Pruned { target, source } => {
            assert_eq!(target, "~/.config/nvim");
            assert_eq!(source, "/dots/nvim");
        }
        other => panic!("expected a prune, got {:?}", other),
    }
    // Executing the prune removes the symlink; a dry run plans nothing.
    let ops = lk.plan_action(&actions[1], "/cwd", false).unwrap();
    assert_eq!(
        ops,
        vec![FsOp::RemoveTarget { path: "/home/u/.config/nvim".to_string() }]
    );
    let dry = lk.plan_action(&actions[1], "/cwd", true).unwrap();
    assert!(dry.is_empty());
}

#[test]
fn implicit_missing_source_is_silent() {
    // An implicit record (discovered by recursive expansion) whose
    // source vanished produces no action and no warning.
    let lk = linker(Some("/home/u"));
    let status = LinkStatus {
        config_resolved_source: Some("app/a.txt".to_string()),
        config_resolved_target: Some("~/.config/app/a.txt".to_string()),
        config_is_explicit: false,
        state_resolved_source: Some("/dots/app/a.txt".to_string()),
        state_resolved_target: Some("/home/u/.config/app/a.txt".to_string()),
        source_exists: false,
        target_exists: true,
        target_type: Some(FsType::Symlink),
        target_points_to: None,
        config_abs_source: Some("/dots/app/a.txt".to_string()),
    };
    assert!(lk.determine_action_for_status(&status, false).is_empty());
    assert!(lk.determine_action_for_status(&status, true).is_empty());
}

#[test]
fn directory_mirroring_creates_each_file() {
    // A recursive source directory holding a/b.txt and a/c.txt yields
    // two created links under target/a, and the plan makes target/a a
    // real directory, not a symlink.
    let lk = linker(Some("/home/u"));
    let pkg = Package {
        source: "app".to_string(),
        target: "~/.config/app".to_string(),
        strategy: LinkStrategy::LinkFilesRecursive,
    };
    let info = SourceInfo::Dir {
        files: vec!["a/b.txt".to_string(), "a/c.txt".to_string()],
    };
    let actions = run_engine(
        &lk,
        &[(pkg, info)],
        vec![],
        &[absent_probe(), absent_probe()],
        false,
    );
    assert_eq!(actions.len(), 2);
    assert_eq!(
        actions[0],
        LinkAction::Created {
            target: "~/.config/app/a/b.txt".to_string(),
            source: "app/a/b.txt".to_string(),
        }
    );
    assert_eq!(
        actions[1],
        LinkAction::Created {
            target: "~/.config/app/a/c.txt".to_string(),
            source: "app/a/c.txt".to_string(),
        }
    );
    let ops = lk.plan_action(&actions[0], "/cwd", false).unwrap();
    assert_eq!(
        ops,
        vec![
            FsOp::EnsureDir { path: "/home/u/.config/app/a".to_string() },
            FsOp::RemoveTarget { path: "/home/u/.config/app/a/b.txt".to_string() },
            FsOp::CreateSymlink {
                link: "/home/u/.config/app/a/b.txt".to_string(),
                dest: "/dots/app/a/b.txt".to_string(),
            },
        ]
    );
}

#[test]
fn example_scenario_nvim_link_folder() {
    // Package {source: nvim, target: ~/.config/nvim, LinkFolder}, empty
    // stored state, source directory exists: one Created, whose plan
    // links ~/.config/nvim to the absolute source directory.
    let lk = linker(Some("/home/user"));
    let actions = run_engine(
        &lk,
        &[(nvim_package(LinkStrategy::LinkFolder), SourceInfo::Dir { files: vec![] })],
        vec![],
        &[absent_probe()],
        false,
    );
    assert_eq!(
        actions,
        vec![LinkAction::Created {
            target: "~/.config/nvim".to_string(),
            source: "nvim".to_string(),
        }]
    );
    let ops = lk.plan_action(&actions[0], "/cwd", false).unwrap();
    assert_eq!(
        ops,
        vec![
            FsOp::EnsureDir { path: "/home/user/.config".to_string() },
            FsOp::RemoveTarget { path: "/home/user/.config/nvim".to_string() },
            FsOp::CreateSymlink {
                link: "/home/user/.config/nvim".to_string(),
                dest: "/dots/nvim".to_string(),
            },
        ]
    );
}

#[test]
fn second_run_skips_after_create() {
    // Idempotence on concrete values: after the first run created the
    // link and the state recorded the absolute source, the second run
    // decides Skipped for the same target.
    let lk = linker(Some("/home/user"));
    let first = run_engine(
        &lk,
        &[(nvim_package(LinkStrategy::LinkFolder), SourceInfo::Dir { files: vec![] })],
        vec![],
        &[absent_probe()],
        false,
    );
    assert!(matches!(first[0], LinkAction::Created { .. }));

    // The executor made the target a symlink to /dots/nvim and the state
    // now records it; nothing else changed.
    let stored = vec![("/home/user/.config/nvim".to_string(), "/dots/nvim".to_string())];
    let linked_probe = TargetProbe {
        fs_type: Some(FsType::Symlink),
        points_to: Some("/dots/nvim".to_string()),
        canon_source: Some("/dots/nvim".to_string()),
    };
    let second = run_engine(
        &lk,
        &[(nvim_package(LinkStrategy::LinkFolder), SourceInfo::Dir { files: vec![] })],
        stored,
        &[linked_probe],
        false,
    );
    assert_eq!(
        second,
        vec![LinkAction::Skipped {
            target: "~/.config/nvim".to_string(),
            source: "nvim".to_string(),
        }]
    );
}

#[test]
fn changed_source_updates() {
    let lk = linker(Some("/home/u"));
    let stored = vec![("/home/u/.config/nvim".to_string(), "/dots/old-nvim".to_string())];
    let probe = TargetProbe {
        fs_type: Some(FsType::Symlink),
        points_to: Some("/dots/old-nvim".to_string()),
        canon_source: Some("/dots/nvim".to_string()),
    };
    let actions = run_engine(
        &lk,
        &[(nvim_package(LinkStrategy::LinkFolder), SourceInfo::Dir { files: vec![] })],
        stored,
        &[probe],
        false,
    );
    assert_eq!(
        actions,
        vec![LinkAction::Updated {
            target: "~/.config/nvim".to_string(),
            old_source: "/dots/old-nvim".to_string(),
            new_source: "nvim".to_string(),
        }]
    );
}

#[test]
fn wrong_destination_recreates() {
    // Stored source matches, but the target symlink points elsewhere.
    let lk = linker(Some("/home/u"));
    let stored = vec![("/home/u/.config/nvim".to_string(), "/dots/nvim".to_string())];
    let probe = TargetProbe {
        fs_type: Some(FsType::Symlink),
        points_to: Some("/somewhere/else".to_string()),
        canon_source: Some("/dots/nvim".to_string()),
    };
    let actions = run_engine(
        &lk,
        &[(nvim_package(LinkStrategy::LinkFolder), SourceInfo::Dir { files: vec![] })],
        stored,
        &[probe],
        false,
    );
    assert!(matches!(actions[0], LinkAction::Created { .. }));
}

#[test]
fn stored_only_target_is_removed() {
    let lk = linker(Some("/home/u"));
    let stored = vec![("/home/u/.config/old".to_string(), "/dots/old".to_string())];
    let actions = run_engine(&lk, &[], stored, &[absent_probe()], false);
    assert_eq!(
        actions,
        vec![LinkAction::Removed {
            target: "/home/u/.config/old".to_string(),
            source: "/dots/old".to_string(),
        }]
    );
}

#[test]
fn force_removes_tracked_missing_source() {
    // Explicit missing source, target not a broken symlink, stored
    // entry present: with force the entry is removed, without it the
    // tool only warns.
    let lk = linker(Some("/home/u"));
    let stored = vec![("/home/u/.config/nvim".to_string(), "/dots/nvim".to_string())];
    let packages = [(nvim_package(LinkStrategy::LinkFolder), SourceInfo::Missing)];

    let forced = run_engine(&lk, &packages, stored.clone(), &[absent_probe()], true);
    assert_eq!(
        forced,
        vec![LinkAction::Removed {
            target: "~/.config/nvim".to_string(),
            source: "/dots/nvim".to_string(),
        }]
    );

    let unforced = run_engine(&lk, &packages, stored, &[absent_probe()], false);
    assert_eq!(unforced.len(), 1);
    assert!(matches!(unforced[0], LinkAction::Warning { .. }));
}

#[test]
fn file_source_links_directly() {
    // A single source file is linked directly, whatever the strategy.
    let lk = linker(Some("/home/u"));
    let pkg = Package {
        source: "zsh/.zshrc".to_string(),
        target: "~/.zshrc".to_string(),
        strategy: LinkStrategy::LinkFilesRecursive,
    };
    let actions = run_engine(&lk, &[(pkg, SourceInfo::File)], vec![], &[absent_probe()], false);
    assert_eq!(
        actions,
        vec![LinkAction::Created {
            target: "~/.zshrc".to_string(),
            source: "zsh/.zshrc".to_string(),
        }]
    );
}

#[test]
fn clean_removes_present_targets_only() {
    let lk = linker(None);
    let links = vec![
        ("/t/one".to_string(), "/s/one".to_string()),
        ("/t/two".to_string(), "/s/two".to_string()),
    ];
    let present = vec![true, false];
    let actions = lk.clean(&links, &present);
    assert_eq!(
        actions,
        vec![LinkAction::Removed {
            target: "/t/one".to_string(),
            source: "/s/one".to_string(),
        }]
    );
}

#[test]
fn updated_plan_removes_then_recreates() {
    let lk = linker(Some("/home/u"));
    let action = LinkAction::Updated {
        target: "~/.zshrc".to_string(),
        old_source: "/dots/old".to_string(),
        new_source: "zsh/.zshrc".to_string(),
    };
    let ops = lk.plan_action(&action, "/cwd", false).unwrap();
    assert_eq!(
        ops,
        vec![
            FsOp::RemoveTarget { path: "/home/u/.zshrc".to_string() },
            FsOp::EnsureDir { path: "/home/u".to_string() },
            FsOp::RemoveTarget { path: "/home/u/.zshrc".to_string() },
            FsOp::CreateSymlink {
                link: "/home/u/.zshrc".to_string(),
                dest: "/dots/zsh/.zshrc".to_string(),
            },
        ]
    );
}

#[test]
fn plan_fails_without_home() {
    let lk = linker(None);
    let action = LinkAction::Created {
        target: "~/.zshrc".to_string(),
        source: "zsh/.zshrc".to_string(),
    };
    assert!(lk.plan_action(&action, "/cwd", false).is_err());
}

#[test]
fn apply_actions_track_state() {
    let home = Some("/home/u".to_string());
    let mut state = DotyState::new("host".to_string(), "/dots".to_string());
    state.apply_action(
        &LinkAction::Created {
            target: "~/.config/nvim".to_string(),
            source: "nvim".to_string(),
        },
        &home,
    );
    assert_eq!(
        state.links,
        vec![("/home/u/.config/nvim".to_string(), "/dots/nvim".to_string())]
    );
    state.apply_action(
        &LinkAction::Updated {
            target: "~/.config/nvim".to_string(),
            old_source: "/dots/nvim".to_string(),
            new_source: "nvim2".to_string(),
        },
        &home,
    );
    assert_eq!(
        state.links,
        vec![("/home/u/.config/nvim".to_string(), "/dots/nvim2".to_string())]
    );
    state.apply_action(
        &LinkAction::Skipped {
            target: "~/.config/nvim".to_string(),
            source: "nvim2".to_string(),
        },
        &home,
    );
    assert_eq!(state.links.len(), 1);
    state.apply_action(
        &LinkAction::Removed {
            target: "~/.config/nvim".to_string(),
            source: "/dots/nvim2".to_string(),
        },
        &home,
    );
    assert!(state.links.is_empty());
}

#[test]
fn merge_combines_both_sides() {
    let lk = linker(Some("/home/u"));
    let expanded = lk.expand_package(
        &nvim_package(LinkStrategy::LinkFolder),
        &SourceInfo::Dir { files: vec![] },
    );
    let stored = vec![("/home/u/.config/nvim".to_string(), "/dots/nvim".to_string())];
    let merged = lk.merge_link_states(expanded, &stored);
    assert_eq!(merged.len(), 1);
    let status = &merged[0].1;
    assert_eq!(status.config_resolved_source, Some("nvim".to_string()));
    assert_eq!(status.state_resolved_source, Some("/dots/nvim".to_string()));
    assert!(status.source_exists);
}

#[test]
fn owning_package_is_first_prefix_match() {
    let packages = vec![
        Package {
            source: "a".to_string(),
            target: "~/.config/app".to_string(),
            strategy: LinkStrategy::LinkFolder,
        },
        Package {
            source: "b".to_string(),
            target: "~/.config".to_string(),
            strategy: LinkStrategy::LinkFolder,
        },
    ];
    assert_eq!(doty::owning_package_index(&packages, "~/.config/app/file"), Some(0));
    assert_eq!(doty::owning_package_index(&packages, "~/.config/other"), Some(1));
    assert_eq!(doty::owning_package_index(&packages, "/elsewhere"), None);
}

#[test]
fn action_counts_tally_each_kind() {
    let actions = vec![
        LinkAction::Created { target: "/t1".to_string(), source: "s1".to_string() },
        LinkAction::Skipped { target: "/t2".to_string(), source: "s2".to_string() },
        LinkAction::Created { target: "/t3".to_string(), source: "s3".to_string() },
        LinkAction::Warning {
            target: "/t4".to_string(),
            source: "s4".to_string(),
            message: "m".to_string(),
        },
        LinkAction::Pruned { target: "/t4".to_string(), source: "s4".to_string() },
    ];
    let counts = doty::count_actions(&actions);
    assert_eq!(counts.created, 2);
    assert_eq!(counts.updated, 0);
    assert_eq!(counts.skipped, 1);
    assert_eq!(counts.removed, 0);
    assert_eq!(counts.pruned, 1);
    assert_eq!(counts.warnings, 1);
}
