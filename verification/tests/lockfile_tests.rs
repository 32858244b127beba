use doty::Lockfile;

#[test]
fn test_new_lockfile() {
    let lockfile = Lockfile::new("test-host".to_string(), "/test/base".to_string());
    assert_eq!(lockfile.hostname, "test-host");
    assert_eq!(lockfile.lockfile_version, 1);
    assert_eq!(lockfile.base_path, "/test/base");
    assert_eq!(lockfile.links.len(), 0);
}

#[test]
fn lockfile_test_add_remove_link() {
    let mut lockfile = Lockfile::new("test-host".to_string(), "/test/base".to_string());

    lockfile.add_link("~/.config/nvim".to_string(), "nvim".to_string());

    // The lockfile stores normalised absolute paths.
    assert!(lockfile.is_managed("~/.config/nvim"));
    let source = lockfile.get_source("~/.config/nvim");
    assert!(source.is_some());
    assert!(source.unwrap().starts_with('/'));
    assert!(source.unwrap().ends_with("nvim"));

    let removed = lockfile.remove_link("~/.config/nvim");
    assert!(removed.is_some());
    assert!(removed.unwrap().starts_with('/'));
    assert!(!lockfile.is_managed("~/.config/nvim"));
}

#[test]
fn lockfile_test_to_kdl() {
    let mut lockfile = Lockfile::new("test-host".to_string(), "/test/base".to_string());
    lockfile.add_link("~/.config/nvim".to_string(), "nvim".to_string());
    lockfile.add_link("~/.zshrc".to_string(), "zsh/.zshrc".to_string());

    let kdl = lockfile.to_kdl();
    assert!(kdl.contains("lockfileVersion 1"));
    assert!(kdl.contains("basePath \"/test/base\""));
    assert!(kdl.contains("link"));
    // The lockfile stores normalised absolute paths.
    assert!(kdl.contains("source=\"/test/base/nvim\""));
    assert!(kdl.contains("target="));
    assert!(kdl.contains("source=\"/test/base/zsh/.zshrc\""));
}

#[test]
fn lockfile_test_from_str() {
    let kdl = r#"
            lockfileVersion 1
            basePath "/test/base"
            link source="nvim" target="~/.config/nvim"
            link source="zsh/.zshrc" target="~/.zshrc"
        "#;

    let lockfile = Lockfile::from_str(kdl, "test-host").unwrap();
    assert_eq!(lockfile.hostname, "test-host");
    assert_eq!(lockfile.lockfile_version, 1);
    assert_eq!(lockfile.base_path, "/test/base");
    assert_eq!(lockfile.links.len(), 2);
    assert!(lockfile.is_managed("~/.config/nvim"));
    assert!(lockfile.is_managed("~/.zshrc"));
}

#[test]
fn lockfile_test_roundtrip() {
    let mut lockfile = Lockfile::new("test-host".to_string(), "/test/base".to_string());
    lockfile.add_link("~/.config/nvim".to_string(), "nvim".to_string());
    lockfile.add_link("~/.zshrc".to_string(), "zsh/.zshrc".to_string());

    let kdl = lockfile.to_kdl();
    let parsed = Lockfile::from_str(&kdl, "test-host").unwrap();

    assert_eq!(lockfile, parsed);
}

#[test]
fn lockfile_test_home_expansion() {
    let mut lockfile = Lockfile::new("host".to_string(), "/test/base".to_string());
    lockfile.set_home(Some("/home/user".to_string()));
    lockfile.add_link("~/.config/nvim".to_string(), "nvim".to_string());
    assert_eq!(
        lockfile.links,
        vec![("/home/user/.config/nvim".to_string(), "/test/base/nvim".to_string())]
    );
    assert!(lockfile.is_managed("~/.config/nvim"));
    assert!(lockfile.is_managed("/home/user/.config/nvim"));
}
