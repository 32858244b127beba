use doty::DotyState;

#[test]
fn test_new_state() {
    let state = DotyState::new("test-host".to_string(), "/test/base".to_string());
    assert_eq!(state.hostname, "test-host");
    assert_eq!(state.lockfile_version, 1);
    assert_eq!(state.base_path, "/test/base");
    assert_eq!(state.links.len(), 0);
}

#[test]
fn state_test_add_remove_link() {
    let mut state = DotyState::new("test-host".to_string(), "/test/base".to_string());

    state.add_link("~/.config/nvim".to_string(), "nvim".to_string());

    assert!(state.is_managed("~/.config/nvim"));
    assert_eq!(state.get_source("~/.config/nvim"), Some(&"nvim".to_string()));

    let removed = state.remove_link("~/.config/nvim");
    assert_eq!(removed, Some("nvim".to_string()));
    assert!(!state.is_managed("~/.config/nvim"));
}

#[test]
fn state_test_to_kdl() {
    let mut state = DotyState::new("test-host".to_string(), "/test/base".to_string());
    state.add_link("~/.config/nvim".to_string(), "nvim".to_string());
    state.add_link("~/.zshrc".to_string(), "zsh/.zshrc".to_string());

    let kdl = state.to_kdl();
    assert!(kdl.contains("lockfileVersion 1"));
    assert!(kdl.contains("basePath \"/test/base\""));
    assert!(kdl.contains("link"));
    assert!(kdl.contains("source=nvim"));
    assert!(kdl.contains("target=\"~/.config/nvim\""));
    assert!(kdl.contains("source=\"zsh/.zshrc\""));
    assert!(kdl.contains("target=\"~/.zshrc\""));
}

#[test]
fn state_test_from_str() {
    let kdl = r#"
            lockfileVersion 1
            basePath "/test/base"
            link source="nvim" target="~/.config/nvim"
            link source="zsh/.zshrc" target="~/.zshrc"
        "#;

    let state = DotyState::from_str(kdl, "test-host").unwrap();
    assert_eq!(state.hostname, "test-host");
    assert_eq!(state.lockfile_version, 1);
    assert_eq!(state.base_path, "/test/base");
    assert_eq!(state.links.len(), 2);
    assert!(state.is_managed("~/.config/nvim"));
    assert!(state.is_managed("~/.zshrc"));
}

#[test]
fn state_test_roundtrip() {
    let mut state = DotyState::new("test-host".to_string(), "/test/base".to_string());
    state.add_link("~/.config/nvim".to_string(), "nvim".to_string());
    state.add_link("~/.zshrc".to_string(), "zsh/.zshrc".to_string());

    let kdl = state.to_kdl();
    let parsed = DotyState::from_str(&kdl, "test-host").unwrap();

    assert_eq!(state, parsed);
}

#[test]
fn state_test_roundtrip_quoted_and_bare() {
    // A mix of bare words, quoted paths, and an all-digit source that
    // must be quoted to read back as a string.
    let mut state = DotyState::new("host".to_string(), "/b".to_string());
    state.add_link("/t/one".to_string(), "plain-word_1.txt".to_string());
    state.add_link("/t/two".to_string(), "1234".to_string());
    state.add_link("/t/three".to_string(), "with space".to_string());

    let parsed = DotyState::from_str(&state.to_kdl(), "host").unwrap();
    assert_eq!(state, parsed);
}

#[test]
fn state_test_from_str_unknown_nodes_ignored() {
    let kdl = "lockfileVersion 2\nbasePath \"/b\"\nsomethingElse \"x\"\nlink source=\"s\" target=\"/t\"\n";
    let state = DotyState::from_str(kdl, "h").unwrap();
    assert_eq!(state.lockfile_version, 2);
    assert_eq!(state.base_path, "/b");
    assert_eq!(state.links, vec![("/t".to_string(), "s".to_string())]);
}

#[test]
fn state_test_from_str_missing_target_is_error() {
    let kdl = "link source=\"s\"\n";
    assert!(DotyState::from_str(kdl, "h").is_err());
}

#[test]
fn state_test_from_str_missing_source_is_error() {
    let kdl = "link target=\"/t\"\n";
    assert!(DotyState::from_str(kdl, "h").is_err());
}

#[test]
fn state_test_from_str_unterminated_quote_is_error() {
    let kdl = "basePath \"/never-closed\n";
    assert!(DotyState::from_str(kdl, "h").is_err());
}

#[test]
fn state_test_from_str_defaults() {
    // An empty document keeps the defaults: version 1, base ".".
    let state = DotyState::from_str("", "h").unwrap();
    assert_eq!(state.lockfile_version, 1);
    assert_eq!(state.base_path, ".");
    assert_eq!(state.links.len(), 0);
}

#[test]
fn state_test_from_str_oversized_version_ignored() {
    // A version that does not fit u32 leaves the default in place.
    let state = DotyState::from_str("lockfileVersion 99999999999999999999\n", "h").unwrap();
    assert_eq!(state.lockfile_version, 1);
}

#[test]
fn state_test_from_str_duplicate_target_last_wins() {
    let kdl = "link source=\"a\" target=\"/t\"\nlink source=\"b\" target=\"/t\"\n";
    let state = DotyState::from_str(kdl, "h").unwrap();
    assert_eq!(state.links, vec![("/t".to_string(), "b".to_string())]);
}

#[test]
fn state_test_roundtrip_value_with_equals_sign() {
    // A quoted value may hold `=` and spaces; only quotes and line
    // breaks cannot be represented.
    let mut state = DotyState::new("host".to_string(), "/b".to_string());
    state.add_link("/t/x".to_string(), "name=value with spaces".to_string());
    let parsed = DotyState::from_str(&state.to_kdl(), "host").unwrap();
    assert_eq!(state, parsed);
}
