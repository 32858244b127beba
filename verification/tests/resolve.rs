use doty::{
    normalize_to_absolute, path_join, path_parent, path_starts_with, resolve_target_path,
    strip_path_prefix, PathResolution,
};

#[test]
fn test_resolve_target_path_absolute() {
    let resolved = resolve_target_path("/absolute/path/file.txt", "/some/base", &None).unwrap();
    assert_eq!(resolved, "/absolute/path/file.txt".to_string());
}

#[test]
fn test_resolve_target_path_relative() {
    let resolved = resolve_target_path("relative/path/file.txt", "/some/base", &None).unwrap();
    assert_eq!(resolved, "/some/base/relative/path/file.txt".to_string());
}

#[test]
fn test_resolve_target_path_home_expansion() {
    let home = Some("/home/user".to_string());
    let resolved = resolve_target_path("~/test/file.txt", "/some/base", &home).unwrap();
    assert!(resolved.starts_with("/home/user"));
    assert_eq!(resolved, "/home/user/test/file.txt".to_string());

    let bare = resolve_target_path("~", "/some/base", &home).unwrap();
    assert_eq!(bare, "/home/user".to_string());
}

#[test]
fn test_resolve_target_path_no_home() {
    let result = resolve_target_path("~/test/file.txt", "/some/base", &None);
    assert!(result.is_err());
}

#[test]
fn test_path_resolution_display() {
    assert_eq!(PathResolution::Config.to_string(), "config");
    assert_eq!(PathResolution::Cwd.to_string(), "cwd");
}

#[test]
fn test_path_join_rules() {
    assert_eq!(path_join("/base", "x/y"), "/base/x/y".to_string());
    assert_eq!(path_join("/base/", "x"), "/base/x".to_string());
    assert_eq!(path_join("/base", "/abs"), "/abs".to_string());
    assert_eq!(path_join("", "rel"), "rel".to_string());
}

#[test]
fn test_normalize_to_absolute_fallback() {
    // With no home directory, a home-relative path falls back to a join.
    assert_eq!(
        normalize_to_absolute("~/.config/nvim", "/test/base", &None),
        "/test/base/~/.config/nvim".to_string()
    );
    // With a home directory it expands.
    assert_eq!(
        normalize_to_absolute("~/.config/nvim", "/test/base", &Some("/home/u".to_string())),
        "/home/u/.config/nvim".to_string()
    );
    assert_eq!(
        normalize_to_absolute("/already/abs", "/test/base", &None),
        "/already/abs".to_string()
    );
}

#[test]
fn test_path_parent_rules() {
    assert_eq!(path_parent("/a/b"), Some("/a".to_string()));
    assert_eq!(path_parent("/a"), Some("/".to_string()));
    assert_eq!(path_parent("/"), None);
    assert_eq!(path_parent("plain"), None);
}

#[test]
fn test_strip_path_prefix_rules() {
    assert_eq!(strip_path_prefix("/a/b/c", "/a"), Some("b/c".to_string()));
    assert_eq!(strip_path_prefix("/a", "/a"), Some("".to_string()));
    assert_eq!(strip_path_prefix("/ab/c", "/a"), None);
    assert_eq!(strip_path_prefix("/x/y", "/a"), None);
}

#[test]
fn test_path_starts_with_rules() {
    assert!(path_starts_with("/a/b/c", "/a"));
    assert!(path_starts_with("/a", "/a"));
    assert!(!path_starts_with("/ab", "/a"));
    assert!(path_starts_with("/anything", ""));
}
