use bts_map::walk::is_excluded_dir;

#[test]
fn walk_root_is_never_hidden() {
    assert!(!is_excluded_dir(true, Some("."), 0));
    assert!(!is_excluded_dir(true, Some(".bts-map-test-hidden-root"), 0));
}

#[test]
fn walk_root_with_a_build_name_is_kept() {
    for name in [".git", "target", "node_modules", "vendor", ".direnv", "dist", "build", "__pycache__", ".tox"] {
        assert!(!is_excluded_dir(true, Some(name), 0), "root {} should be kept", name);
    }
}

#[test]
fn hidden_child_dirs_are_excluded() {
    assert!(is_excluded_dir(true, Some(".hidden"), 1));
    assert!(is_excluded_dir(true, Some(".cache"), 3));
    assert!(!is_excluded_dir(true, Some("src"), 1));
}

#[test]
fn build_dirs_are_excluded() {
    for name in [".git", "target", "node_modules", "vendor", ".direnv", "dist", "build", "__pycache__", ".tox"] {
        assert!(is_excluded_dir(true, Some(name), 1), "{} should be excluded", name);
    }
    assert!(!is_excluded_dir(true, Some("targets"), 1));
}

#[test]
fn files_are_never_excluded() {
    assert!(!is_excluded_dir(false, Some(".hidden"), 1));
    assert!(!is_excluded_dir(false, Some("target"), 1));
    assert!(!is_excluded_dir(true, None, 1));
}
