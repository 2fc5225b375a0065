use dsh_desktop::path::{baked_repo_root, join_component};

#[test]
fn fourth_ancestor_of_a_drive_path() {
    assert_eq!(
        baked_repo_root(r"C:\Users\me\repo\packages\desktop\app\src-tauri"),
        Some(r"C:\Users\me\repo".to_string())
    );
}

#[test]
fn fourth_ancestor_of_a_slash_path() {
    assert_eq!(
        baked_repo_root("/home/me/repo/packages/desktop/app/src-tauri"),
        Some("/home/me/repo".to_string())
    );
}

#[test]
fn trailing_separators_and_dots_are_trimmed() {
    assert_eq!(baked_repo_root(r"C:\r\a\b\.\c\d\\"), Some(r"C:\r".to_string()));
    assert_eq!(baked_repo_root("a/b/c/d/e/."), Some("a".to_string()));
}

#[test]
fn ancestors_stop_at_the_root() {
    assert_eq!(baked_repo_root(r"C:\a\b\c\d"), Some(r"C:\".to_string()));
    assert_eq!(baked_repo_root(r"C:\a\b\c"), None);
    assert_eq!(baked_repo_root("/a/b/c"), None);
    assert_eq!(baked_repo_root("C:a\\b\\c\\d"), Some("C:".to_string()));
}

#[test]
fn relative_paths_end_at_the_empty_path() {
    assert_eq!(baked_repo_root("a/b/c/d"), Some(String::new()));
    assert_eq!(baked_repo_root("./a/b/c"), Some(String::new()));
    assert_eq!(baked_repo_root("a/b/c"), None);
    assert_eq!(baked_repo_root(""), None);
}

#[test]
fn parent_dir_components_are_kept() {
    assert_eq!(baked_repo_root("../x/y/z/w/v"), Some("../x".to_string()));
}

#[test]
fn join_adds_a_separator_only_where_needed() {
    assert_eq!(join_component(&"C:\\repo".to_string(), "apps"), "C:\\repo\\apps");
    assert_eq!(join_component(&"C:\\".to_string(), "apps"), "C:\\apps");
    assert_eq!(join_component(&"C:".to_string(), "apps"), "C:apps");
    assert_eq!(join_component(&"x/".to_string(), "apps"), "x/apps");
    assert_eq!(join_component(&String::new(), "apps"), "apps");
}

#[test]
fn unc_paths_keep_their_server_and_share() {
    assert_eq!(
        baked_repo_root(r"\\server\share\a\b\c\d"),
        Some(r"\\server\share\".to_string())
    );
    assert_eq!(baked_repo_root(r"\\server\share\a\b\c"), None);
    assert_eq!(
        baked_repo_root("//server/share/a/b/c/d"),
        Some("//server/share/".to_string())
    );
    assert_eq!(baked_repo_root(r"\\server\a\b\c\d"), None);
}

#[test]
fn device_paths_keep_their_device() {
    assert_eq!(baked_repo_root(r"\\.\pipe\a\b\c\d"), Some(r"\\.\pipe\".to_string()));
}

#[test]
fn verbatim_paths_split_on_backslashes_only() {
    assert_eq!(baked_repo_root(r"\\?\C:\x\y\.\z"), Some(r"\\?\C:\".to_string()));
    assert_eq!(baked_repo_root(r"\\?\C:\a/b\c\d\e\f"), Some(r"\\?\C:\a/b".to_string()));
    assert_eq!(
        baked_repo_root(r"\\?\UNC\server\share\a\b\c\d"),
        Some(r"\\?\UNC\server\share\".to_string())
    );
}

#[test]
fn join_writes_verbatim_paths_back_from_their_components() {
    assert_eq!(join_component(&r"\\?\C:\a\\b\".to_string(), "c"), r"\\?\C:\a\b\c");
    assert_eq!(join_component(&r"\\?\C:".to_string(), "c"), r"\\?\C:\c");
    assert_eq!(join_component(&r"\\?\C:\a\.\b".to_string(), "c"), r"\\?\C:\a\.\b\c");
    assert_eq!(join_component(&r"\\server\share".to_string(), "c"), r"\\server\share\c");
}
