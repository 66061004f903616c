use std::path::PathBuf;

use oxc_node::file_url::{file_url_to_path, path_to_file_url};

#[test]
fn non_windows_behavior_is_unchanged() {
    assert_eq!(file_url_to_path("file:///a/b.ts").map(PathBuf::from), Some(PathBuf::from("/a/b.ts")));
    assert_eq!(file_url_to_path("file:///a%20b.ts").map(PathBuf::from), Some(PathBuf::from("/a b.ts")));
    assert_eq!(path_to_file_url("/a/b.ts"), "file:///a/b.ts");
}
