use oxc_node::unix_path::{join_path, path_extension, path_file_name, path_is_absolute, path_parent};

#[test]
fn extension_follows_the_last_dot_of_the_file_name() {
    assert_eq!(path_extension("/a/b.ts"), Some("ts".to_owned()));
    assert_eq!(path_extension("/a/b.tar.gz"), Some("gz".to_owned()));
    assert_eq!(path_extension("/a/b."), Some(String::new()));
    assert_eq!(path_extension("/a/b.ts/"), Some("ts".to_owned()));
    assert_eq!(path_extension("file:///a/b.json"), Some("json".to_owned()));
}

#[test]
fn extension_is_absent_without_an_embedded_dot() {
    assert_eq!(path_extension("/a/b"), None);
    assert_eq!(path_extension("/a/.bashrc"), None);
    assert_eq!(path_extension("/a/.."), None);
    assert_eq!(path_extension("/"), None);
    assert_eq!(path_extension(""), None);
}

#[test]
fn file_name_is_the_final_component() {
    assert_eq!(path_file_name("/a/b.ts"), Some("b.ts".to_owned()));
    assert_eq!(path_file_name("/a/b/."), Some("b".to_owned()));
    assert_eq!(path_file_name("a//b//"), Some("b".to_owned()));
    assert_eq!(path_file_name("/"), None);
    assert_eq!(path_file_name("/a/.."), None);
    assert_eq!(path_file_name("."), None);
}

#[test]
fn parent_drops_the_final_component() {
    assert_eq!(path_parent("/a/b.ts"), Some("/a".to_owned()));
    assert_eq!(path_parent("/a"), Some("/".to_owned()));
    assert_eq!(path_parent("/a/b/"), Some("/a".to_owned()));
    assert_eq!(path_parent("a//b"), Some("a".to_owned()));
    assert_eq!(path_parent("./b"), Some(".".to_owned()));
    assert_eq!(path_parent("a"), Some(String::new()));
    assert_eq!(path_parent("/"), None);
    assert_eq!(path_parent(""), None);
}

#[test]
fn join_appends_or_replaces() {
    assert_eq!(join_path("/cwd", "src/a.ts"), "/cwd/src/a.ts");
    assert_eq!(join_path("/cwd/", "a.ts"), "/cwd/a.ts");
    assert_eq!(join_path("/cwd", "/abs/a.ts"), "/abs/a.ts");
    assert_eq!(join_path("", "a.ts"), "a.ts");
    assert!(path_is_absolute("/a"));
    assert!(!path_is_absolute("a/b"));
    assert!(!path_is_absolute(""));
}
