use laibrary::paths::{extension_listed, join_path, parent_path, path_file_name, path_normal_components};

fn rs() -> Vec<String> {
    vec!["rs".to_string()]
}

#[test]
fn extension_listed_follows_path_extension() {
    assert!(extension_listed("/crate/src/lib.rs", &rs()));
    assert!(extension_listed("lib.rs", &["txt".to_string(), "rs".to_string()]));
    assert!(!extension_listed("/crate/README.md", &rs()));
    assert!(!extension_listed("/crate/.rs", &rs()));
    assert!(!extension_listed("/crate/Makefile", &rs()));
    assert!(!extension_listed("/crate/src/", &["src".to_string()]));
    assert!(extension_listed("/crate/archive.tar.gz", &["gz".to_string()]));
    assert!(!extension_listed("/crate/archive.tar.gz", &["tar.gz".to_string()]));
    assert!(!extension_listed("..", &rs()));
}

#[test]
fn parent_and_join_follow_std_path() {
    assert_eq!(parent_path("/crate/src/lib.rs"), Some("/crate/src".to_string()));
    assert_eq!(parent_path("lib.rs"), Some(String::new()));
    assert_eq!(parent_path("/"), None);
    assert_eq!(join_path("/crate/src", "module.rs"), "/crate/src/module.rs");
    assert_eq!(join_path("/crate/src/", "module.rs"), "/crate/src/module.rs");
    assert_eq!(join_path("/crate", "/abs/lib.rs"), "/abs/lib.rs");
    assert_eq!(join_path("", "lib.rs"), "lib.rs");
}

#[test]
fn file_name_and_components() {
    assert_eq!(path_file_name("/crate/src/lib.rs").map(|v| v.into_iter().collect::<String>()), Some("lib.rs".to_string()));
    assert_eq!(path_file_name("/crate/src/"), Some("src".chars().collect()));
    assert!(path_file_name("/crate/..").is_none());
    assert_eq!(path_normal_components("/a/./b//c/"), vec!["a".to_string(), "b".to_string(), "c".to_string()]);
}
