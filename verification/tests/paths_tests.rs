use volumetrik::fstree::extension_key;
use volumetrik::paths::{contains_dotdot, map_to_system_path, map_to_ui_path, normalize_parent};

#[test]
fn system_path_passthrough_outside_docker() {
    assert_eq!(map_to_system_path("/any/path", false), "/any/path");
    assert_eq!(map_to_system_path("C:\\data", false), "C:\\data");
}

#[test]
fn system_path_rerooted_in_docker() {
    assert_eq!(map_to_system_path("", true), "/host");
    assert_eq!(map_to_system_path("/", true), "/host");
    assert_eq!(map_to_system_path("///", true), "/host");
    assert_eq!(map_to_system_path("/data/x", true), "/host/data/x");
    assert_eq!(map_to_system_path("\\data\\x", true), "/host/data/x");
    assert_eq!(map_to_system_path("data", true), "/host/data");
}

#[test]
fn ui_path_inverts_host_prefix() {
    assert_eq!(map_to_ui_path("/host", true), "/");
    assert_eq!(map_to_ui_path("/host/", true), "/");
    assert_eq!(map_to_ui_path("/host/data/x", true), "/data/x");
    assert_eq!(map_to_ui_path("/etc", true), "/etc");
    assert_eq!(map_to_ui_path("\\host\\data", true), "/data");
    assert_eq!(map_to_ui_path("/host/data", false), "/host/data");
}

#[test]
fn parent_normalization() {
    // at the root in container mode there is no parent
    assert_eq!(normalize_parent(Some("/".to_string()), "/", true), None);
    // an empty computed parent of a non-root path collapses to the root
    assert_eq!(normalize_parent(Some(String::new()), "/Users", false), Some("/".to_string()));
    // an empty computed parent of the root means none
    assert_eq!(normalize_parent(Some(String::new()), "/", false), None);
    // a real parent passes through
    assert_eq!(
        normalize_parent(Some("/a/b".to_string()), "/a/b/c", false),
        Some("/a/b".to_string())
    );
    assert_eq!(normalize_parent(None, "/x", false), None);
}

#[test]
fn dotdot_detection() {
    assert!(contains_dotdot("/a/../b"));
    assert!(contains_dotdot(".."));
    assert!(contains_dotdot("a..b"));
    assert!(!contains_dotdot("/a/b.c"));
    assert!(!contains_dotdot("."));
    assert!(!contains_dotdot(""));
}

#[test]
fn extension_keys() {
    assert_eq!(extension_key("archive.tar.gz"), "gz");
    assert_eq!(extension_key("README"), "unknown");
    assert_eq!(extension_key("photo.JPG"), "jpg");
    assert_eq!(extension_key("A.TXT"), "txt");
    // a leading dot alone does not make an extension
    assert_eq!(extension_key(".gitignore"), "unknown");
    assert_eq!(extension_key(".config.yml"), "yml");
}
